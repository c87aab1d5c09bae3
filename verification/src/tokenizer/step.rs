//! One step of the tokenizer: from a cursor into the characters to the token that starts there.

use vstd::prelude::*;

use super::options::{is_control, spec_is_control, LineBreak, Options, OptionsView};
use super::{Error, ErrorKind};
use crate::token::{Kind, KindView, Token, TokenView};

verus! {

/// What a scan found, and the offset at which it left the cursor.
pub struct Scan<T> {
    pub outcome: Result<T, Error>,
    pub end: int,
}

/// What one step yields: a token, an error, or nothing at the end of the input; and the offset
/// at which the step left the cursor.
pub struct Step {
    pub item: Option<Result<TokenView, Error>>,
    pub end: int,
}

/// The error of kind `kind` at offset `at`.
pub open spec fn fault(at: int, kind: ErrorKind) -> Error {
    Error { at: at as usize, kind }
}

/// The scan `scan` with `head` put in front of the text it found.
pub open spec fn prepend(head: Seq<char>, scan: Scan<Seq<char>>) -> Scan<Seq<char>> {
    Scan {
        outcome: match scan.outcome {
            Ok(text) => Ok(head + text),
            Err(e) => Err(e),
        },
        end: scan.end,
    }
}

/// Whether a line feed follows the character at offset `i`.
pub open spec fn line_feed_follows(s: Seq<char>, i: int) -> bool {
    i + 1 < s.len() && s[i + 1] == '\n'
}

/// The line break that a carriage return at offset `i` begins: whether it takes the line feed
/// behind it, or why it is none.
///
/// Where a line feed follows, it is consumed: as the second half of the break, or, where lines
/// end in a lone carriage return, as the offender.
pub open spec fn carriage_return_at(s: Seq<char>, i: int, mode: LineBreak) -> Scan<bool> {
    if mode is Lf {
        Scan { outcome: Err(fault(i, ErrorKind::CarriageReturn)), end: i + 1 }
    } else if line_feed_follows(s, i) {
        Scan {
            outcome: if mode is Cr {
                Err(fault(i + 1, ErrorKind::LineFeed))
            } else {
                Ok(true)
            },
            end: i + 2,
        }
    } else {
        Scan {
            outcome: if mode is Crlf {
                Err(fault(i, ErrorKind::CarriageReturn))
            } else {
                Ok(false)
            },
            end: i + 1,
        }
    }
}

/// Whether a line feed at offset `i` ends a line by itself.
pub open spec fn line_feed_at(i: int, mode: LineBreak) -> Result<(), Error> {
    if mode is Lf || mode is Any {
        Ok(())
    } else {
        Err(fault(i, ErrorKind::LineFeed))
    }
}

/// The text of a quoted section whose first character, behind the opening quote, stands at
/// offset `i`.
///
/// Two quotes in a row stand for one; a single quote, or the end of the input, ends the
/// section. Line breaks that the mode accepts are part of the text; any other control code is
/// an error.
pub open spec fn quoted_body(s: Seq<char>, i: int, o: OptionsView) -> Scan<Seq<char>>
    decreases s.len() - i,
{
    if i < 0 || i >= s.len() {
        Scan { outcome: Ok(Seq::empty()), end: i }
    } else if s[i] == '\r' {
        let cr = carriage_return_at(s, i, o.line_break);
        match cr.outcome {
            Err(e) => Scan { outcome: Err(e), end: cr.end },
            Ok(_) => prepend(s.subrange(i, cr.end), quoted_body(s, cr.end, o)),
        }
    } else if s[i] == '\n' {
        match line_feed_at(i, o.line_break) {
            Err(e) => Scan { outcome: Err(e), end: i + 1 },
            Ok(_) => prepend(seq!['\n'], quoted_body(s, i + 1, o)),
        }
    } else if spec_is_control(s[i]) {
        Scan { outcome: Err(fault(i, ErrorKind::Control)), end: i + 1 }
    } else if s[i] != o.quote {
        prepend(seq![s[i]], quoted_body(s, i + 1, o))
    } else if i + 1 < s.len() && s[i + 1] == o.quote {
        prepend(seq![o.quote], quoted_body(s, i + 2, o))
    } else {
        Scan { outcome: Ok(Seq::empty()), end: i + 1 }
    }
}

/// Whether a field may end in front of `ch`: at the delimiter, and at a character that begins
/// a line break of the mode.
pub open spec fn ends_field(ch: char, o: OptionsView) -> bool {
    ch == o.delimiter || o.line_break.spec_begins_with(ch)
}

/// The text of a quoted field whose first character, behind the opening quote, stands at
/// offset `i`: that of the quoted section, which must reach to the end of the field.
pub open spec fn quoted_field(s: Seq<char>, i: int, o: OptionsView) -> Scan<Seq<char>> {
    let body = quoted_body(s, i, o);
    if body.outcome is Ok && 0 <= body.end < s.len() && !ends_field(s[body.end], o) {
        Scan { outcome: Err(fault(body.end, ErrorKind::EarlyQuote)), end: body.end + 1 }
    } else {
        body
    }
}

/// The error that the control code `ch` gives in an unquoted field.
pub open spec fn control_kind(ch: char) -> ErrorKind {
    if ch == '\r' {
        ErrorKind::CarriageReturn
    } else if ch == '\n' {
        ErrorKind::LineFeed
    } else {
        ErrorKind::Control
    }
}

/// The text of an unquoted field from offset `i` on: the characters up to the delimiter, a
/// line break or the end of the input, none of them a quote, nor a control code unless the
/// options allow them.
pub open spec fn unquoted_field(s: Seq<char>, i: int, o: OptionsView) -> Scan<Seq<char>>
    decreases s.len() - i,
{
    if i < 0 || i >= s.len() || ends_field(s[i], o) {
        Scan { outcome: Ok(Seq::empty()), end: i }
    } else if s[i] == o.quote {
        Scan { outcome: Err(fault(i, ErrorKind::LateQuote)), end: i + 1 }
    } else if !o.allow_controls && spec_is_control(s[i]) {
        Scan { outcome: Err(fault(i, control_kind(s[i]))), end: i + 1 }
    } else {
        prepend(seq![s[i]], unquoted_field(s, i + 1, o))
    }
}

/// The token of kind `kind` at offset `i`, or the error, with the cursor left at `end`.
pub open spec fn token_or<T>(i: int, kind: KindView, scan: Scan<T>) -> Step {
    Step {
        item: Some(
            match scan.outcome {
                Ok(_) => Ok(TokenView { idx: i as usize, kind }),
                Err(e) => Err(e),
            },
        ),
        end: scan.end,
    }
}

/// The field at offset `i` with the text that `scan` found, or its error.
pub open spec fn field_or(i: int, scan: Scan<Seq<char>>) -> Step {
    Step {
        item: Some(
            match scan.outcome {
                Ok(text) => Ok(TokenView { idx: i as usize, kind: KindView::Field(text) }),
                Err(e) => Err(e),
            },
        ),
        end: scan.end,
    }
}

/// The token that starts at offset `i` of `s`.
pub open spec fn token_at(s: Seq<char>, i: int, o: OptionsView) -> Step {
    if i < 0 || i >= s.len() {
        Step { item: None, end: i }
    } else if s[i] == o.quote {
        field_or(i, quoted_field(s, i + 1, o))
    } else if s[i] == o.delimiter {
        Step {
            item: Some(Ok(TokenView { idx: i as usize, kind: KindView::Delimiter })),
            end: i + 1,
        }
    } else if s[i] == '\r' {
        token_or(i, KindView::LineBreak, carriage_return_at(s, i, o.line_break))
    } else if s[i] == '\n' {
        token_or(
            i,
            KindView::LineBreak,
            Scan { outcome: line_feed_at(i, o.line_break), end: i + 1 },
        )
    } else {
        field_or(i, unquoted_field(s, i, o))
    }
}

/// What an executable step returned, as a mathematical value.
pub open spec fn item_view(item: Option<Result<Token, Error>>) -> Option<Result<TokenView, Error>> {
    match item {
        Some(Ok(token)) => Some(Ok(token@)),
        Some(Err(e)) => Some(Err(e)),
        None => None,
    }
}

/// `String::push`, which vstd leaves without a specification: the string afterwards is the
/// string before with `ch` appended to it.
pub assume_specification[ String::push ](text: &mut String, ch: char)
    ensures
        final(text)@ == old(text)@.push(ch),
;

/// Tokenizes one or more characters: the token that starts at the cursor, with the cursor
/// moved behind what was read; nothing at the end of the input.
#[inline]
pub fn next(chars: &[char], pos: &mut usize, options: &Options) -> (r: Option<Result<Token, Error>>)
    ensures
        item_view(r) == token_at(chars@, *old(pos) as int, options@).item,
        *final(pos) == token_at(chars@, *old(pos) as int, options@).end,
        r matches Some(Ok(token)) ==> token.idx == *old(pos),
        r matches Some(Err(e)) ==> *old(pos) <= e.at < *final(pos),
{
    let len = chars.len();
    proof {
        lemma_token_offset(chars@, *pos as int, options@);
    }
    if *pos >= len {
        return None;
    }
    let idx: usize = *pos;
    let ch = chars[idx];
    *pos = idx + 1;
    Some(next_some(chars, pos, options, idx, ch))
}

fn next_some(
    chars: &[char],
    pos: &mut usize,
    options: &Options,
    idx: usize,
    ch: char,
) -> (r: Result<
    Token,
    Error,
>)
    requires
        idx < chars.len(),
        chars[idx as int] == ch,
        *old(pos) == idx + 1,
    ensures
        item_view(Some(r)) == token_at(chars@, idx as int, options@).item,
        *final(pos) == token_at(chars@, idx as int, options@).end,
{
    let kind = if ch == options.quote() {
        match next_escaped(chars, pos, options) {
            Ok(kind) => kind,
            Err(e) => return Err(e),
        }
    } else if ch == options.delimiter() {
        Kind::Delimiter
    } else if ch == '\r' {
        match next_carriage_return(chars, pos, options, idx) {
            Ok(_) => Kind::LineBreak,
            Err(e) => return Err(e),
        }
    } else if ch == '\n' {
        match next_line_feed(options, idx) {
            Ok(()) => Kind::LineBreak,
            Err(e) => return Err(e),
        }
    } else {
        *pos = idx;
        match next_non_escaped(chars, pos, options) {
            Ok(kind) => kind,
            Err(e) => return Err(e),
        }
    };

    Ok(Token::new(idx, kind))
}

fn next_escaped(chars: &[char], pos: &mut usize, options: &Options) -> (r: Result<Kind, Error>)
    requires
        *old(pos) <= chars.len(),
    ensures
        match quoted_field(chars@, *old(pos) as int, options@).outcome {
            Ok(text) => r is Ok && r->Ok_0@ == KindView::Field(text),
            Err(e) => r is Err && r->Err_0 == e,
        },
        *final(pos) == quoted_field(chars@, *old(pos) as int, options@).end,
        *final(pos) <= chars.len(),
{
    let ghost start = *pos as int;
    let mut buf = String::new();
    assert(quoted_body(chars@, start, options@) == prepend(buf@, quoted_body(chars@, start, options@))) by {
        lemma_prepend_nothing(quoted_body(chars@, start, options@));
    }
    while *pos < chars.len()
        invariant_except_break
            quoted_body(chars@, start, options@) == prepend(
                buf@,
                quoted_body(chars@, *pos as int, options@),
            ),
        invariant
            start == *old(pos),
            0 <= start <= *pos <= chars.len(),
        ensures
            quoted_body(chars@, start, options@) == (Scan::<Seq<char>> {
                outcome: Ok(buf@),
                end: *pos as int,
            }),
        decreases chars.len() - *pos,
    {
        let idx: usize = *pos;
        let ch = chars[idx];
        let ghost before = buf@;
        *pos = idx + 1;
        if ch == '\r' {
            match next_carriage_return(chars, pos, options, idx) {
                Ok(with_line_feed) => {
                    buf.push('\r');
                    if with_line_feed {
                        buf.push('\n');
                    }
                    proof {
                        assert(buf@ =~= before + chars@.subrange(idx as int, *pos as int));
                        lemma_prepend_twice(
                            before,
                            chars@.subrange(idx as int, *pos as int),
                            quoted_body(chars@, *pos as int, options@),
                        );
                    }
                },
                Err(e) => {
                    return Err(e);
                },
            }
        } else if ch == '\n' {
            match next_line_feed(options, idx) {
                Ok(()) => {
                    buf.push('\n');
                    proof {
                        assert(buf@ =~= before + seq!['\n']);
                        lemma_prepend_twice(
                            before,
                            seq!['\n'],
                            quoted_body(chars@, *pos as int, options@),
                        );
                    }
                },
                Err(e) => {
                    return Err(e);
                },
            }
        } else if is_control(ch) {
            return Err(Error::new(idx, ErrorKind::Control));
        } else if ch == options.quote() {
            if *pos < chars.len() && chars[*pos] == ch {
                *pos = *pos + 1;
                buf.push(ch);
                proof {
                    assert(buf@ =~= before + seq![ch]);
                    lemma_prepend_twice(before, seq![ch], quoted_body(chars@, *pos as int, options@));
                }
            } else {
                proof {
                    assert(before + Seq::<char>::empty() =~= before);
                }
                break ;
            }
        } else {
            buf.push(ch);
            proof {
                assert(buf@ =~= before + seq![ch]);
                lemma_prepend_twice(before, seq![ch], quoted_body(chars@, *pos as int, options@));
            }
        }
    }
    proof {
        assert(buf@ + Seq::<char>::empty() =~= buf@);
    }
    if *pos < chars.len() {
        let idx: usize = *pos;
        let ch = chars[idx];
        if ch != options.delimiter() && !options.line_break().begins_with(ch) {
            *pos = idx + 1;
            return Err(Error::new(idx, ErrorKind::EarlyQuote));
        }
    }
    Ok(Kind::Field(buf))
}

fn next_carriage_return(
    chars: &[char],
    pos: &mut usize,
    options: &Options,
    idx: usize,
) -> (r: Result<
    bool,
    Error,
>)
    requires
        idx < chars.len(),
        *old(pos) == idx + 1,
    ensures
        r == carriage_return_at(chars@, idx as int, options@.line_break).outcome,
        *final(pos) == carriage_return_at(chars@, idx as int, options@.line_break).end,
        *final(pos) <= chars.len(),
{
    let mode = options.line_break();
    if !mode.begins_with('\r') {
        return Err(Error::new(idx, ErrorKind::CarriageReturn));
    }
    if *pos < chars.len() && chars[*pos] == '\n' {
        let at: usize = *pos;
        *pos = at + 1;
        match mode {
            LineBreak::Cr => Err(Error::new(at, ErrorKind::LineFeed)),
            _ => Ok(true),
        }
    } else {
        match mode {
            LineBreak::Crlf => Err(Error::new(idx, ErrorKind::CarriageReturn)),
            _ => Ok(false),
        }
    }
}

fn next_line_feed(options: &Options, idx: usize) -> (r: Result<(), Error>)
    ensures
        r == line_feed_at(idx as int, options@.line_break),
{
    if options.line_break().begins_with('\n') {
        Ok(())
    } else {
        Err(Error::new(idx, ErrorKind::LineFeed))
    }
}

fn next_non_escaped(chars: &[char], pos: &mut usize, options: &Options) -> (r: Result<Kind, Error>)
    requires
        *old(pos) <= chars.len(),
    ensures
        match unquoted_field(chars@, *old(pos) as int, options@).outcome {
            Ok(text) => r is Ok && r->Ok_0@ == KindView::Field(text),
            Err(e) => r is Err && r->Err_0 == e,
        },
        *final(pos) == unquoted_field(chars@, *old(pos) as int, options@).end,
        *final(pos) <= chars.len(),
{
    let ghost start = *pos as int;
    let mut buf = String::new();
    assert(unquoted_field(chars@, start, options@) == prepend(
        buf@,
        unquoted_field(chars@, start, options@),
    )) by {
        lemma_prepend_nothing(unquoted_field(chars@, start, options@));
    }
    while *pos < chars.len()
        invariant_except_break
            unquoted_field(chars@, start, options@) == prepend(
                buf@,
                unquoted_field(chars@, *pos as int, options@),
            ),
        invariant
            start == *old(pos),
            0 <= start <= *pos <= chars.len(),
        ensures
            unquoted_field(chars@, start, options@) == (Scan::<Seq<char>> {
                outcome: Ok(buf@),
                end: *pos as int,
            }),
        decreases chars.len() - *pos,
    {
        let idx: usize = *pos;
        let ch = chars[idx];
        let ghost before = buf@;
        if ch == options.delimiter() || options.line_break().begins_with(ch) {
            proof {
                assert(before + Seq::<char>::empty() =~= before);
            }
            break ;
        }
        *pos = idx + 1;
        if ch == options.quote() {
            return Err(Error::new(idx, ErrorKind::LateQuote));
        }
        if !options.allow_controls() && is_control(ch) {
            let kind = if ch == '\r' {
                ErrorKind::CarriageReturn
            } else if ch == '\n' {
                ErrorKind::LineFeed
            } else {
                ErrorKind::Control
            };
            return Err(Error::new(idx, kind));
        }
        buf.push(ch);
        proof {
            assert(buf@ =~= before + seq![ch]);
            lemma_prepend_twice(before, seq![ch], unquoted_field(chars@, *pos as int, options@));
        }
    }
    proof {
        assert(buf@ + Seq::<char>::empty() =~= buf@);
    }
    Ok(Kind::Field(buf))
}

/// Putting nothing in front of a scan leaves it as it is.
proof fn lemma_prepend_nothing(scan: Scan<Seq<char>>)
    ensures
        prepend(Seq::empty(), scan) == scan,
{
    if let Ok(text) = scan.outcome {
        assert(Seq::<char>::empty() + text =~= text);
    }
}

/// Putting `b` and then `a` in front of a scan puts `a + b` in front of it.
proof fn lemma_prepend_twice(a: Seq<char>, b: Seq<char>, scan: Scan<Seq<char>>)
    ensures
        prepend(a, prepend(b, scan)) == prepend(a + b, scan),
{
    if let Ok(text) = scan.outcome {
        assert(a + (b + text) =~= (a + b) + text);
    }
}

/// A quoted section ends behind where it began, within the input.
pub proof fn lemma_quoted_body_end(s: Seq<char>, i: int, o: OptionsView)
    requires
        0 <= i <= s.len(),
    ensures
        i <= quoted_body(s, i, o).end <= s.len(),
    decreases s.len() - i,
{
    if i < s.len() {
        if s[i] == '\r' {
            let cr = carriage_return_at(s, i, o.line_break);
            if cr.outcome is Ok {
                lemma_quoted_body_end(s, cr.end, o);
            }
        } else if s[i] == '\n' {
            if line_feed_at(i, o.line_break) is Ok {
                lemma_quoted_body_end(s, i + 1, o);
            }
        } else if spec_is_control(s[i]) {
        } else if s[i] != o.quote {
            lemma_quoted_body_end(s, i + 1, o);
        } else if i + 1 < s.len() && s[i + 1] == o.quote {
            lemma_quoted_body_end(s, i + 2, o);
        }
    }
}

/// An unquoted field ends behind where it began, within the input.
pub proof fn lemma_unquoted_field_end(s: Seq<char>, i: int, o: OptionsView)
    requires
        0 <= i <= s.len(),
    ensures
        i <= unquoted_field(s, i, o).end <= s.len(),
    decreases s.len() - i,
{
    if i < s.len() && !ends_field(s[i], o) && s[i] != o.quote && !(!o.allow_controls
        && spec_is_control(s[i])) {
        lemma_unquoted_field_end(s, i + 1, o);
    }
}

/// A quoted section fails at a character that it has read.
proof fn lemma_quoted_body_fails_within(s: Seq<char>, i: int, o: OptionsView)
    requires
        0 <= i <= s.len() <= usize::MAX,
    ensures
        quoted_body(s, i, o).outcome matches Err(e) ==> i <= e.at < quoted_body(s, i, o).end,
    decreases s.len() - i,
{
    if i < s.len() {
        if s[i] == '\r' {
            let cr = carriage_return_at(s, i, o.line_break);
            if cr.outcome is Ok {
                lemma_quoted_body_fails_within(s, cr.end, o);
            }
        } else if s[i] == '\n' {
            if line_feed_at(i, o.line_break) is Ok {
                lemma_quoted_body_fails_within(s, i + 1, o);
            }
        } else if spec_is_control(s[i]) {
        } else if s[i] != o.quote {
            lemma_quoted_body_fails_within(s, i + 1, o);
        } else if i + 1 < s.len() && s[i + 1] == o.quote {
            lemma_quoted_body_fails_within(s, i + 2, o);
        }
    }
}

/// An unquoted field fails at a character that it has read.
proof fn lemma_unquoted_field_fails_within(s: Seq<char>, i: int, o: OptionsView)
    requires
        0 <= i <= s.len() <= usize::MAX,
    ensures
        unquoted_field(s, i, o).outcome matches Err(e) ==> i <= e.at < unquoted_field(s, i, o).end,
    decreases s.len() - i,
{
    if i < s.len() && !ends_field(s[i], o) && s[i] != o.quote && !(!o.allow_controls
        && spec_is_control(s[i])) {
        lemma_unquoted_field_fails_within(s, i + 1, o);
    }
}

/// A token carries the offset of its first character, and an error that of a character that
/// the step has read.
pub proof fn lemma_token_offset(s: Seq<char>, i: int, o: OptionsView)
    requires
        0 <= i,
        s.len() <= usize::MAX,
    ensures
        token_at(s, i, o).item matches Some(Ok(token)) ==> token.idx == i,
        token_at(s, i, o).item matches Some(Err(e)) ==> i <= e.at < token_at(s, i, o).end,
{
    if i < s.len() {
        if s[i] == o.quote {
            lemma_quoted_body_end(s, i + 1, o);
            lemma_quoted_body_fails_within(s, i + 1, o);
        } else if s[i] == o.delimiter {
        } else if s[i] == '\r' {
        } else if s[i] == '\n' {
        } else {
            lemma_unquoted_field_fails_within(s, i, o);
        }
    }
}

/// Every step inside the input reads at least one character and stays within the input; a
/// step outside it reads nothing.
pub proof fn lemma_token_advances(s: Seq<char>, i: int, o: OptionsView)
    ensures
        0 <= i < s.len() ==> i < token_at(s, i, o).end <= s.len() && token_at(s, i, o).item is Some,
        !(0 <= i < s.len()) ==> token_at(s, i, o).end == i && token_at(s, i, o).item is None,
{
    if 0 <= i < s.len() {
        if s[i] == o.quote {
            lemma_quoted_body_end(s, i + 1, o);
        } else if s[i] == o.delimiter {
        } else if s[i] == '\r' {
        } else if s[i] == '\n' {
        } else {
            assert(!ends_field(s[i], o));
            if s[i] != o.quote && !(!o.allow_controls && spec_is_control(s[i])) {
                lemma_unquoted_field_end(s, i + 1, o);
            }
        }
    }
}

} // verus!
