//! How fields are written down, and that reading what was written gives them back.

use vstd::prelude::*;

use crate::token::{KindView, TokenView};
use crate::tokenizer::options::{spec_is_control, LineBreak, OptionsView};
use crate::tokenizer::step::{
    carriage_return_at, ends_field, lemma_token_advances, line_feed_at, line_feed_follows,
    prepend, quoted_body, token_at, unquoted_field, Scan, Step,
};
use crate::recorder::step::Position;
use crate::recorder::{lemma_record_unfolds, record_from, records_from, Record};
use crate::tokenizer::tokens_from;
use crate::{parsed, rows_from, ParseError};

verus! {

/// One character as it stands between quotes: a quote twice, any other character as it is.
pub open spec fn escaped_char(ch: char, quote: char) -> Seq<char> {
    if ch == quote {
        seq![quote, quote]
    } else {
        seq![ch]
    }
}

/// `text` as it stands between quotes: every quote in it twice.
pub open spec fn escaped(text: Seq<char>, quote: char) -> Seq<char>
    decreases text.len(),
{
    if text.len() == 0 {
        Seq::empty()
    } else {
        escaped_char(text[0], quote) + escaped(text.drop_first(), quote)
    }
}

/// `text` written as a quoted field.
pub open spec fn quoted(text: Seq<char>, quote: char) -> Seq<char> {
    seq![quote] + escaped(text, quote) + seq![quote]
}

/// How often `ch` occurs in `text`.
pub open spec fn occurrences(text: Seq<char>, ch: char) -> nat
    decreases text.len(),
{
    if text.len() == 0 {
        0
    } else {
        occurrences(text.drop_first(), ch) + if text[0] == ch {
            1nat
        } else {
            0nat
        }
    }
}

/// Whether `text` can stand between quotes: every control code in it belongs to a line break
/// that the mode accepts.
pub open spec fn quotable(text: Seq<char>, mode: LineBreak) -> bool {
    forall|i: int|
        0 <= i < text.len() && spec_is_control(#[trigger] text[i]) ==> match mode {
            LineBreak::Crlf => {
                ||| text[i] == '\r' && i + 1 < text.len() && text[i + 1] == '\n'
                ||| text[i] == '\n' && 0 < i && text[i - 1] == '\r'
            },
            LineBreak::Cr => text[i] == '\r',
            LineBreak::Lf => text[i] == '\n',
            LineBreak::Any => text[i] == '\r' || text[i] == '\n',
        }
}

/// What is left of a quotable text behind its first `k` characters is quotable, unless that
/// cuts a carriage return from its line feed.
proof fn lemma_quotable_rest(text: Seq<char>, mode: LineBreak, k: int)
    requires
        quotable(text, mode),
        0 <= k <= text.len(),
        mode is Crlf && k < text.len() ==> text[k] != '\n',
    ensures
        quotable(text.skip(k), mode),
{
    let rest = text.skip(k);
    assert forall|i: int| 0 <= i < rest.len() && spec_is_control(#[trigger] rest[i]) implies match mode {
        LineBreak::Crlf => {
            ||| rest[i] == '\r' && i + 1 < rest.len() && rest[i + 1] == '\n'
            ||| rest[i] == '\n' && 0 < i && rest[i - 1] == '\r'
        },
        LineBreak::Cr => rest[i] == '\r',
        LineBreak::Lf => rest[i] == '\n',
        LineBreak::Any => rest[i] == '\r' || rest[i] == '\n',
    } by {
        assert(rest[i] == text[i + k]);
        assert(spec_is_control(text[i + k]));
    }
}

/// How many characters of a quotable text the scanner reads as one: a carriage return with
/// the line feed behind it, where the mode reads them as one line break, and one character
/// otherwise.
pub open spec fn first_unit(text: Seq<char>, mode: LineBreak) -> int {
    if text.len() > 1 && text[0] == '\r' && text[1] == '\n' && !(mode is Cr) {
        2
    } else {
        1
    }
}

/// What the first character of a quotable text can be, and that the text behind its first
/// unit is quotable too.
proof fn lemma_quotable_first(text: Seq<char>, mode: LineBreak)
    requires
        quotable(text, mode),
        text.len() > 0,
    ensures
        text[0] == '\r' ==> carriage_return_at(text, 0, mode).outcome is Ok && carriage_return_at(
            text,
            0,
            mode,
        ).end == first_unit(text, mode),
        text[0] == '\n' ==> line_feed_at(0, mode) is Ok,
        text[0] != '\r' && text[0] != '\n' ==> !spec_is_control(text[0]),
        quotable(text.skip(first_unit(text, mode)), mode),
{
    assert(spec_is_control('\r') && spec_is_control('\n'));
    assert(spec_is_control(text[0]) ==> text[0] == '\r' || text[0] == '\n');
    if text.len() > 1 {
        assert(text[1] == '\n' ==> spec_is_control(text[1]));
    }
    let k = first_unit(text, mode);
    if k < text.len() {
        assert(text[k] == '\n' ==> spec_is_control(text[k]));
    }
    lemma_quotable_rest(text, mode, k);
}

/// The escaped form of a text is that of its first unit followed by that of the rest; a unit
/// that is no quote stands for itself.
proof fn lemma_escaped_splits(text: Seq<char>, quote: char, k: int)
    requires
        1 <= k <= 2,
        k <= text.len(),
        k == 2 ==> text[0] != quote && text[1] != quote,
    ensures
        escaped(text, quote) == escaped_char(text[0], quote) + escaped(text.drop_first(), quote),
        text[0] != quote ==> escaped(text, quote) =~= text.take(k) + escaped(text.skip(k), quote),
{
    let rest = text.drop_first();
    if k == 2 {
        assert(escaped(rest, quote) == escaped_char(rest[0], quote) + escaped(rest.drop_first(), quote));
        assert(rest.drop_first() =~= text.skip(2));
        assert(text.take(2) =~= seq![text[0], text[1]]);
    } else {
        assert(rest =~= text.skip(1));
        assert(text.take(1) =~= seq![text[0]]);
    }
}

/// The first step of scanning the quoted section that holds `text`: it reads the first unit
/// of `text` and goes on behind it.
proof fn lemma_quoted_body_first(s: Seq<char>, p: int, text: Seq<char>, o: OptionsView)
    requires
        o.valid(),
        quotable(text, o.line_break),
        text.len() > 0,
        0 <= p,
        p + escaped(text, o.quote).len() < s.len(),
        s.subrange(p, p + escaped(text, o.quote).len() + 1) == escaped(text, o.quote) + seq![o.quote],
    ensures
        ({
            let k = first_unit(text, o.line_break);
            let n = escaped_char(text[0], o.quote).len() + k - 1;
            &&& quoted_body(s, p, o) == prepend(text.take(k), quoted_body(s, p + n, o))
            &&& escaped(text, o.quote).len() == n + escaped(text.skip(k), o.quote).len()
            &&& s.subrange(p + n, p + escaped(text, o.quote).len() + 1) == escaped(
                text.skip(k),
                o.quote,
            ) + seq![o.quote]
        }),
{
    let q = o.quote;
    let mode = o.line_break;
    let k = first_unit(text, mode);
    let c = text[0];
    let e = escaped(text, q);
    let window = s.subrange(p, p + e.len() + 1);
    lemma_quotable_first(text, mode);
    assert(spec_is_control('\r') && spec_is_control('\n'));
    if c == q {
        lemma_escaped_splits(text, q, 1);
        assert(text.drop_first() =~= text.skip(1));
        assert(s[p] == window[0] && s[p + 1] == window[1]);
        assert(window.subrange(2, e.len() as int + 1) =~= escaped(text.skip(1), q) + seq![q]);
        assert(s.subrange(p + 2, p + e.len() + 1) =~= window.subrange(2, e.len() as int + 1));
        assert(text.take(1) =~= seq![q]);
    } else {
        if k == 2 {
            assert(text[1] == '\n');
        }
        lemma_escaped_splits(text, q, k);
        let left = escaped(text.skip(k), q);
        assert(e.len() == k + left.len());
        assert(s[p] == window[0]);
        assert(s[p + 1] == window[1]);
        assert(window[0] == c);
        assert(window.subrange(k, e.len() as int + 1) =~= left + seq![q]);
        assert(s.subrange(p + k, p + e.len() + 1) =~= window.subrange(k, e.len() as int + 1));
        if c == '\r' {
            assert(window[1] == if text.len() > 1 {
                text[1]
            } else {
                q
            }) by {
                if text.len() > 1 {
                    if k == 1 {
                        lemma_escaped_splits(text.skip(1), q, 1);
                        assert(text.skip(1)[0] == text[1]);
                    }
                } else {
                    assert(text.skip(1).len() == 0);
                }
            }
            assert(line_feed_follows(s, p) == line_feed_follows(text, 0));
            assert(s.subrange(p, p + k) =~= text.take(k));
        } else {
            assert(k == 1);
            assert(text.take(1) =~= seq![c]);
        }
    }
}

/// The quoted section that holds `text`: scanning it from behind the opening quote gives
/// `text` back and ends behind the closing quote.
pub proof fn lemma_quoted_body_gives_text(s: Seq<char>, p: int, text: Seq<char>, o: OptionsView)
    requires
        o.valid(),
        quotable(text, o.line_break),
        0 <= p,
        p + escaped(text, o.quote).len() < s.len(),
        s.subrange(p, p + escaped(text, o.quote).len() + 1) == escaped(text, o.quote) + seq![o.quote],
        p + escaped(text, o.quote).len() + 1 < s.len() ==> s[p + escaped(text, o.quote).len() + 1]
            != o.quote,
    ensures
        quoted_body(s, p, o) == (Scan {
            outcome: Ok(text),
            end: p + escaped(text, o.quote).len() + 1,
        }),
    decreases text.len(),
{
    let q = o.quote;
    let e = escaped(text, q);
    if text.len() == 0 {
        assert(s[p] == s.subrange(p, p + 1)[0]);
        assert(!spec_is_control(q));
        assert(quoted_body(s, p, o).outcome->Ok_0 =~= text);
    } else {
        let k = first_unit(text, o.line_break);
        let n = escaped_char(text[0], q).len() + k - 1;
        lemma_quoted_body_first(s, p, text, o);
        lemma_quotable_first(text, o.line_break);
        lemma_quoted_body_gives_text(s, p + n, text.skip(k), o);
        assert(text.take(k) + text.skip(k) =~= text);
    }
}

/// Where `s` from `p` on is `a` followed by `b`: `a` stands at `p`, and `b` behind it.
proof fn lemma_skip_splits<T>(s: Seq<T>, p: int, a: Seq<T>, b: Seq<T>)
    requires
        0 <= p <= s.len(),
        s.skip(p) == a + b,
    ensures
        p + a.len() <= s.len(),
        s.subrange(p, p + a.len()) == a,
        s.skip(p + a.len()) == b,
        forall|j: int| 0 <= j < a.len() ==> s[p + j] == a[j],
        b.len() > 0 ==> p + a.len() < s.len() && s[p + a.len()] == b[0],
        b.len() == 0 ==> p + a.len() == s.len(),
{
    let rest = s.skip(p);
    assert(rest.len() == a.len() + b.len());
    assert(s.subrange(p, p + a.len()) =~= a) by {
        assert forall|j: int| 0 <= j < a.len() implies s.subrange(p, p + a.len())[j] == a[j] by {
            assert(rest[j] == a[j]);
        }
    }
    assert(s.skip(p + a.len()) =~= b) by {
        assert forall|j: int| 0 <= j < b.len() implies s.skip(p + a.len())[j] == b[j] by {
            assert(rest[a.len() + j] == b[j]);
        }
    }
    assert forall|j: int| 0 <= j < a.len() implies s[p + j] == a[j] by {
        assert(rest[j] == a[j]);
    }
    if b.len() > 0 {
        assert(rest[a.len() as int] == b[0]);
    }
}

/// A quoted field with the end of its field behind it is one token: the field with the text
/// that was written.
pub proof fn lemma_quoted_field_token(
    s: Seq<char>,
    p: int,
    text: Seq<char>,
    tail: Seq<char>,
    o: OptionsView,
)
    requires
        o.valid(),
        quotable(text, o.line_break),
        0 <= p <= s.len(),
        s.skip(p) == quoted(text, o.quote) + tail,
        tail.len() > 0 ==> ends_field(tail[0], o),
    ensures
        token_at(s, p, o) == (Step {
            item: Some(Ok(TokenView { idx: p as usize, kind: KindView::Field(text) })),
            end: p + quoted(text, o.quote).len(),
        }),
        p + quoted(text, o.quote).len() <= s.len(),
        s.skip(p + quoted(text, o.quote).len()) == tail,
{
    let q = o.quote;
    let e = escaped(text, q);
    let w = quoted(text, q);
    lemma_skip_splits(s, p, w, tail);
    assert(w.len() == e.len() + 2);
    assert(s[p] == w[0]);
    assert(s.subrange(p + 1, p + 1 + e.len() + 1) =~= e + seq![q]) by {
        assert forall|j: int| 0 <= j < e.len() + 1 implies s.subrange(p + 1, p + 1 + e.len() + 1)[j] == (e
            + seq![q])[j] by {
            assert(s[p + (j + 1)] == w[j + 1]);
        }
    }
    assert(spec_is_control('\r') && spec_is_control('\n'));
    if tail.len() > 0 {
        assert(s[p + w.len()] == tail[0]);
        assert(tail[0] != q);
    }
    lemma_quoted_body_gives_text(s, p + 1, text, o);
}

/// How often a character occurs in two texts in a row: as often as in both together.
proof fn lemma_occurrences_add(a: Seq<char>, b: Seq<char>, ch: char)
    ensures
        occurrences(a + b, ch) == occurrences(a, ch) + occurrences(b, ch),
    decreases a.len(),
{
    if a.len() == 0 {
        assert(a + b =~= b);
    } else {
        assert((a + b).drop_first() =~= a.drop_first() + b);
        lemma_occurrences_add(a.drop_first(), b, ch);
    }
}

/// The escaped form of a text holds each of its quotes twice.
proof fn lemma_escaped_doubles(text: Seq<char>, quote: char)
    ensures
        occurrences(escaped(text, quote), quote) == 2 * occurrences(text, quote),
    decreases text.len(),
{
    if text.len() > 0 {
        let head = escaped_char(text[0], quote);
        lemma_escaped_doubles(text.drop_first(), quote);
        lemma_occurrences_add(head, escaped(text.drop_first(), quote), quote);
        reveal_with_fuel(occurrences, 3);
        if text[0] == quote {
            assert(head.drop_first() =~= seq![quote]);
            assert(head.drop_first().drop_first() =~= Seq::<char>::empty());
        } else {
            assert(head.drop_first() =~= Seq::<char>::empty());
        }
    }
}

/// Quoting and reading back keeps the quotes of a field: a text with `n` quotes, written
/// between quotes with each of its own quotes twice, holds `2 * n` quotes between the outer
/// two, and is read as one field, whose text is the text that was written, with `n` quotes.
pub proof fn lemma_quotes_survive(text: Seq<char>, n: nat, o: OptionsView)
    requires
        o.valid(),
        quotable(text, o.line_break),
        occurrences(text, o.quote) == n,
    ensures
        occurrences(escaped(text, o.quote), o.quote) == 2 * n,
        tokens_from(quoted(text, o.quote), 0, o) == Ok::<Seq<TokenView>, crate::tokenizer::Error>(
            seq![TokenView { idx: 0, kind: KindView::Field(text) }],
        ),
        token_at(quoted(text, o.quote), 0, o).item matches Some(Ok(token)) && token.kind matches KindView::Field(
            read,
        ) && occurrences(read, o.quote) == n,
{
    let s = quoted(text, o.quote);
    lemma_escaped_doubles(text, o.quote);
    assert(s.skip(0) =~= s + Seq::<char>::empty());
    lemma_quoted_field_token(s, 0, text, Seq::empty(), o);
    lemma_token_advances(s, s.len() as int, o);
    assert(tokens_from(s, s.len() as int, o) == Ok::<Seq<TokenView>, crate::tokenizer::Error>(Seq::empty()));
    assert(seq![TokenView { idx: 0, kind: KindView::Field(text) }] + Seq::<TokenView>::empty()
        =~= seq![TokenView { idx: 0, kind: KindView::Field(text) }]);
}

/// Whether `ending` is a line break of the mode.
pub open spec fn line_ending(ending: Seq<char>, mode: LineBreak) -> bool {
    ||| ending == seq!['\r', '\n'] && (mode is Crlf || mode is Any)
    ||| ending == seq!['\r'] && (mode is Cr || mode is Any)
    ||| ending == seq!['\n'] && (mode is Lf || mode is Any)
}

/// Whether `text` can stand without quotes: it is not empty, it begins with neither a
/// carriage return nor a line feed, and no character of it is the delimiter, the quote, the
/// first character of a line break of the mode, or, unless the options allow them, a control
/// code.
pub open spec fn plain(text: Seq<char>, o: OptionsView) -> bool {
    &&& text.len() > 0
    &&& text[0] != '\r'
    &&& text[0] != '\n'
    &&& forall|i: int|
        0 <= i < text.len() ==> {
            &&& !ends_field(#[trigger] text[i], o)
            &&& text[i] != o.quote
            &&& o.allow_controls || !spec_is_control(text[i])
        }
}

/// Whether `form` is a way to write the field `text`: in quotes, where `text` can stand
/// between quotes, or as it is, where it can stand without.
pub open spec fn renders(form: Seq<char>, text: Seq<char>, o: OptionsView) -> bool {
    ||| form == quoted(text, o.quote) && quotable(text, o.line_break)
    ||| form == text && plain(text, o)
}

/// Whether `forms` are ways to write the fields `fields`, one for one.
pub open spec fn all_render(forms: Seq<Seq<char>>, fields: Seq<Seq<char>>, o: OptionsView) -> bool {
    &&& forms.len() == fields.len()
    &&& forall|j: int| 0 <= j < fields.len() ==> renders(#[trigger] forms[j], fields[j], o)
}

/// Whether `forms` are ways to write the records `records`, field for field, each record
/// with at least one field.
pub open spec fn writes(
    forms: Seq<Seq<Seq<char>>>,
    records: Seq<Seq<Seq<char>>>,
    o: OptionsView,
) -> bool {
    &&& forms.len() == records.len()
    &&& forall|i: int|
        0 <= i < records.len() ==> (#[trigger] records[i]).len() > 0 && all_render(
            forms[i],
            records[i],
            o,
        )
}

/// What stands behind the first field of a record: each further field, as it is written,
/// behind a delimiter, and the line break `ending` behind the last.
pub open spec fn written_rest(forms: Seq<Seq<char>>, ending: Seq<char>, o: OptionsView) -> Seq<char>
    decreases forms.len(),
{
    if forms.len() == 0 {
        ending
    } else {
        seq![o.delimiter] + forms[0] + written_rest(forms.drop_first(), ending, o)
    }
}

/// A record with at least one field, written down.
pub open spec fn written_record(
    forms: Seq<Seq<char>>,
    ending: Seq<char>,
    o: OptionsView,
) -> Seq<char> {
    forms[0] + written_rest(forms.drop_first(), ending, o)
}

/// Records written down, one behind the other.
pub open spec fn written(forms: Seq<Seq<Seq<char>>>, ending: Seq<char>, o: OptionsView) -> Seq<char>
    decreases forms.len(),
{
    if forms.len() == 0 {
        Seq::empty()
    } else {
        written_record(forms[0], ending, o) + written(forms.drop_first(), ending, o)
    }
}

/// The kinds of `tokens`, in order.
pub open spec fn kinds_of(tokens: Seq<TokenView>) -> Seq<KindView> {
    tokens.map_values(|token: TokenView| token.kind)
}

/// The kinds of the tokens that the fields behind the first field of a record are written as.
pub open spec fn rest_kinds(fields: Seq<Seq<char>>) -> Seq<KindView>
    decreases fields.len(),
{
    if fields.len() == 0 {
        seq![KindView::LineBreak]
    } else {
        seq![KindView::Delimiter, KindView::Field(fields[0])] + rest_kinds(fields.drop_first())
    }
}

/// The kinds of the tokens that a record with at least one field is written as.
pub open spec fn record_kinds(fields: Seq<Seq<char>>) -> Seq<KindView> {
    seq![KindView::Field(fields[0])] + rest_kinds(fields.drop_first())
}

/// The kinds of the tokens that records are written as.
pub open spec fn written_kinds(records: Seq<Seq<Seq<char>>>) -> Seq<KindView>
    decreases records.len(),
{
    if records.len() == 0 {
        Seq::empty()
    } else {
        record_kinds(records[0]) + written_kinds(records.drop_first())
    }
}

/// Whether the tokens of `s` from `p` on are of the kinds `kinds`.
pub open spec fn tokens_are(s: Seq<char>, p: int, o: OptionsView, kinds: Seq<KindView>) -> bool {
    tokens_from(s, p, o) matches Ok(tokens) && kinds_of(tokens) == kinds
}

/// Where a token stands at `p` and the tokens behind it are of the kinds `kinds`, the tokens
/// from `p` on are of its kind followed by `kinds`.
proof fn lemma_tokens_behind(
    s: Seq<char>,
    p: int,
    o: OptionsView,
    token: TokenView,
    end: int,
    kinds: Seq<KindView>,
)
    requires
        token_at(s, p, o) == (Step { item: Some(Ok(token)), end }),
        tokens_are(s, end, o, kinds),
    ensures
        tokens_are(s, p, o, seq![token.kind] + kinds),
{
    let rest = tokens_from(s, end, o)->Ok_0;
    assert(kinds_of(seq![token] + rest) =~= seq![token.kind] + kinds);
}

/// Behind the last token there are no tokens.
proof fn lemma_no_tokens_left(s: Seq<char>, o: OptionsView)
    ensures
        tokens_are(s, s.len() as int, o, Seq::empty()),
{
    lemma_token_advances(s, s.len() as int, o);
    assert(kinds_of(Seq::<TokenView>::empty()) =~= Seq::<KindView>::empty());
}

/// What is written behind the first field of a record begins with a character in front of
/// which a field may end.
proof fn lemma_written_rest_begins(forms: Seq<Seq<char>>, ending: Seq<char>, o: OptionsView)
    requires
        line_ending(ending, o.line_break),
    ensures
        written_rest(forms, ending, o).len() > 0,
        ends_field(written_rest(forms, ending, o)[0], o),
{
}

/// A line break of the mode, with no line feed behind it, is one token.
proof fn lemma_line_break_token(
    s: Seq<char>,
    p: int,
    ending: Seq<char>,
    tail: Seq<char>,
    o: OptionsView,
)
    requires
        o.valid(),
        line_ending(ending, o.line_break),
        0 <= p <= s.len(),
        s.skip(p) == ending + tail,
        tail.len() > 0 ==> tail[0] != '\n',
    ensures
        token_at(s, p, o) == (Step {
            item: Some(Ok(TokenView { idx: p as usize, kind: KindView::LineBreak })),
            end: p + ending.len(),
        }),
        p + ending.len() <= s.len(),
        s.skip(p + ending.len()) == tail,
{
    lemma_skip_splits(s, p, ending, tail);
    assert(spec_is_control('\r') && spec_is_control('\n'));
    assert(s[p + 0] == ending[0]);
    if ending.len() == 2 {
        assert(s[p + 1] == ending[1]);
    }
}

/// Scanning an unquoted field over characters that can stand without quotes gives these
/// characters and ends behind them.
proof fn lemma_unquoted_field_gives_text(s: Seq<char>, p: int, text: Seq<char>, o: OptionsView)
    requires
        0 <= p,
        p + text.len() <= s.len(),
        s.subrange(p, p + text.len()) == text,
        forall|i: int|
            0 <= i < text.len() ==> {
                &&& !ends_field(#[trigger] text[i], o)
                &&& text[i] != o.quote
                &&& o.allow_controls || !spec_is_control(text[i])
            },
        p + text.len() < s.len() ==> ends_field(s[p + text.len()], o),
    ensures
        unquoted_field(s, p, o) == (Scan { outcome: Ok(text), end: p + text.len() }),
    decreases text.len(),
{
    if text.len() == 0 {
        assert(unquoted_field(s, p, o).outcome->Ok_0 =~= text);
    } else {
        let rest = text.drop_first();
        assert(s[p] == s.subrange(p, p + text.len())[0]);
        assert(s.subrange(p + 1, p + 1 + rest.len()) =~= rest) by {
            assert forall|j: int| 0 <= j < rest.len() implies s.subrange(p + 1, p + 1 + rest.len())[j]
                == rest[j] by {
                assert(s.subrange(p, p + text.len())[j + 1] == text[j + 1]);
            }
        }
        assert forall|i: int| 0 <= i < rest.len() implies {
            &&& !ends_field(#[trigger] rest[i], o)
            &&& rest[i] != o.quote
            &&& o.allow_controls || !spec_is_control(rest[i])
        } by {
            assert(rest[i] == text[i + 1]);
        }
        lemma_unquoted_field_gives_text(s, p + 1, rest, o);
        assert(seq![text[0]] + rest =~= text);
    }
}

/// A field as it is written, with the end of its field behind it, is one token: the field
/// with the text that was written.
pub proof fn lemma_field_token(
    s: Seq<char>,
    p: int,
    form: Seq<char>,
    text: Seq<char>,
    tail: Seq<char>,
    o: OptionsView,
)
    requires
        o.valid(),
        renders(form, text, o),
        0 <= p <= s.len(),
        s.skip(p) == form + tail,
        tail.len() > 0 ==> ends_field(tail[0], o),
    ensures
        token_at(s, p, o) == (Step {
            item: Some(Ok(TokenView { idx: p as usize, kind: KindView::Field(text) })),
            end: p + form.len(),
        }),
        p + form.len() <= s.len(),
        s.skip(p + form.len()) == tail,
{
    if form == quoted(text, o.quote) && quotable(text, o.line_break) {
        lemma_quoted_field_token(s, p, text, tail, o);
    } else {
        lemma_skip_splits(s, p, text, tail);
        assert(s[p + 0] == text[0]);
        assert(!ends_field(text[0], o));
        lemma_unquoted_field_gives_text(s, p, text, o);
    }
}

/// What is left of ways to write fields behind the first is ways to write what is left of
/// the fields.
proof fn lemma_all_render_rest(forms: Seq<Seq<char>>, fields: Seq<Seq<char>>, o: OptionsView)
    requires
        all_render(forms, fields, o),
        fields.len() > 0,
    ensures
        all_render(forms.drop_first(), fields.drop_first(), o),
        renders(forms[0], fields[0], o),
{
    let forms_left = forms.drop_first();
    let fields_left = fields.drop_first();
    assert forall|j: int| 0 <= j < fields_left.len() implies renders(
        #[trigger] forms_left[j],
        fields_left[j],
        o,
    ) by {
        assert(forms_left[j] == forms[j + 1]);
        assert(fields_left[j] == fields[j + 1]);
    }
}

/// What is left of ways to write records behind the first is ways to write what is left of
/// the records.
proof fn lemma_writes_rest(forms: Seq<Seq<Seq<char>>>, records: Seq<Seq<Seq<char>>>, o: OptionsView)
    requires
        writes(forms, records, o),
        records.len() > 0,
    ensures
        writes(forms.drop_first(), records.drop_first(), o),
        records[0].len() > 0,
        all_render(forms[0], records[0], o),
{
    let forms_left = forms.drop_first();
    let left = records.drop_first();
    assert forall|i: int| 0 <= i < left.len() implies (#[trigger] left[i]).len() > 0 && all_render(
        forms_left[i],
        left[i],
        o,
    ) by {
        assert(left[i] == records[i + 1]);
        assert(forms_left[i] == forms[i + 1]);
    }
}

/// The tokens of a field as it is written, of what is written behind it in its record, and
/// of the records written behind that record.
proof fn lemma_field_and_rest_tokens(
    s: Seq<char>,
    p: int,
    forms: Seq<Seq<char>>,
    fields: Seq<Seq<char>>,
    forms_after: Seq<Seq<Seq<char>>>,
    after: Seq<Seq<Seq<char>>>,
    ending: Seq<char>,
    o: OptionsView,
)
    requires
        o.valid(),
        line_ending(ending, o.line_break),
        fields.len() > 0,
        all_render(forms, fields, o),
        writes(forms_after, after, o),
        0 <= p <= s.len(),
        s.skip(p) == forms[0] + (written_rest(forms.drop_first(), ending, o) + written(
            forms_after,
            ending,
            o,
        )),
    ensures
        tokens_are(s, p, o, record_kinds(fields) + written_kinds(after)),
    decreases after.len(), fields.len(), 0nat,
{
    let others = fields.drop_first();
    let behind = written_rest(forms.drop_first(), ending, o) + written(forms_after, ending, o);
    lemma_all_render_rest(forms, fields, o);
    lemma_written_rest_begins(forms.drop_first(), ending, o);
    assert(behind[0] == written_rest(forms.drop_first(), ending, o)[0]);
    lemma_field_token(s, p, forms[0], fields[0], behind, o);
    let after_field = p + forms[0].len();
    lemma_rest_tokens(s, after_field, forms.drop_first(), others, forms_after, after, ending, o);
    let field = TokenView { idx: p as usize, kind: KindView::Field(fields[0]) };
    lemma_tokens_behind(s, p, o, field, after_field, rest_kinds(others) + written_kinds(after));
    assert(seq![KindView::Field(fields[0])] + (rest_kinds(others) + written_kinds(after))
        =~= record_kinds(fields) + written_kinds(after));
}

/// The tokens of what is written behind the first field of a record, and of the records
/// written behind that record.
proof fn lemma_rest_tokens(
    s: Seq<char>,
    p: int,
    forms: Seq<Seq<char>>,
    fields: Seq<Seq<char>>,
    forms_after: Seq<Seq<Seq<char>>>,
    after: Seq<Seq<Seq<char>>>,
    ending: Seq<char>,
    o: OptionsView,
)
    requires
        o.valid(),
        line_ending(ending, o.line_break),
        all_render(forms, fields, o),
        writes(forms_after, after, o),
        0 <= p <= s.len(),
        s.skip(p) == written_rest(forms, ending, o) + written(forms_after, ending, o),
    ensures
        tokens_are(s, p, o, rest_kinds(fields) + written_kinds(after)),
    decreases after.len(), fields.len(), 1nat,
{
    if fields.len() == 0 {
        let tail = written(forms_after, ending, o);
        let line_break = TokenView { idx: p as usize, kind: KindView::LineBreak };
        if after.len() == 0 {
            lemma_line_break_token(s, p, ending, tail, o);
            lemma_no_tokens_left(s, o);
            lemma_skip_splits(s, p, ending, tail);
            lemma_tokens_behind(s, p, o, line_break, p + ending.len(), Seq::empty());
            assert(seq![KindView::LineBreak] + Seq::<KindView>::empty() =~= rest_kinds(fields)
                + written_kinds(after));
        } else {
            lemma_writes_rest(forms_after, after, o);
            lemma_all_render_rest(forms_after[0], after[0], o);
            let first = forms_after[0][0];
            let behind = written_rest(forms_after[0].drop_first(), ending, o) + written(
                forms_after.drop_first(),
                ending,
                o,
            );
            assert(tail =~= first + behind);
            assert(first.len() > 0);
            assert(tail[0] == first[0]);
            assert(spec_is_control('\n'));
            assert(first[0] != '\n');
            lemma_line_break_token(s, p, ending, tail, o);
            let after_break = p + ending.len();
            lemma_field_and_rest_tokens(
                s,
                after_break,
                forms_after[0],
                after[0],
                forms_after.drop_first(),
                after.drop_first(),
                ending,
                o,
            );
            lemma_tokens_behind(
                s,
                p,
                o,
                line_break,
                after_break,
                record_kinds(after[0]) + written_kinds(after.drop_first()),
            );
            assert(seq![KindView::LineBreak] + (record_kinds(after[0]) + written_kinds(
                after.drop_first(),
            )) =~= rest_kinds(fields) + written_kinds(after));
        }
    } else {
        let behind = forms[0] + (written_rest(forms.drop_first(), ending, o) + written(
            forms_after,
            ending,
            o,
        ));
        assert(s.skip(p) =~= seq![o.delimiter] + behind);
        lemma_skip_splits(s, p, seq![o.delimiter], behind);
        assert(s[p + 0] == seq![o.delimiter][0]);
        let delimiter = TokenView { idx: p as usize, kind: KindView::Delimiter };
        assert(token_at(s, p, o) == (Step { item: Some(Ok(delimiter)), end: p + 1 }));
        lemma_field_and_rest_tokens(s, p + 1, forms, fields, forms_after, after, ending, o);
        lemma_tokens_behind(
            s,
            p,
            o,
            delimiter,
            p + 1,
            record_kinds(fields) + written_kinds(after),
        );
        assert(seq![KindView::Delimiter] + (record_kinds(fields) + written_kinds(after))
            =~= rest_kinds(fields) + written_kinds(after));
    }
}

/// The tokens of records written down are of the kinds that the records are written as.
pub proof fn lemma_written_tokens(
    forms: Seq<Seq<Seq<char>>>,
    records: Seq<Seq<Seq<char>>>,
    ending: Seq<char>,
    o: OptionsView,
)
    requires
        o.valid(),
        line_ending(ending, o.line_break),
        writes(forms, records, o),
    ensures
        tokens_are(written(forms, ending, o), 0, o, written_kinds(records)),
{
    let s = written(forms, ending, o);
    if records.len() == 0 {
        lemma_no_tokens_left(s, o);
    } else {
        lemma_writes_rest(forms, records, o);
        assert(s.skip(0) =~= forms[0][0] + (written_rest(forms[0].drop_first(), ending, o) + written(
            forms.drop_first(),
            ending,
            o,
        )));
        lemma_field_and_rest_tokens(
            s,
            0,
            forms[0],
            records[0],
            forms.drop_first(),
            records.drop_first(),
            ending,
            o,
        );
    }
}

/// The record that the tokens behind its first field form: the fields that those tokens were
/// written for.
proof fn lemma_rest_record(
    tokens: Seq<TokenView>,
    c: int,
    fields: Seq<Seq<char>>,
    tail: Seq<KindView>,
    o: crate::recorder::options::OptionsView,
)
    requires
        0 <= c <= tokens.len(),
        kinds_of(tokens).skip(c) == rest_kinds(fields) + tail,
    ensures
        record_from(tokens, c, Position::Middle, o) == (Record {
            fields: Ok(fields),
            cursor: c + 2 * fields.len() + 1,
            position: Position::End,
        }),
        c + 2 * fields.len() + 1 <= tokens.len(),
        kinds_of(tokens).skip(c + 2 * fields.len() + 1) == tail,
    decreases fields.len(),
{
    let kinds = kinds_of(tokens);
    lemma_record_unfolds(tokens, c, Position::Middle, o);
    if fields.len() == 0 {
        lemma_skip_splits(kinds, c, seq![KindView::LineBreak], tail);
        assert(kinds[c + 0] == seq![KindView::LineBreak][0]);
        assert(kinds[c] == tokens[c].kind);
        assert(fields =~= Seq::<Seq<char>>::empty());
    } else {
        let first = fields[0];
        let others = fields.drop_first();
        let head = seq![KindView::Delimiter, KindView::Field(first)];
        assert(kinds.skip(c) =~= head + (rest_kinds(others) + tail));
        lemma_skip_splits(kinds, c, head, rest_kinds(others) + tail);
        assert(kinds[c + 0] == head[0]);
        assert(kinds[c + 1] == head[1]);
        assert(kinds[c] == tokens[c].kind);
        assert(kinds[c + 1] == tokens[c + 1].kind);
        lemma_rest_record(tokens, c + 2, others, tail, o);
        assert(seq![first] + others =~= fields);
    }
}

/// The record that the tokens of a written record form: that record.
proof fn lemma_record_read(
    tokens: Seq<TokenView>,
    c: int,
    fields: Seq<Seq<char>>,
    tail: Seq<KindView>,
    o: crate::recorder::options::OptionsView,
)
    requires
        0 <= c <= tokens.len(),
        fields.len() > 0,
        kinds_of(tokens).skip(c) == record_kinds(fields) + tail,
    ensures
        record_from(tokens, c, Position::Start, o) == (Record {
            fields: Ok(fields),
            cursor: c + 2 * fields.len(),
            position: Position::End,
        }),
        c + 2 * fields.len() <= tokens.len(),
        kinds_of(tokens).skip(c + 2 * fields.len()) == tail,
{
    let kinds = kinds_of(tokens);
    let first = fields[0];
    let others = fields.drop_first();
    let head = seq![KindView::Field(first)];
    lemma_record_unfolds(tokens, c, Position::Start, o);
    assert(kinds.skip(c) =~= head + (rest_kinds(others) + tail));
    lemma_skip_splits(kinds, c, head, rest_kinds(others) + tail);
    assert(kinds[c + 0] == head[0]);
    assert(kinds[c] == tokens[c].kind);
    lemma_rest_record(tokens, c + 1, others, tail, o);
    assert(seq![first] + others =~= fields);
}

/// The records that the tokens of written records form: those records.
proof fn lemma_records_read(
    tokens: Seq<TokenView>,
    c: int,
    records: Seq<Seq<Seq<char>>>,
    o: crate::recorder::options::OptionsView,
)
    requires
        0 <= c <= tokens.len(),
        forall|i: int| 0 <= i < records.len() ==> (#[trigger] records[i]).len() > 0,
        kinds_of(tokens).skip(c) == written_kinds(records),
    ensures
        records_from(tokens, c, o) == Ok::<Seq<Seq<Seq<char>>>, crate::recorder::Error>(records),
    decreases records.len(),
{
    if records.len() == 0 {
        assert(kinds_of(tokens).skip(c).len() == 0);
        assert(records =~= Seq::<Seq<Seq<char>>>::empty());
    } else {
        let left = records.drop_first();
        lemma_record_read(tokens, c, records[0], written_kinds(left), o);
        assert forall|i: int| 0 <= i < left.len() implies (#[trigger] left[i]).len() > 0 by {
            assert(left[i] == records[i + 1]);
        }
        lemma_records_read(tokens, c + 2 * records[0].len(), left, o);
        assert(seq![records[0]] + left =~= records);
    }
}

/// The rows that the tokens of written records of one width form: those records.
proof fn lemma_rows_read(
    tokens: Seq<TokenView>,
    c: int,
    records: Seq<Seq<Seq<char>>>,
    width: usize,
    seen: Option<usize>,
    count: nat,
)
    requires
        0 <= c <= tokens.len(),
        forall|i: int| 0 <= i < records.len() ==> (#[trigger] records[i]).len() == width,
        width > 0,
        seen is Some ==> seen == Some(width),
        kinds_of(tokens).skip(c) == written_kinds(records),
    ensures
        rows_from(tokens, c, seen, count) == Ok::<Seq<Seq<Seq<char>>>, ParseError>(records),
    decreases records.len(),
{
    let o = crate::recorder::options::OptionsView::initial();
    if records.len() == 0 {
        assert(kinds_of(tokens).skip(c).len() == 0);
        lemma_record_unfolds(tokens, c, Position::Start, o);
        assert(records =~= Seq::<Seq<Seq<char>>>::empty());
    } else {
        let left = records.drop_first();
        lemma_record_read(tokens, c, records[0], written_kinds(left), o);
        assert forall|i: int| 0 <= i < left.len() implies (#[trigger] left[i]).len() == width by {
            assert(left[i] == records[i + 1]);
        }
        lemma_rows_read(tokens, c + 2 * records[0].len(), left, width, Some(width), count + 1);
        assert(seq![records[0]] + left =~= records);
    }
}

/// Writing records down and reading them gives the records back, whatever the delimiter and
/// the quote, in every line-break mode, and whatever the recorder makes of empty records and
/// of delimiters at the end of one: the text that holds each field, in quotes or, where it
/// can stand so, without, with a delimiter between the fields of a record and a line break
/// of the mode behind each record, forms tokens, and these tokens form the records that were
/// written, field by field.
pub proof fn lemma_written_is_read_back(
    forms: Seq<Seq<Seq<char>>>,
    records: Seq<Seq<Seq<char>>>,
    ending: Seq<char>,
    o: OptionsView,
    recorder: crate::recorder::options::OptionsView,
)
    requires
        o.valid(),
        line_ending(ending, o.line_break),
        writes(forms, records, o),
    ensures
        tokens_from(written(forms, ending, o), 0, o) matches Ok(tokens) && kinds_of(tokens)
            == written_kinds(records) && records_from(tokens, 0, recorder) == Ok::<
            Seq<Seq<Seq<char>>>,
            crate::recorder::Error,
        >(records),
{
    lemma_written_tokens(forms, records, ending, o);
    let tokens = tokens_from(written(forms, ending, o), 0, o)->Ok_0;
    assert(kinds_of(tokens).skip(0) =~= kinds_of(tokens));
    lemma_records_read(tokens, 0, records, recorder);
}

/// Writing a table down and parsing it gives the table back: records that all have the same
/// number of fields, at least one, written with `,`, `"` and a carriage return and a line
/// feed behind each record, are what the text parses to.
pub proof fn lemma_written_is_parsed(
    forms: Seq<Seq<Seq<char>>>,
    records: Seq<Seq<Seq<char>>>,
    width: usize,
)
    requires
        writes(forms, records, OptionsView::initial()),
        forall|i: int| 0 <= i < records.len() ==> (#[trigger] records[i]).len() == width,
    ensures
        parsed(written(forms, seq!['\r', '\n'], OptionsView::initial())) == Ok::<
            Seq<Seq<Seq<char>>>,
            ParseError,
        >(records),
{
    let o = OptionsView::initial();
    let ending = seq!['\r', '\n'];
    assert(o.valid());
    lemma_written_tokens(forms, records, ending, o);
    let tokens = tokens_from(written(forms, ending, o), 0, o)->Ok_0;
    assert(kinds_of(tokens).skip(0) =~= kinds_of(tokens));
    if records.len() == 0 {
        assert(kinds_of(tokens).len() == 0);
        lemma_record_unfolds(tokens, 0, Position::Start, crate::recorder::options::OptionsView::initial());
        assert(records =~= Seq::<Seq<Seq<char>>>::empty());
    } else {
        assert(records[0].len() == width);
        lemma_rows_read(tokens, 0, records, width, None, 0);
    }
}

} // verus!
