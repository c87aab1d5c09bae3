//! The token-level stage: tokens in, the fields of one record after another out.

pub mod options;
pub mod step;

use vstd::prelude::*;

use crate::outcome::{behind, lemma_behind_nothing, lemma_behind_twice};
use crate::token::{Token, TokenView};
use options::{Handle, OptionsView};
pub use options::Options;
use step::{advance, item_view, Advance, Position};

verus! {

/// Converting to a recorder.
pub trait Into<'a>: Sized {
    /// The tokens that the recorder will read.
    spec fn tokens(&self) -> Seq<TokenView>;

    /// A recorder in front of the first record of these tokens, with the options every
    /// recorder starts from.
    fn csv_record(self) -> (r: Recorder<'a, Options>)
        ensures
            r@ == (RecorderView {
                tokens: self.tokens(),
                cursor: 0,
                position: Position::Start,
                options: OptionsView::initial(),
            }),
    ;

    /// A recorder in front of the first record of these tokens, with options of the caller's.
    fn csv_record_custom<O: Handle>(self, options: O) -> (r: Recorder<'a, O>)
        ensures
            r@ == (RecorderView {
                tokens: self.tokens(),
                cursor: 0,
                position: Position::Start,
                options: options.options(),
            }),
    ;
}

/// A cursor over tokens that hands out the fields of one record, then, once it is reset, those
/// of the next.
#[derive(Debug)]
pub struct Recorder<'a, O> {
    tokens: &'a [Token],
    cursor: usize,
    pos: Position,
    options: O,
}

/// The mathematical value of a [`Recorder`]: what it reads, how many tokens it has taken,
/// where in the record it stands, and how it reads.
pub struct RecorderView {
    pub tokens: Seq<TokenView>,
    pub cursor: int,
    pub position: Position,
    pub options: OptionsView,
}

/// The rest of a record: its fields or the first error among them, and the cursor and the
/// position behind it.
pub struct Record {
    pub fields: Result<Seq<Seq<char>>, Error>,
    pub cursor: int,
    pub position: Position,
}

/// Why the tokens do not form a record, and the offset of the token that shows it.
#[derive(Clone, Debug, Eq, PartialEq, Structural)]
pub struct Error {
    pub at: usize,
    pub kind: ErrorKind,
}

/// What is wrong with the tokens of a record.
#[derive(Clone, Copy, Debug, Eq, PartialEq, Structural)]
pub enum ErrorKind {
    /// A delimiter with a line break or nothing behind it.
    TrailingDelimiter,
    /// Two fields with no delimiter between them.
    UndelimitedFields,
}

impl Error {
    #[inline]
    #[must_use]
    pub fn new(at: usize, kind: ErrorKind) -> (r: Self)
        ensures
            r == (Error { at, kind }),
    {
        Self { at, kind }
    }

    #[inline]
    #[must_use]
    pub fn kind(&self) -> (r: &ErrorKind)
        ensures
            *r == self.kind,
    {
        &self.kind
    }
}

/// How many steps a position is from the end of its record, at most and where nothing is
/// taken.
pub open spec fn rank(position: Position) -> nat {
    match position {
        Position::Start => 2,
        Position::Middle => 1,
        Position::End => 0,
    }
}

/// The record `record` with the fields `head` in front of its own.
pub open spec fn begun(head: Seq<Seq<char>>, record: Record) -> Record {
    Record {
        fields: match record.fields {
            Ok(fields) => Ok(head + fields),
            Err(e) => Err(e),
        },
        ..record
    }
}

/// The fields that a recorder at `cursor` and `position` hands out until its record ends or
/// fails, and where that leaves it.
pub open spec fn record_from(
    tokens: Seq<TokenView>,
    cursor: int,
    position: Position,
    o: OptionsView,
) -> Record
    decreases tokens.len() - cursor, rank(position),
{
    let step = advance(tokens, cursor, position, o);
    match step.item {
        None => Record { fields: Ok(Seq::empty()), cursor: step.cursor, position: step.position },
        Some(Err(e)) => Record { fields: Err(e), cursor: step.cursor, position: step.position },
        Some(Ok(text)) => begun(
            seq![text],
            record_from(tokens, step.cursor, step.position, o),
        ),
    }
}

/// The records of `tokens` from `cursor` on: one after another, each read from its start,
/// until no token is left; or the first error among them.
pub open spec fn records_from(tokens: Seq<TokenView>, cursor: int, o: OptionsView) -> Result<
    Seq<Seq<Seq<char>>>,
    Error,
>
    decreases tokens.len() - cursor,
    via records_from_decreases
{
    if cursor < 0 || cursor >= tokens.len() {
        Ok(Seq::empty())
    } else {
        let record = record_from(tokens, cursor, Position::Start, o);
        match record.fields {
            Err(e) => Err(e),
            Ok(fields) => behind(seq![fields], records_from(tokens, record.cursor, o)),
        }
    }
}

#[via_fn]
proof fn records_from_decreases(tokens: Seq<TokenView>, cursor: int, o: OptionsView) {
    if 0 <= cursor < tokens.len() {
        lemma_record_takes_a_token(tokens, cursor, o);
    }
}

impl<'a, O: Handle> View for Recorder<'a, O> {
    type V = RecorderView;

    closed spec fn view(&self) -> RecorderView {
        RecorderView {
            tokens: self.tokens.deep_view(),
            cursor: self.cursor as int,
            position: self.pos,
            options: self.options.options(),
        }
    }
}

impl<'a, O> Recorder<'a, O> {
    #[verifier::type_invariant]
    spec fn within_tokens(self) -> bool {
        self.cursor <= self.tokens@.len()
    }
}

impl<'a, O: Clone + Handle> Clone for Recorder<'a, O> {
    /// A recorder of its own over the same tokens, at the same cursor and position, with a
    /// clone of the options.
    fn clone(&self) -> (r: Self)
        ensures
            r@.tokens == self@.tokens,
            r@.cursor == self@.cursor,
            r@.position == self@.position,
    {
        proof {
            use_type_invariant(self);
        }
        Recorder {
            tokens: self.tokens,
            cursor: self.cursor,
            pos: self.pos,
            options: self.options.clone(),
        }
    }
}

impl<'a, O: Handle> Recorder<'a, O> {
    /// The next field of the record, with the cursor moved behind the tokens that were taken;
    /// nothing at the end of the record, and from then on.
    pub fn next(&mut self) -> (r: Option<Result<String, Error>>)
        ensures
            item_view(r) == advance(
                old(self)@.tokens,
                old(self)@.cursor,
                old(self)@.position,
                old(self)@.options,
            ).item,
            final(self)@ == (RecorderView {
                cursor: advance(
                    old(self)@.tokens,
                    old(self)@.cursor,
                    old(self)@.position,
                    old(self)@.options,
                ).cursor,
                position: advance(
                    old(self)@.tokens,
                    old(self)@.cursor,
                    old(self)@.position,
                    old(self)@.options,
                ).position,
                ..old(self)@
            }),
            0 <= old(self)@.cursor <= final(self)@.cursor <= final(self)@.tokens.len(),
    {
        proof {
            use_type_invariant(&*self);
            step::lemma_advance_within(self@.tokens, self@.cursor, self@.position, self@.options);
        }
        let mut cursor: usize = self.cursor;
        let mut pos = self.pos;
        let item = step::next(self.tokens, &mut cursor, &mut pos, self.options.get());
        self.cursor = cursor;
        self.pos = pos;
        item
    }

    /// The fields of the record from where the recorder stands, or the first error among
    /// them.
    pub fn collect(&mut self) -> (r: Result<Vec<String>, Error>)
        ensures
            match record_from(
                old(self)@.tokens,
                old(self)@.cursor,
                old(self)@.position,
                old(self)@.options,
            ).fields {
                Ok(fields) => r is Ok && r->Ok_0.deep_view() == fields,
                Err(e) => r is Err && r->Err_0 == e,
            },
            final(self)@ == (RecorderView {
                cursor: record_from(
                    old(self)@.tokens,
                    old(self)@.cursor,
                    old(self)@.position,
                    old(self)@.options,
                ).cursor,
                position: record_from(
                    old(self)@.tokens,
                    old(self)@.cursor,
                    old(self)@.position,
                    old(self)@.options,
                ).position,
                ..old(self)@
            }),
            0 <= old(self)@.cursor <= final(self)@.cursor <= final(self)@.tokens.len(),
    {
        proof {
            use_type_invariant(&*self);
        }
        let ghost tokens = self.tokens.deep_view();
        let ghost o = self.options.options();
        let ghost start = (self.cursor as int, self.pos);
        let mut fields: Vec<String> = Vec::new();
        let mut cursor: usize = self.cursor;
        let mut pos = self.pos;
        proof {
            assert(fields.deep_view() =~= Seq::empty());
            lemma_begun_with_nothing(fields.deep_view(), record_from(tokens, start.0, start.1, o));
        }
        loop
            invariant_except_break
                record_from(tokens, start.0, start.1, o) == begun(
                    fields.deep_view(),
                    record_from(tokens, cursor as int, pos, o),
                ),
            invariant
                *self == *old(self),
                tokens == self@.tokens,
                o == self@.options,
                start == (self@.cursor, self@.position),
                0 <= start.0 <= cursor <= tokens.len(),
            ensures
                record_from(tokens, start.0, start.1, o) == (Record {
                    fields: Ok(fields.deep_view()),
                    cursor: cursor as int,
                    position: pos,
                }),
            decreases tokens.len() - cursor, rank(pos),
        {
            let ghost before = fields.deep_view();
            proof {
                lemma_record_unfolds(tokens, cursor as int, pos, o);
                step::lemma_advance_within(tokens, cursor as int, pos, o);
            }
            match step::next(self.tokens, &mut cursor, &mut pos, self.options.get()) {
                None => {
                    proof {
                        assert(before + Seq::<Seq<char>>::empty() =~= before);
                    }
                    break ;
                },
                Some(Err(e)) => {
                    self.cursor = cursor;
                    self.pos = pos;
                    return Err(e);
                },
                Some(Ok(text)) => {
                    let ghost value = text@;
                    fields.push(text);
                    proof {
                        assert(fields.deep_view() =~= before + seq![value]);
                        lemma_begun_twice(
                            before,
                            seq![value],
                            record_from(tokens, cursor as int, pos, o),
                        );
                    }
                },
            }
        }
        self.cursor = cursor;
        self.pos = pos;
        Ok(fields)
    }

    /// The records from the cursor on: one after another, each read from its start, until no
    /// token is left; or the first error among them.
    pub fn collect_all(self) -> (r: Result<Vec<Vec<String>>, Error>)
        ensures
            match records_from(self@.tokens, self@.cursor, self@.options) {
                Ok(records) => r is Ok && r->Ok_0.deep_view() == records,
                Err(e) => r is Err && r->Err_0 == e,
            },
    {
        let mut recorder = self;
        let mut records: Vec<Vec<String>> = Vec::new();
        let ghost tokens = self@.tokens;
        let ghost o = self@.options;
        let ghost start = self@.cursor;
        proof {
            use_type_invariant(&recorder);
            assert(records.deep_view() =~= Seq::empty());
            lemma_behind_nothing(records.deep_view(), records_from(tokens, start, o));
        }
        loop
            invariant_except_break
                records_from(tokens, start, o) == behind(
                    records.deep_view(),
                    records_from(tokens, recorder@.cursor, o),
                ),
            invariant
                tokens == self@.tokens,
                o == self@.options,
                start == self@.cursor,
                recorder@.tokens == tokens,
                recorder@.options == o,
                0 <= recorder@.cursor <= tokens.len(),
            ensures
                records_from(tokens, start, o) == Ok::<Seq<Seq<Seq<char>>>, Error>(
                    records.deep_view(),
                ),
            decreases tokens.len() - recorder@.cursor,
        {
            let ghost before = records.deep_view();
            let ghost at = recorder@.cursor;
            if recorder.cursor >= recorder.tokens.len() {
                proof {
                    assert(before + Seq::<Seq<Seq<char>>>::empty() =~= before);
                }
                break ;
            }
            proof {
                lemma_record_takes_a_token(tokens, at, o);
            }
            recorder.reset();
            match recorder.collect() {
                Ok(fields) => {
                    let ghost row = fields.deep_view();
                    records.push(fields);
                    proof {
                        assert(records.deep_view() =~= before + seq![row]);
                        lemma_behind_twice(
                            before,
                            seq![row],
                            records_from(tokens, recorder@.cursor, o),
                        );
                    }
                },
                Err(e) => {
                    return Err(e);
                },
            }
        }
        Ok(records)
    }

    /// Puts the recorder in front of the next record: the cursor stays, the position is the
    /// start again.
    pub fn reset(&mut self)
        ensures
            final(self)@ == (RecorderView { position: Position::Start, ..old(self)@ }),
    {
        proof {
            use_type_invariant(&*self);
        }
        self.pos = Position::Start;
    }
}

impl<'a> Into<'a> for &'a [Token] {
    open spec fn tokens(&self) -> Seq<TokenView> {
        self.deep_view()
    }

    fn csv_record(self) -> (r: Recorder<'a, Options>) {
        self.csv_record_custom(Options::default())
    }

    fn csv_record_custom<O: Handle>(self, options: O) -> (r: Recorder<'a, O>) {
        Recorder { tokens: self, cursor: 0, pos: Position::default(), options }
    }
}

/// A record is its first step followed by the rest of the record, and that step brings the
/// recorder closer to the end of its record.
pub proof fn lemma_record_unfolds(
    tokens: Seq<TokenView>,
    cursor: int,
    position: Position,
    o: OptionsView,
)
    ensures
        ({
            let step = advance(tokens, cursor, position, o);
            &&& record_from(tokens, cursor, position, o) == match step.item {
                None => Record {
                    fields: Ok(Seq::empty()),
                    cursor: step.cursor,
                    position: step.position,
                },
                Some(Err(e)) => Record {
                    fields: Err(e),
                    cursor: step.cursor,
                    position: step.position,
                },
                Some(Ok(text)) => begun(
                    seq![text],
                    record_from(tokens, step.cursor, step.position, o),
                ),
            }
            &&& step.item matches Some(Ok(_)) ==> {
                ||| step.cursor > cursor
                ||| step.cursor == cursor && rank(step.position) < rank(position)
            }
        }),
{
}

/// A delimiter with a line break or nothing behind it ends its record: with an empty last
/// field where the options allow that, and with an error at the offset of the delimiter
/// where they do not.
pub proof fn lemma_trailing_delimiter(tokens: Seq<TokenView>, cursor: int, o: OptionsView)
    requires
        0 <= cursor < tokens.len(),
        tokens[cursor].kind is Delimiter,
        cursor + 1 == tokens.len() || tokens[cursor + 1].kind is LineBreak,
    ensures
        advance(tokens, cursor, Position::Middle, o).position is End,
        o.trailing_delimiter ==> advance(tokens, cursor, Position::Middle, o).item == Some(
            Ok::<Seq<char>, Error>(Seq::empty()),
        ) && record_from(tokens, cursor, Position::Middle, o).fields == Ok::<Seq<Seq<char>>, Error>(
            seq![Seq::empty()],
        ),
        !o.trailing_delimiter ==> advance(tokens, cursor, Position::Middle, o).item == Some(
            Err::<Seq<char>, Error>(
                Error { at: tokens[cursor].idx, kind: ErrorKind::TrailingDelimiter },
            ),
        ) && record_from(tokens, cursor, Position::Middle, o).fields == Err::<Seq<Seq<char>>, Error>(
            Error { at: tokens[cursor].idx, kind: ErrorKind::TrailingDelimiter },
        ),
{
    let step = advance(tokens, cursor, Position::Middle, o);
    lemma_record_unfolds(tokens, cursor, Position::Middle, o);
    lemma_record_unfolds(tokens, step.cursor, Position::End, o);
    if o.trailing_delimiter {
        assert(seq![Seq::<char>::empty()] + Seq::<Seq<char>>::empty() =~= seq![Seq::<char>::empty()]);
    }
}

/// Two fields in a row are an error at the offset of the second: the first is handed out,
/// the second is refused, and the record as a whole fails with that error.
pub proof fn lemma_undelimited_fields(tokens: Seq<TokenView>, cursor: int, o: OptionsView)
    requires
        0 <= cursor,
        cursor + 1 < tokens.len(),
        tokens[cursor].kind is Field,
        tokens[cursor + 1].kind is Field,
    ensures
        advance(tokens, cursor, Position::Start, o) == (Advance {
            item: Some(Ok(tokens[cursor].kind->Field_0)),
            cursor: cursor + 1,
            position: Position::Middle,
        }),
        advance(tokens, cursor + 1, Position::Middle, o).item == Some(
            Err::<Seq<char>, Error>(
                Error { at: tokens[cursor + 1].idx, kind: ErrorKind::UndelimitedFields },
            ),
        ),
        record_from(tokens, cursor, Position::Start, o).fields == Err::<Seq<Seq<char>>, Error>(
            Error { at: tokens[cursor + 1].idx, kind: ErrorKind::UndelimitedFields },
        ),
{
    lemma_record_unfolds(tokens, cursor, Position::Start, o);
    lemma_record_unfolds(tokens, cursor + 1, Position::Middle, o);
}

/// A record from within the tokens ends within them, and not in front of where it began.
pub proof fn lemma_record_within(
    tokens: Seq<TokenView>,
    cursor: int,
    position: Position,
    o: OptionsView,
)
    requires
        0 <= cursor <= tokens.len(),
    ensures
        cursor <= record_from(tokens, cursor, position, o).cursor <= tokens.len(),
    decreases tokens.len() - cursor, rank(position),
{
    let step = advance(tokens, cursor, position, o);
    lemma_record_unfolds(tokens, cursor, position, o);
    if step.item matches Some(Ok(_)) {
        lemma_record_within(tokens, step.cursor, step.position, o);
    }
}

/// Where an empty record has no field, a record with a field takes at least one token.
pub proof fn lemma_record_takes_tokens(tokens: Seq<TokenView>, cursor: int, o: OptionsView)
    requires
        !o.at_least_one,
    ensures
        ({
            let record = record_from(tokens, cursor, Position::Start, o);
            record.fields matches Ok(fields) && fields.len() > 0 ==> 0 <= cursor < record.cursor
                <= tokens.len()
        }),
{
    let step = advance(tokens, cursor, Position::Start, o);
    lemma_record_unfolds(tokens, cursor, Position::Start, o);
    if step.item matches Some(Ok(_)) {
        lemma_record_within(tokens, step.cursor, step.position, o);
        if step.cursor == cursor {
            let second = advance(tokens, cursor, Position::Middle, o);
            lemma_record_unfolds(tokens, cursor, Position::Middle, o);
            if second.item matches Some(Ok(_)) {
                lemma_record_within(tokens, second.cursor, second.position, o);
            }
        }
    }
}

/// A record that begins in front of a token takes at least that token.
pub proof fn lemma_record_takes_a_token(tokens: Seq<TokenView>, cursor: int, o: OptionsView)
    requires
        0 <= cursor < tokens.len(),
    ensures
        cursor < record_from(tokens, cursor, Position::Start, o).cursor <= tokens.len(),
{
    let step = advance(tokens, cursor, Position::Start, o);
    lemma_record_unfolds(tokens, cursor, Position::Start, o);
    if step.item matches Some(Ok(_)) {
        lemma_record_within(tokens, step.cursor, step.position, o);
        if step.cursor == cursor {
            let second = advance(tokens, cursor, Position::Middle, o);
            lemma_record_unfolds(tokens, cursor, Position::Middle, o);
            if second.item matches Some(Ok(_)) {
                lemma_record_within(tokens, second.cursor, second.position, o);
            }
        }
    }
}

/// A record with no fields put in front of its own is the record itself.
proof fn lemma_begun_with_nothing(head: Seq<Seq<char>>, record: Record)
    requires
        head.len() == 0,
    ensures
        begun(head, record) == record,
{
    if let Ok(fields) = record.fields {
        assert(head + fields =~= fields);
    }
}

/// Putting `b` and then `a` in front of the fields of a record puts `a + b` in front of them.
proof fn lemma_begun_twice(a: Seq<Seq<char>>, b: Seq<Seq<char>>, record: Record)
    ensures
        begun(a, begun(b, record)) == begun(a + b, record),
{
    if let Ok(fields) = record.fields {
        assert(a + (b + fields) =~= (a + b) + fields);
    }
}

} // verus!
