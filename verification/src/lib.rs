//! A streaming reader for delimiter-separated text: characters become tokens, tokens become
//! records of fields.

pub mod document;
pub mod outcome;
pub mod recorder;
pub mod token;
pub mod tokenizer;

use vstd::prelude::*;

use outcome::{behind, lemma_behind_nothing, lemma_behind_twice};
use recorder::step::Position;
use recorder::{record_from, Into};
use token::TokenView;
use tokenizer::{tokens_from, Into as IntoTokenizer};
use vstd::std_specs::convert::FromSpecImpl;

verus! {

/// Why a text is no table.
#[derive(Clone, Debug, Eq, PartialEq)]
pub enum ParseError {
    /// The characters form no tokens.
    Tokenizer(tokenizer::Error),
    /// The tokens form no record.
    Recorder(recorder::Error),
    /// The record at index `at` has `actual` fields where the first record has `expected`.
    JaggedRecords { expected: usize, at: usize, actual: usize },
}

/// The characters of `s`, in order.
pub fn characters(s: &str) -> (r: Vec<char>)
    ensures
        r@ == s@,
{
    let mut chars: Vec<char> = Vec::new();
    for ch in it: s.chars()
        invariant
            chars@ == it.seq().take(it.index()),
            it.seq() == s@,
    {
        chars.push(ch);
    }
    chars
}

impl From<tokenizer::Error> for ParseError {
    fn from(e: tokenizer::Error) -> (r: Self) {
        ParseError::Tokenizer(e)
    }
}

impl FromSpecImpl<tokenizer::Error> for ParseError {
    open spec fn obeys_from_spec() -> bool {
        true
    }

    open spec fn from_spec(e: tokenizer::Error) -> Self {
        ParseError::Tokenizer(e)
    }
}

impl From<recorder::Error> for ParseError {
    fn from(e: recorder::Error) -> (r: Self) {
        ParseError::Recorder(e)
    }
}

impl FromSpecImpl<recorder::Error> for ParseError {
    open spec fn obeys_from_spec() -> bool {
        true
    }

    open spec fn from_spec(e: recorder::Error) -> Self {
        ParseError::Recorder(e)
    }
}

/// The records of `tokens` from `cursor` on, up to the first record without a field, where
/// `count` records came before and the first of them, if there was one, had `width` fields.
///
/// A record that the recorder refuses is an error, and so is one whose number of fields is
/// not `width`.
pub open spec fn rows_from(
    tokens: Seq<TokenView>,
    cursor: int,
    width: Option<usize>,
    count: nat,
) -> Result<Seq<Seq<Seq<char>>>, ParseError>
    decreases tokens.len() - cursor,
    via rows_from_decreases
{
    let record = record_from(
        tokens,
        cursor,
        Position::Start,
        recorder::options::OptionsView::initial(),
    );
    match record.fields {
        Err(e) => Err(ParseError::Recorder(e)),
        Ok(fields) => if fields.len() == 0 {
            Ok(Seq::empty())
        } else if width is Some && width->0 != fields.len() {
            Err(
                ParseError::JaggedRecords {
                    expected: width->0,
                    at: count as usize,
                    actual: fields.len() as usize,
                },
            )
        } else {
            behind(
                seq![fields],
                rows_from(tokens, record.cursor, Some(fields.len() as usize), count + 1),
            )
        },
    }
}

#[via_fn]
proof fn rows_from_decreases(
    tokens: Seq<TokenView>,
    cursor: int,
    width: Option<usize>,
    count: nat,
) {
    recorder::lemma_record_takes_tokens(tokens, cursor, recorder::options::OptionsView::initial());
}

/// The table that `s` holds: its records, all as wide as the first, up to the first record
/// without a field; or the first error on the way there.
pub open spec fn parsed(s: Seq<char>) -> Result<Seq<Seq<Seq<char>>>, ParseError> {
    match tokens_from(s, 0, tokenizer::options::OptionsView::initial()) {
        Err(e) => Err(ParseError::Tokenizer(e)),
        Ok(tokens) => rows_from(tokens, 0, None, 0),
    }
}

/// Reads `s` as a table with `,` between fields, `"` around quoted fields, and a carriage
/// return and a line feed at the end of each record.
///
/// # Errors
///
/// The first character that forms no token, the first token that fits no record, or the first
/// record that is not as wide as the first one.
pub fn parse(s: &str) -> (r: Result<Vec<Vec<String>>, ParseError>)
    ensures
        match parsed(s@) {
            Ok(rows) => r is Ok && r->Ok_0.deep_view() == rows,
            Err(e) => r is Err && r->Err_0 == e,
        },
{
    let chars = characters(s);
    let tokens = match chars.as_slice().csv_tokens().collect() {
        Ok(tokens) => tokens,
        Err(e) => return Err(ParseError::from(e)),
    };
    let mut recorder = tokens.as_slice().csv_record();
    let mut records: Vec<Vec<String>> = Vec::new();
    let mut len: Option<usize> = None;
    let ghost all = tokens.deep_view();
    proof {
        assert(records.deep_view() =~= Seq::empty());
        lemma_behind_nothing(records.deep_view(), rows_from(all, 0, None, 0));
    }
    loop
        invariant_except_break
            parsed(s@) == behind(
                records.deep_view(),
                rows_from(all, recorder@.cursor, len, records.len() as nat),
            ),
            recorder@.position is Start,
        invariant
            parsed(s@) == rows_from(all, 0, None, 0),
            recorder@.tokens == all,
            recorder@.options == recorder::options::OptionsView::initial(),
            0 <= recorder@.cursor <= all.len(),
            records.len() <= recorder@.cursor,
        ensures
            parsed(s@) == Ok::<Seq<Seq<Seq<char>>>, ParseError>(records.deep_view()),
        decreases all.len() - recorder@.cursor,
    {
        let ghost before = records.deep_view();
        let ghost at = recorder@.cursor;
        proof {
            recorder::lemma_record_takes_tokens(all, at, recorder@.options);
        }
        let record = match recorder.collect() {
            Ok(record) => record,
            Err(e) => return Err(ParseError::from(e)),
        };
        if record.len() == 0 {
            proof {
                assert(before + Seq::<Seq<Seq<char>>>::empty() =~= before);
            }
            break ;
        }
        match len {
            Some(expected) => {
                if expected != record.len() {
                    return Err(
                        ParseError::JaggedRecords {
                            expected,
                            at: records.len(),
                            actual: record.len(),
                        },
                    );
                }
            },
            None => {
                len = Some(record.len());
            },
        }
        let ghost row = record.deep_view();
        records.push(record);
        recorder.reset();
        proof {
            assert(records.deep_view() =~= before + seq![row]);
            lemma_behind_twice(
                before,
                seq![row],
                rows_from(all, recorder@.cursor, len, records.len() as nat),
            );
        }
    }
    Ok(records)
}

/// An input without characters holds nothing: it has no tokens; the one record that a
/// recorder reads from no tokens has no field, or one empty field where the options ask for
/// that; and it parses to a table without rows.
pub proof fn lemma_empty_input(
    o: tokenizer::options::OptionsView,
    recorder: recorder::options::OptionsView,
)
    ensures
        tokens_from(Seq::empty(), 0, o) == Ok::<Seq<TokenView>, tokenizer::Error>(Seq::empty()),
        recorder.at_least_one ==> record_from(Seq::empty(), 0, Position::Start, recorder).fields
            == Ok::<Seq<Seq<char>>, recorder::Error>(seq![Seq::empty()]),
        !recorder.at_least_one ==> record_from(Seq::empty(), 0, Position::Start, recorder).fields
            == Ok::<Seq<Seq<char>>, recorder::Error>(Seq::empty()),
        parsed(Seq::empty()) == Ok::<Seq<Seq<Seq<char>>>, ParseError>(Seq::empty()),
{
    let none = Seq::<TokenView>::empty();
    recorder::lemma_record_unfolds(none, 0, Position::Start, recorder);
    recorder::lemma_record_unfolds(none, 0, Position::End, recorder);
    recorder::lemma_record_unfolds(none, 0, Position::Start, recorder::options::OptionsView::initial());
    if recorder.at_least_one {
        assert(seq![Seq::<char>::empty()] + Seq::<Seq<char>>::empty() =~= seq![Seq::<char>::empty()]);
    }
}

} // verus!
