//! One step of the recorder: from a cursor into the tokens to the next field of the record.

use vstd::prelude::*;

use super::options::{Options, OptionsView};
use super::{Error, ErrorKind};
use crate::token::{Kind, KindView, Token, TokenView};

verus! {

/// Where in its record a recorder stands.
#[derive(Clone, Copy, Debug, Eq, PartialEq, Structural)]
pub enum Position {
    /// In front of the first field.
    Start,
    /// Behind a field, in front of a delimiter or of the end of the record.
    Middle,
    /// Behind the last field.
    End,
}

impl Default for Position {
    fn default() -> (r: Self)
        ensures
            r == Position::Start,
    {
        Position::Start
    }
}

/// What one step yields: a field, an error, or nothing at the end of the record; and the
/// cursor and the position that the step left.
pub struct Advance {
    pub item: Option<Result<Seq<char>, Error>>,
    pub cursor: int,
    pub position: Position,
}

/// The kind of the token at `cursor`, if there is one.
pub open spec fn kind_at(tokens: Seq<TokenView>, cursor: int) -> Option<KindView> {
    if 0 <= cursor < tokens.len() {
        Some(tokens[cursor].kind)
    } else {
        None
    }
}

/// The one empty field of a record without tokens, where the options ask for it.
pub open spec fn empty_record(at_least_one: bool) -> Option<Result<Seq<char>, Error>> {
    if at_least_one {
        Some(Ok(Seq::empty()))
    } else {
        None
    }
}

/// The empty last field behind the delimiter at offset `at`, or the error where the options
/// do not allow a record to end in a delimiter.
pub open spec fn trailing_field(
    at: usize,
    trailing_delimiter: bool,
) -> Option<Result<Seq<char>, Error>> {
    if trailing_delimiter {
        Some(Ok(Seq::empty()))
    } else {
        Some(Err(Error { at, kind: ErrorKind::TrailingDelimiter }))
    }
}

/// The step in front of the first field.
///
/// A field is taken. A delimiter stands behind an empty first field and is left for the next
/// step. A line break, which is taken, or the end of the tokens ends the record.
pub open spec fn at_start(tokens: Seq<TokenView>, cursor: int, at_least_one: bool) -> Advance {
    match kind_at(tokens, cursor) {
        Some(KindView::Field(text)) => Advance {
            item: Some(Ok(text)),
            cursor: cursor + 1,
            position: Position::Middle,
        },
        Some(KindView::Delimiter) => Advance {
            item: Some(Ok(Seq::empty())),
            cursor,
            position: Position::Middle,
        },
        Some(KindView::LineBreak) => Advance {
            item: empty_record(at_least_one),
            cursor: cursor + 1,
            position: Position::End,
        },
        None => Advance { item: empty_record(at_least_one), cursor, position: Position::End },
    }
}

/// The step behind a field.
///
/// A line break, which is taken, or the end of the tokens ends the record. A second field in
/// a row is an error. A delimiter is taken, and with it the field behind it; where another
/// delimiter follows, the field between them is empty and that delimiter is left for the next
/// step; where a line break, which is taken too, or nothing follows, the record ends.
pub open spec fn at_middle(
    tokens: Seq<TokenView>,
    cursor: int,
    trailing_delimiter: bool,
) -> Advance {
    match kind_at(tokens, cursor) {
        None => Advance { item: None, cursor, position: Position::End },
        Some(KindView::LineBreak) => Advance {
            item: None,
            cursor: cursor + 1,
            position: Position::End,
        },
        Some(KindView::Field(_)) => Advance {
            item: Some(Err(Error { at: tokens[cursor].idx, kind: ErrorKind::UndelimitedFields })),
            cursor: cursor + 1,
            position: Position::Middle,
        },
        Some(KindView::Delimiter) => match kind_at(tokens, cursor + 1) {
            Some(KindView::Field(text)) => Advance {
                item: Some(Ok(text)),
                cursor: cursor + 2,
                position: Position::Middle,
            },
            Some(KindView::Delimiter) => Advance {
                item: Some(Ok(Seq::empty())),
                cursor: cursor + 1,
                position: Position::Middle,
            },
            Some(KindView::LineBreak) => Advance {
                item: trailing_field(tokens[cursor].idx, trailing_delimiter),
                cursor: cursor + 2,
                position: Position::End,
            },
            None => Advance {
                item: trailing_field(tokens[cursor].idx, trailing_delimiter),
                cursor: cursor + 1,
                position: Position::End,
            },
        },
    }
}

/// The step from `position`: behind the last field there is nothing more.
pub open spec fn advance(
    tokens: Seq<TokenView>,
    cursor: int,
    position: Position,
    o: OptionsView,
) -> Advance {
    match position {
        Position::Start => at_start(tokens, cursor, o.at_least_one),
        Position::Middle => at_middle(tokens, cursor, o.trailing_delimiter),
        Position::End => Advance { item: None, cursor, position },
    }
}

/// What an executable step returned, as a mathematical value.
pub open spec fn item_view(
    item: Option<Result<String, Error>>,
) -> Option<Result<Seq<char>, Error>> {
    match item {
        Some(Ok(text)) => Some(Ok(text@)),
        Some(Err(e)) => Some(Err(e)),
        None => None,
    }
}

/// The next field of the record, with the cursor moved behind the tokens that were taken and
/// the position brought up to date; nothing at the end of the record.
#[inline]
pub fn next(
    tokens: &[Token],
    cursor: &mut usize,
    pos: &mut Position,
    options: &Options,
) -> (r: Option<
    Result<String, Error>,
>)
    ensures
        item_view(r) == advance(tokens.deep_view(), *old(cursor) as int, *old(pos), options@).item,
        *final(cursor) == advance(
            tokens.deep_view(),
            *old(cursor) as int,
            *old(pos),
            options@,
        ).cursor,
        *final(pos) == advance(
            tokens.deep_view(),
            *old(cursor) as int,
            *old(pos),
            options@,
        ).position,
{
    match *pos {
        Position::Start => next_at_start(tokens, cursor, pos, options.at_least_one()),
        Position::Middle => next_at_middle(tokens, cursor, pos, options.trailing_delimiter()),
        Position::End => None,
    }
}

fn next_at_start(
    tokens: &[Token],
    cursor: &mut usize,
    pos: &mut Position,
    at_least_one: bool,
) -> (r:
    Option<Result<String, Error>>)
    ensures
        item_view(r) == at_start(tokens.deep_view(), *old(cursor) as int, at_least_one).item,
        *final(cursor) == at_start(tokens.deep_view(), *old(cursor) as int, at_least_one).cursor,
        *final(pos) == at_start(tokens.deep_view(), *old(cursor) as int, at_least_one).position,
{
    if *cursor < tokens.len() {
        match tokens[*cursor].kind() {
            Kind::Field(_) => {
                *pos = Position::Middle;
                Some(Ok(next_field_unchecked(tokens, cursor)))
            },
            Kind::Delimiter => {
                *pos = Position::Middle;
                Some(Ok(String::new()))
            },
            Kind::LineBreak => {
                *cursor = *cursor + 1;
                *pos = Position::End;
                if at_least_one {
                    Some(Ok(String::new()))
                } else {
                    None
                }
            },
        }
    } else {
        *pos = Position::End;
        if at_least_one {
            Some(Ok(String::new()))
        } else {
            None
        }
    }
}

fn next_at_middle(
    tokens: &[Token],
    cursor: &mut usize,
    pos: &mut Position,
    trailing_delimiter: bool,
) -> (r:
    Option<Result<String, Error>>)
    requires
        *old(pos) is Middle,
    ensures
        item_view(r) == at_middle(tokens.deep_view(), *old(cursor) as int, trailing_delimiter).item,
        *final(cursor) == at_middle(
            tokens.deep_view(),
            *old(cursor) as int,
            trailing_delimiter,
        ).cursor,
        *final(pos) == at_middle(
            tokens.deep_view(),
            *old(cursor) as int,
            trailing_delimiter,
        ).position,
{
    if *cursor >= tokens.len() {
        *pos = Position::End;
        return None;
    }
    let token = &tokens[*cursor];
    *cursor = *cursor + 1;
    match token.kind() {
        Kind::Field(_) => Some(Err(Error::new(token.idx(), ErrorKind::UndelimitedFields))),
        Kind::Delimiter => {
            if *cursor < tokens.len() {
                match tokens[*cursor].kind() {
                    Kind::Field(_) => Some(Ok(next_field_unchecked(tokens, cursor))),
                    Kind::Delimiter => Some(Ok(String::new())),
                    Kind::LineBreak => {
                        *cursor = *cursor + 1;
                        *pos = Position::End;
                        Some(trailing(token.idx(), trailing_delimiter))
                    },
                }
            } else {
                *pos = Position::End;
                Some(trailing(token.idx(), trailing_delimiter))
            }
        },
        Kind::LineBreak => {
            *pos = Position::End;
            None
        },
    }
}

/// The empty last field behind a delimiter at offset `at`, or the error where a record may
/// not end in one.
fn trailing(at: usize, trailing_delimiter: bool) -> (r: Result<String, Error>)
    ensures
        item_view(Some(r)) == trailing_field(at, trailing_delimiter),
{
    if trailing_delimiter {
        Ok(String::new())
    } else {
        Err(Error::new(at, ErrorKind::TrailingDelimiter))
    }
}

/// Takes the field at the cursor and hands out its text.
fn next_field_unchecked(tokens: &[Token], cursor: &mut usize) -> (r: String)
    requires
        *old(cursor) < tokens.len(),
        tokens[*old(cursor) as int]@.kind is Field,
    ensures
        KindView::Field(r@) == tokens[*old(cursor) as int]@.kind,
        *final(cursor) == *old(cursor) + 1,
{
    let token = &tokens[*cursor];
    *cursor = *cursor + 1;
    match token.kind().try_as_field_ref() {
        Some(text) => text.clone(),
        None => vstd::pervasive::unreached(),
    }
}

/// A step from within the tokens stays within them and never moves the cursor back.
pub proof fn lemma_advance_within(
    tokens: Seq<TokenView>,
    cursor: int,
    position: Position,
    o: OptionsView,
)
    requires
        0 <= cursor <= tokens.len(),
    ensures
        cursor <= advance(tokens, cursor, position, o).cursor <= tokens.len(),
{
}

} // verus!
