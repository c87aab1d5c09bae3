//! The token type shared by the tokenizer and the recorder.

use vstd::prelude::*;

verus! {

/// A classified piece of the character stream, tagged with the offset of its first character.
#[derive(Clone, Debug, Eq, PartialEq)]
pub struct Token {
    pub idx: usize,
    pub kind: Kind,
}

/// What a token stands for.
#[derive(Clone, Debug, Eq, PartialEq)]
pub enum Kind {
    Field(String),
    Delimiter,
    LineBreak,
}

/// The mathematical value of a [`Kind`]: field text as a sequence of characters.
pub enum KindView {
    Field(Seq<char>),
    Delimiter,
    LineBreak,
}

/// The mathematical value of a [`Token`].
pub struct TokenView {
    pub idx: usize,
    pub kind: KindView,
}

impl View for Kind {
    type V = KindView;

    open spec fn view(&self) -> KindView {
        match self {
            Kind::Field(text) => KindView::Field(text@),
            Kind::Delimiter => KindView::Delimiter,
            Kind::LineBreak => KindView::LineBreak,
        }
    }
}

impl View for Token {
    type V = TokenView;

    open spec fn view(&self) -> TokenView {
        TokenView { idx: self.idx, kind: self.kind@ }
    }
}

impl DeepView for Kind {
    type V = KindView;

    open spec fn deep_view(&self) -> KindView {
        self@
    }
}

impl DeepView for Token {
    type V = TokenView;

    open spec fn deep_view(&self) -> TokenView {
        self@
    }
}

impl Kind {
    #[inline]
    #[must_use]
    pub fn is_field(&self) -> (r: bool)
        ensures
            r == (self@ is Field),
    {
        match self {
            Kind::Field(_) => true,
            _ => false,
        }
    }

    #[inline]
    #[must_use]
    pub fn is_delimiter(&self) -> (r: bool)
        ensures
            r == (self@ is Delimiter),
    {
        match self {
            Kind::Delimiter => true,
            _ => false,
        }
    }

    #[inline]
    #[must_use]
    pub fn is_line_break(&self) -> (r: bool)
        ensures
            r == (self@ is LineBreak),
    {
        match self {
            Kind::LineBreak => true,
            _ => false,
        }
    }

    /// The text of a field, borrowed, and nothing for the other kinds.
    #[inline]
    pub fn try_as_field_ref(&self) -> (r: Option<&String>)
        ensures
            match self@ {
                KindView::Field(text) => r is Some && r->0@ == text,
                _ => r is None,
            },
    {
        match self {
            Kind::Field(text) => Some(text),
            _ => None,
        }
    }

    /// The text of a field, and nothing for the other kinds.
    #[inline]
    pub fn try_as_field(self) -> (r: Option<String>)
        ensures
            match self@ {
                KindView::Field(text) => r is Some && r->0@ == text,
                _ => r is None,
            },
    {
        match self {
            Kind::Field(text) => Some(text),
            _ => None,
        }
    }
}

impl Token {
    #[inline]
    #[must_use]
    pub fn new(idx: usize, kind: Kind) -> (r: Self)
        ensures
            r.idx == idx,
            r.kind == kind,
    {
        Self { idx, kind }
    }

    #[inline]
    #[must_use]
    pub fn idx(&self) -> (r: usize)
        ensures
            r == self.idx,
    {
        self.idx
    }

    #[inline]
    pub fn idx_mut(&mut self) -> (r: &mut usize)
        ensures
            *r == old(self).idx,
            final(self).idx == *final(r),
            final(self).kind == old(self).kind,
    {
        &mut self.idx
    }

    #[inline]
    pub fn set_idx(&mut self, idx: usize)
        ensures
            final(self).idx == idx,
            final(self).kind == old(self).kind,
    {
        self.idx = idx;
    }

    #[inline]
    #[must_use]
    pub fn kind(&self) -> (r: &Kind)
        ensures
            *r == self.kind,
    {
        &self.kind
    }

    #[inline]
    pub fn kind_mut(&mut self) -> (r: &mut Kind)
        ensures
            *r == old(self).kind,
            final(self).kind == *final(r),
            final(self).idx == old(self).idx,
    {
        &mut self.kind
    }

    #[inline]
    pub fn set_kind(&mut self, kind: Kind)
        ensures
            final(self).kind == kind,
            final(self).idx == old(self).idx,
    {
        self.kind = kind;
    }

    #[inline]
    #[must_use]
    pub fn is_field(&self) -> (r: bool)
        ensures
            r == (self@.kind is Field),
    {
        self.kind.is_field()
    }

    #[inline]
    #[must_use]
    pub fn is_delimiter(&self) -> (r: bool)
        ensures
            r == (self@.kind is Delimiter),
    {
        self.kind.is_delimiter()
    }

    #[inline]
    #[must_use]
    pub fn is_line_break(&self) -> (r: bool)
        ensures
            r == (self@.kind is LineBreak),
    {
        self.kind.is_line_break()
    }
}

} // verus!
