//! The character-level stage: characters in, tokens out.

pub mod options;
pub mod step;

use vstd::prelude::*;

use crate::outcome::{behind, lemma_behind_nothing, lemma_behind_twice};
use crate::token::{Token, TokenView};
use options::{Handle, OptionsView};
pub use options::Options;
use step::{token_at, item_view};

verus! {

/// Converting to a tokenizer.
pub trait Into<'a>: Sized {
    /// The characters that the tokenizer will read.
    spec fn characters(&self) -> Seq<char>;

    /// A tokenizer over these characters with the options every tokenizer starts from.
    fn csv_tokens(self) -> (r: Tokenizer<'a, Options>)
        ensures
            r@ == (TokenizerView {
                input: self.characters(),
                position: 0,
                options: OptionsView::initial(),
            }),
    ;

    /// A tokenizer over these characters with options of the caller's.
    fn csv_tokens_custom<O: Handle>(self, options: O) -> (r: Tokenizer<'a, O>)
        ensures
            r@ == (TokenizerView {
                input: self.characters(),
                position: 0,
                options: options.options(),
            }),
    ;
}

/// A cursor over characters that hands out the tokens they form, one at a time.
#[derive(Debug)]
pub struct Tokenizer<'a, O> {
    chars: &'a [char],
    pos: usize,
    options: O,
}

/// The mathematical value of a [`Tokenizer`]: what it reads, how far it has read, and how.
pub struct TokenizerView {
    pub input: Seq<char>,
    pub position: int,
    pub options: OptionsView,
}

/// Why a character could not become part of a token, and the offset of that character.
#[derive(Clone, Debug, Eq, PartialEq, Structural)]
pub struct Error {
    pub at: usize,
    pub kind: ErrorKind,
}

/// What is wrong with a character.
#[derive(Clone, Copy, Debug, Eq, PartialEq, Structural)]
pub enum ErrorKind {
    /// A control code where none is allowed.
    Control,
    /// A carriage return that ends no line in the chosen mode.
    CarriageReturn,
    /// A line feed that ends no line in the chosen mode.
    LineFeed,
    /// A quoted section that ends before its field does.
    EarlyQuote,
    /// A quote inside a field that did not begin with one.
    LateQuote,
}

impl Error {
    #[inline]
    #[must_use]
    pub fn new(at: usize, kind: ErrorKind) -> (r: Self)
        ensures
            r == (Error { at, kind }),
    {
        Self { at, kind }
    }

    #[inline]
    #[must_use]
    pub fn at(&self) -> (r: &usize)
        ensures
            *r == self.at,
    {
        &self.at
    }

    #[inline]
    #[must_use]
    pub fn kind(&self) -> (r: &ErrorKind)
        ensures
            *r == self.kind,
    {
        &self.kind
    }
}

/// The tokens of `s` from offset `i` on, or the first error among them.
pub open spec fn tokens_from(s: Seq<char>, i: int, o: OptionsView) -> Result<Seq<TokenView>, Error>
    decreases s.len() - i,
    via tokens_from_decreases
{
    let step = token_at(s, i, o);
    match step.item {
        None => Ok(Seq::empty()),
        Some(Err(e)) => Err(e),
        Some(Ok(token)) => behind(seq![token], tokens_from(s, step.end, o)),
    }
}

/// Whether `outcome` holds what `expected` says: the same tokens, or the same error.
pub open spec fn holds(
    outcome: Result<Vec<Token>, Error>,
    expected: Result<Seq<TokenView>, Error>,
) -> bool {
    match expected {
        Ok(tokens) => outcome is Ok && outcome->Ok_0.deep_view() == tokens,
        Err(e) => outcome is Err && outcome->Err_0 == e,
    }
}

/// Tokenizing again gives the same again: what two runs over the same characters, from the
/// same offset and with the same options, hand out is the same sequence of tokens, or the
/// same error.
pub proof fn lemma_tokenizing_repeats(
    first: Result<Vec<Token>, Error>,
    second: Result<Vec<Token>, Error>,
    s: Seq<char>,
    i: int,
    o: OptionsView,
)
    requires
        holds(first, tokens_from(s, i, o)),
        holds(second, tokens_from(s, i, o)),
    ensures
        first is Ok <==> second is Ok,
        first is Ok ==> first->Ok_0.deep_view() == second->Ok_0.deep_view(),
        first is Err ==> first->Err_0 == second->Err_0,
{
}

/// A step again gives the same again: what two steps from the same offset of the same
/// characters, with the same options, hand out is the same token, the same error or nothing
/// both times, and both leave the cursor at the same offset.
pub proof fn lemma_step_repeats(
    first: (Option<Result<Token, Error>>, usize),
    second: (Option<Result<Token, Error>>, usize),
    s: Seq<char>,
    i: int,
    o: OptionsView,
)
    requires
        item_view(first.0) == token_at(s, i, o).item,
        first.1 == token_at(s, i, o).end,
        item_view(second.0) == token_at(s, i, o).item,
        second.1 == token_at(s, i, o).end,
    ensures
        item_view(first.0) == item_view(second.0),
        first.1 == second.1,
{
}

#[via_fn]
proof fn tokens_from_decreases(s: Seq<char>, i: int, o: OptionsView) {
    step::lemma_token_advances(s, i, o);
}

impl<'a, O: Handle> View for Tokenizer<'a, O> {
    type V = TokenizerView;

    closed spec fn view(&self) -> TokenizerView {
        TokenizerView {
            input: self.chars@,
            position: self.pos as int,
            options: self.options.options(),
        }
    }
}

impl<'a, O> Tokenizer<'a, O> {
    #[verifier::type_invariant]
    spec fn within_input(self) -> bool {
        self.pos <= self.chars@.len()
    }
}

impl<'a, O: Clone + Handle> Clone for Tokenizer<'a, O> {
    /// A tokenizer of its own over the same characters, at the same offset, with a clone of
    /// the options.
    fn clone(&self) -> (r: Self)
        ensures
            r@.input == self@.input,
            r@.position == self@.position,
    {
        proof {
            use_type_invariant(self);
        }
        Tokenizer { chars: self.chars, pos: self.pos, options: self.options.clone() }
    }
}

impl<'a, O: Handle> Tokenizer<'a, O> {
    /// The token that starts at the cursor, with the cursor moved behind what was read; nothing
    /// at the end of the input.
    #[inline]
    pub fn next(&mut self) -> (r: Option<Result<Token, Error>>)
        ensures
            item_view(r) == token_at(
                old(self)@.input,
                old(self)@.position,
                old(self)@.options,
            ).item,
            final(self)@ == (TokenizerView {
                position: token_at(
                    old(self)@.input,
                    old(self)@.position,
                    old(self)@.options,
                ).end,
                ..old(self)@
            }),
            0 <= final(self)@.position <= final(self)@.input.len(),
            r matches Some(Ok(token)) ==> token.idx == old(self)@.position,
            r matches Some(Err(e)) ==> old(self)@.position <= e.at < final(self)@.position,
    {
        proof {
            use_type_invariant(&*self);
            step::lemma_token_advances(self@.input, self@.position, self@.options);
        }
        let mut pos: usize = self.pos;
        let item = step::next(self.chars, &mut pos, self.options.get());
        self.pos = pos;
        item
    }

    /// All tokens from the cursor to the end of the input, or the first error among them.
    pub fn collect(self) -> (r: Result<Vec<Token>, Error>)
        ensures
            holds(r, tokens_from(self@.input, self@.position, self@.options)),
    {
        let mut tokenizer = self;
        let mut tokens: Vec<Token> = Vec::new();
        let ghost start = tokenizer@;
        proof {
            use_type_invariant(&tokenizer);
            assert(tokens.deep_view() =~= Seq::empty());
            lemma_behind_nothing(
                Seq::empty(),
                tokens_from(start.input, start.position, start.options),
            );
        }
        loop
            invariant_except_break
                tokens_from(start.input, start.position, start.options) == behind(
                    tokens.deep_view(),
                    tokens_from(start.input, tokenizer@.position, start.options),
                ),
            invariant
                start == self@,
                tokenizer@.input == start.input,
                tokenizer@.options == start.options,
                0 <= tokenizer@.position <= start.input.len(),
            ensures
                tokens_from(start.input, start.position, start.options) == Ok::<
                    Seq<TokenView>,
                    Error,
                >(tokens.deep_view()),
            decreases start.input.len() - tokenizer@.position,
        {
            let ghost before = tokens.deep_view();
            let ghost at = tokenizer@.position;
            proof {
                step::lemma_token_advances(start.input, at, start.options);
            }
            match tokenizer.next() {
                None => {
                    proof {
                        assert(before + Seq::<TokenView>::empty() =~= before);
                    }
                    break ;
                },
                Some(Err(e)) => {
                    return Err(e);
                },
                Some(Ok(token)) => {
                    let ghost value = token@;
                    tokens.push(token);
                    proof {
                        assert(tokens.deep_view() =~= before + seq![value]);
                        lemma_behind_twice(
                            before,
                            seq![value],
                            tokens_from(start.input, tokenizer@.position, start.options),
                        );
                    }
                },
            }
        }
        Ok(tokens)
    }
}

impl<'a> Into<'a> for &'a [char] {
    open spec fn characters(&self) -> Seq<char> {
        (*self)@
    }

    #[inline]
    fn csv_tokens(self) -> (r: Tokenizer<'a, Options>) {
        self.csv_tokens_custom(Options::default())
    }

    #[inline]
    fn csv_tokens_custom<O: Handle>(self, options: O) -> (r: Tokenizer<'a, O>) {
        Tokenizer { chars: self, pos: 0, options }
    }
}

} // verus!
