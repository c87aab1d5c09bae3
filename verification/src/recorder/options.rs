//! Recorder options: what to make of an empty record and of a delimiter that ends one.

mod private_builder;

use vstd::prelude::*;

verus! {

/// Something that gives access to options: the options themselves, or a borrow of them.
pub trait Handle: Sized {
    /// The options that this handle holds or points to.
    spec fn options(&self) -> OptionsView;

    fn get(&self) -> (r: &Options)
        ensures
            r@ == self.options(),
    ;
}

/// Options builder methods, usable on the options themselves or on an exclusive borrow of them.
pub trait Builder: private_builder::Sealed + Handle {
    #[must_use]
    fn with_at_least_one(self, at_least_one: bool) -> (r: Self)
        ensures
            r.options() == (OptionsView { at_least_one, ..self.options() }),
    ;

    #[must_use]
    fn with_trailing_delimiter(self, trailing_delimiter: bool) -> (r: Self)
        ensures
            r.options() == (OptionsView { trailing_delimiter, ..self.options() }),
    ;
}

/// How a recorder reads its tokens.
#[derive(Clone, Debug, Eq, PartialEq)]
pub struct Options {
    at_least_one: bool,
    trailing_delimiter: bool,
}

/// The mathematical value of [`Options`].
pub struct OptionsView {
    /// Whether a record without tokens is one empty field rather than no field at all.
    pub at_least_one: bool,
    /// Whether a delimiter at the end of a record stands for an empty last field.
    pub trailing_delimiter: bool,
}

impl OptionsView {
    /// The options every recorder starts from: an empty record has no field, and a delimiter
    /// at the end of a record is an error.
    pub open spec fn initial() -> OptionsView {
        OptionsView { at_least_one: false, trailing_delimiter: false }
    }
}

impl View for Options {
    type V = OptionsView;

    closed spec fn view(&self) -> OptionsView {
        OptionsView {
            at_least_one: self.at_least_one,
            trailing_delimiter: self.trailing_delimiter,
        }
    }
}

impl Options {
    #[inline]
    #[must_use]
    pub fn at_least_one(&self) -> (r: bool)
        ensures
            r == self@.at_least_one,
    {
        self.at_least_one
    }

    #[inline]
    pub fn at_least_one_mut(&mut self) -> (r: &mut bool)
        ensures
            *r == old(self)@.at_least_one,
            final(self)@ == (OptionsView { at_least_one: *final(r), ..old(self)@ }),
    {
        &mut self.at_least_one
    }

    #[inline]
    pub fn set_at_least_one(&mut self, at_least_one: bool)
        ensures
            final(self)@ == (OptionsView { at_least_one, ..old(self)@ }),
    {
        self.at_least_one = at_least_one;
    }

    #[inline]
    #[must_use]
    pub fn trailing_delimiter(&self) -> (r: bool)
        ensures
            r == self@.trailing_delimiter,
    {
        self.trailing_delimiter
    }

    #[inline]
    pub fn trailing_delimiter_mut(&mut self) -> (r: &mut bool)
        ensures
            *r == old(self)@.trailing_delimiter,
            final(self)@ == (OptionsView { trailing_delimiter: *final(r), ..old(self)@ }),
    {
        &mut self.trailing_delimiter
    }

    #[inline]
    pub fn set_trailing_delimiter(&mut self, trailing_delimiter: bool)
        ensures
            final(self)@ == (OptionsView { trailing_delimiter, ..old(self)@ }),
    {
        self.trailing_delimiter = trailing_delimiter;
    }
}

impl Handle for Options {
    open spec fn options(&self) -> OptionsView {
        self@
    }

    #[inline]
    fn get(&self) -> (r: &Options) {
        self
    }
}

impl Handle for &Options {
    open spec fn options(&self) -> OptionsView {
        (**self)@
    }

    #[inline]
    fn get(&self) -> (r: &Options) {
        *self
    }
}

impl Handle for &mut Options {
    open spec fn options(&self) -> OptionsView {
        (**self)@
    }

    #[inline]
    fn get(&self) -> (r: &Options) {
        &**self
    }
}

impl Builder for &mut Options {
    #[inline]
    fn with_at_least_one(self, at_least_one: bool) -> (r: Self)
        ensures
            *final(self) == *final(r),
    {
        self.set_at_least_one(at_least_one);
        self
    }

    #[inline]
    fn with_trailing_delimiter(self, trailing_delimiter: bool) -> (r: Self)
        ensures
            *final(self) == *final(r),
    {
        self.set_trailing_delimiter(trailing_delimiter);
        self
    }
}

impl Builder for Options {
    #[inline]
    fn with_at_least_one(self, at_least_one: bool) -> (r: Self) {
        let mut options = self;
        options.set_at_least_one(at_least_one);
        options
    }

    #[inline]
    fn with_trailing_delimiter(self, trailing_delimiter: bool) -> (r: Self) {
        let mut options = self;
        options.set_trailing_delimiter(trailing_delimiter);
        options
    }
}

impl Default for Options {
    fn default() -> (r: Self)
        ensures
            r@ == OptionsView::initial(),
    {
        Options { at_least_one: false, trailing_delimiter: false }
    }
}

} // verus!
