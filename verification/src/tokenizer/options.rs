//! Tokenizer options: delimiter, quote, line-break mode and leniency towards control codes.

mod private_builder;

use vstd::prelude::*;

verus! {

/// Whether `ch` is a control code: a code point up to U+001F, or one in U+007F..=U+009F.
pub open spec fn spec_is_control(ch: char) -> bool {
    ch as u32 <= 0x1f || 0x7f <= ch as u32 <= 0x9f
}

/// Tells whether `ch` is a control code.
#[verifier::when_used_as_spec(spec_is_control)]
pub fn is_control(ch: char) -> (r: bool)
    ensures
        r == spec_is_control(ch),
{
    ch <= '\u{1f}' || ('\u{7f}' <= ch && ch <= '\u{9f}')
}

/// Something that gives access to options: the options themselves, or a borrow of them.
pub trait Handle: Sized {
    /// The options that this handle holds or points to.
    spec fn options(&self) -> OptionsView;

    fn get(&self) -> (r: &Options)
        ensures
            r@ == self.options(),
    ;
}

/// Options builder methods, usable on the options themselves or on an exclusive borrow of them.
pub trait Builder: private_builder::Sealed + Handle {

    #[must_use]
    fn with_allow_controls(self, allow_controls: bool) -> (r: Self)
        ensures
            r.options() == (OptionsView { allow_controls, ..self.options() }),
    ;

    /// Fails, as [`Options::set_delimiter`] does, on a control code and on the quote.
    fn with_delimiter(self, delimiter: char) -> (r: Result<Self, Error>)
        ensures
            match self.options().check_delimiter(delimiter) {
                Ok(()) => r is Ok && r->Ok_0.options() == (OptionsView {
                    delimiter,
                    ..self.options()
                }),
                Err(e) => r is Err && r->Err_0 == e,
            },
    ;

    #[must_use]
    fn with_line_break(self, line_break: LineBreak) -> (r: Self)
        ensures
            r.options() == (OptionsView { line_break, ..self.options() }),
    ;

    /// Fails, as [`Options::set_quote`] does, on a control code and on the delimiter.
    fn with_quote(self, quote: char) -> (r: Result<Self, Error>)
        ensures
            match self.options().check_quote(quote) {
                Ok(()) => r is Ok && r->Ok_0.options() == (OptionsView { quote, ..self.options() }),
                Err(e) => r is Err && r->Err_0 == e,
            },
    ;
}

/// How a tokenizer reads its input.
#[derive(Clone, Debug, Eq, PartialEq)]
pub struct Options {
    allow_controls: bool,
    line_break: LineBreak,
    separators: Separators,
}

/// A delimiter and a quote that differ and are no control codes.
#[derive(Clone, Copy, Debug, Eq, PartialEq)]
struct Separators {
    delimiter: char,
    quote: char,
}

/// The mathematical value of [`Options`].
pub struct OptionsView {
    pub allow_controls: bool,
    pub delimiter: char,
    pub line_break: LineBreak,
    pub quote: char,
}

/// Which character sequences end a line.
#[derive(Clone, Copy, Debug, Eq, PartialEq, Structural)]
pub enum LineBreak {
    /// A carriage return followed by a line feed.
    Crlf,
    /// A carriage return alone.
    Cr,
    /// A line feed alone.
    Lf,
    /// Any of the three: carriage return and line feed, or either alone.
    Any,
}

/// Why a delimiter or a quote was refused.
#[derive(Clone, Debug, Eq, PartialEq, Structural)]
pub struct Error {
    pub kind: ErrorKind,
}

/// What is wrong with a character that was to be the delimiter or the quote.
#[derive(Clone, Copy, Debug, Eq, PartialEq, Structural)]
pub enum ErrorKind {
    /// The character is a control code.
    ControlChar(char),
    /// The character is the delimiter already.
    UsedByDelimiter(char),
    /// The character is the quote already.
    UsedByQuote(char),
}

impl Error {
    #[inline]
    #[must_use]
    pub fn new(kind: ErrorKind) -> (r: Self)
        ensures
            r == (Error { kind }),
    {
        Self { kind }
    }

    #[inline]
    #[must_use]
    pub fn kind(&self) -> (r: &ErrorKind)
        ensures
            *r == self.kind,
    {
        &self.kind
    }
}

impl LineBreak {
    /// Whether `ch` occurs in a sequence that ends a line in this mode.
    pub open spec fn spec_contains(self, ch: char) -> bool {
        ||| ch == '\r' && !(self is Lf)
        ||| ch == '\n' && !(self is Cr)
    }

    /// Whether a sequence that ends a line in this mode begins with `ch`.
    pub open spec fn spec_begins_with(self, ch: char) -> bool {
        ||| ch == '\r' && !(self is Lf)
        ||| ch == '\n' && (self is Lf || self is Any)
    }

    #[inline]
    #[must_use]
    #[verifier::when_used_as_spec(spec_contains)]
    pub fn contains(self, ch: char) -> (r: bool)
        ensures
            r == self.spec_contains(ch),
    {
        match self {
            LineBreak::Crlf | LineBreak::Any => ch == '\r' || ch == '\n',
            LineBreak::Cr => ch == '\r',
            LineBreak::Lf => ch == '\n',
        }
    }

    #[inline]
    #[must_use]
    #[verifier::when_used_as_spec(spec_begins_with)]
    pub fn begins_with(self, ch: char) -> (r: bool)
        ensures
            r == self.spec_begins_with(ch),
    {
        match self {
            LineBreak::Crlf | LineBreak::Cr => ch == '\r',
            LineBreak::Lf => ch == '\n',
            LineBreak::Any => ch == '\r' || ch == '\n',
        }
    }

    #[inline]
    #[must_use]
    pub fn is_crlf(&self) -> (r: bool)
        ensures
            r == (*self is Crlf),
    {
        matches!(self, LineBreak::Crlf)
    }

    #[inline]
    #[must_use]
    pub fn is_cr(&self) -> (r: bool)
        ensures
            r == (*self is Cr),
    {
        matches!(self, LineBreak::Cr)
    }

    #[inline]
    #[must_use]
    pub fn is_lf(&self) -> (r: bool)
        ensures
            r == (*self is Lf),
    {
        matches!(self, LineBreak::Lf)
    }

    #[inline]
    #[must_use]
    pub fn is_any(&self) -> (r: bool)
        ensures
            r == (*self is Any),
    {
        matches!(self, LineBreak::Any)
    }
}

impl Default for LineBreak {
    fn default() -> (r: Self)
        ensures
            r == LineBreak::Crlf,
    {
        LineBreak::Crlf
    }
}

impl Separators {
    #[verifier::type_invariant]
    spec fn distinct_and_printable(self) -> bool {
        &&& self.delimiter != self.quote
        &&& !spec_is_control(self.delimiter)
        &&& !spec_is_control(self.quote)
    }
}

impl OptionsView {
    /// The invariant of [`Options`]: delimiter and quote differ, and neither is a control code.
    pub open spec fn valid(self) -> bool {
        &&& self.delimiter != self.quote
        &&& !spec_is_control(self.delimiter)
        &&& !spec_is_control(self.quote)
    }

    /// The options every tokenizer starts from: `,` and `"`, lines ending in a carriage return
    /// and a line feed, control codes refused.
    pub open spec fn initial() -> OptionsView {
        OptionsView {
            allow_controls: false,
            delimiter: ',',
            line_break: LineBreak::Crlf,
            quote: '"',
        }
    }

    /// Whether `delimiter` may replace the delimiter, and the error if it may not.
    pub open spec fn check_delimiter(self, delimiter: char) -> Result<(), Error> {
        if spec_is_control(delimiter) {
            Err(Error { kind: ErrorKind::ControlChar(delimiter) })
        } else if delimiter == self.quote {
            Err(Error { kind: ErrorKind::UsedByQuote(delimiter) })
        } else {
            Ok(())
        }
    }

    /// Whether `quote` may replace the quote, and the error if it may not.
    pub open spec fn check_quote(self, quote: char) -> Result<(), Error> {
        if spec_is_control(quote) {
            Err(Error { kind: ErrorKind::ControlChar(quote) })
        } else if quote == self.delimiter {
            Err(Error { kind: ErrorKind::UsedByDelimiter(quote) })
        } else {
            Ok(())
        }
    }
}

impl View for Options {
    type V = OptionsView;

    closed spec fn view(&self) -> OptionsView {
        OptionsView {
            allow_controls: self.allow_controls,
            delimiter: self.separators.delimiter,
            line_break: self.line_break,
            quote: self.separators.quote,
        }
    }
}

impl Options {
    #[inline]
    #[must_use]
    pub fn allow_controls(&self) -> (r: bool)
        ensures
            r == self@.allow_controls,
    {
        self.allow_controls
    }

    #[inline]
    pub fn allow_controls_mut(&mut self) -> (r: &mut bool)
        ensures
            *r == old(self)@.allow_controls,
            final(self)@ == (OptionsView { allow_controls: *final(r), ..old(self)@ }),
    {
        &mut self.allow_controls
    }

    #[inline]
    pub fn set_allow_controls(&mut self, allow_controls: bool)
        ensures
            final(self)@ == (OptionsView { allow_controls, ..old(self)@ }),
    {
        self.allow_controls = allow_controls;
    }

    /// The delimiter, which is never a control code nor the quote.
    #[inline]
    #[must_use]
    pub fn delimiter(&self) -> (r: char)
        ensures
            r == self@.delimiter,
            self@.valid(),
    {
        proof {
            use_type_invariant(&self.separators);
        }
        self.separators.delimiter
    }

    /// Replaces the delimiter, unless it is a control code or the quote: then the options stay
    /// as they were.
    #[inline]
    pub fn set_delimiter(&mut self, delimiter: char) -> (r: Result<(), Error>)
        ensures
            r == old(self)@.check_delimiter(delimiter),
            r is Ok ==> final(self)@ == (OptionsView { delimiter, ..old(self)@ }),
            r is Err ==> final(self)@ == old(self)@,
            final(self)@.valid(),
    {
        proof {
            use_type_invariant(&self.separators);
        }
        if is_control(delimiter) {
            Err(Error::new(ErrorKind::ControlChar(delimiter)))
        } else if delimiter == self.separators.quote {
            Err(Error::new(ErrorKind::UsedByQuote(delimiter)))
        } else {
            self.separators = Separators { delimiter, quote: self.separators.quote };
            Ok(())
        }
    }

    #[inline]
    #[must_use]
    pub fn line_break(&self) -> (r: LineBreak)
        ensures
            r == self@.line_break,
    {
        self.line_break
    }

    #[inline]
    pub fn line_break_mut(&mut self) -> (r: &mut LineBreak)
        ensures
            *r == old(self)@.line_break,
            final(self)@ == (OptionsView { line_break: *final(r), ..old(self)@ }),
    {
        &mut self.line_break
    }

    #[inline]
    pub fn set_line_break(&mut self, line_break: LineBreak)
        ensures
            final(self)@ == (OptionsView { line_break, ..old(self)@ }),
    {
        self.line_break = line_break;
    }

    /// The quote, which is never a control code nor the delimiter.
    #[inline]
    #[must_use]
    pub fn quote(&self) -> (r: char)
        ensures
            r == self@.quote,
            self@.valid(),
    {
        proof {
            use_type_invariant(&self.separators);
        }
        self.separators.quote
    }

    /// Replaces the quote, unless it is a control code or the delimiter: then the options stay
    /// as they were.
    #[inline]
    pub fn set_quote(&mut self, quote: char) -> (r: Result<(), Error>)
        ensures
            r == old(self)@.check_quote(quote),
            r is Ok ==> final(self)@ == (OptionsView { quote, ..old(self)@ }),
            r is Err ==> final(self)@ == old(self)@,
            final(self)@.valid(),
    {
        proof {
            use_type_invariant(&self.separators);
        }
        if is_control(quote) {
            Err(Error::new(ErrorKind::ControlChar(quote)))
        } else if quote == self.separators.delimiter {
            Err(Error::new(ErrorKind::UsedByDelimiter(quote)))
        } else {
            self.separators = Separators { delimiter: self.separators.delimiter, quote };
            Ok(())
        }
    }
}

impl Handle for Options {
    open spec fn options(&self) -> OptionsView {
        self@
    }

    #[inline]
    fn get(&self) -> (r: &Options) {
        self
    }
}

impl Handle for &Options {
    open spec fn options(&self) -> OptionsView {
        (**self)@
    }

    #[inline]
    fn get(&self) -> (r: &Options) {
        *self
    }
}

impl Handle for &mut Options {
    open spec fn options(&self) -> OptionsView {
        (**self)@
    }

    #[inline]
    fn get(&self) -> (r: &Options) {
        &**self
    }
}

impl Builder for &mut Options {
    #[inline]
    fn with_allow_controls(self, allow_controls: bool) -> (r: Self)
        ensures
            *final(self) == *final(r),
    {
        self.set_allow_controls(allow_controls);
        self
    }

    #[inline]
    fn with_delimiter(self, delimiter: char) -> (r: Result<Self, Error>)
        ensures
            r matches Ok(b) ==> *final(self) == *final(b),
            r is Err ==> final(self)@ == old(self)@,
    {
        match self.set_delimiter(delimiter) {
            Ok(()) => Ok(self),
            Err(e) => Err(e),
        }
    }

    #[inline]
    fn with_line_break(self, line_break: LineBreak) -> (r: Self)
        ensures
            *final(self) == *final(r),
    {
        self.set_line_break(line_break);
        self
    }

    #[inline]
    fn with_quote(self, quote: char) -> (r: Result<Self, Error>)
        ensures
            r matches Ok(b) ==> *final(self) == *final(b),
            r is Err ==> final(self)@ == old(self)@,
    {
        match self.set_quote(quote) {
            Ok(()) => Ok(self),
            Err(e) => Err(e),
        }
    }
}

impl Builder for Options {
    #[inline]
    fn with_allow_controls(self, allow_controls: bool) -> (r: Self) {
        let mut options = self;
        options.set_allow_controls(allow_controls);
        options
    }

    #[inline]
    fn with_delimiter(self, delimiter: char) -> (r: Result<Self, Error>) {
        let mut options = self;
        match options.set_delimiter(delimiter) {
            Ok(()) => Ok(options),
            Err(e) => Err(e),
        }
    }

    #[inline]
    fn with_line_break(self, line_break: LineBreak) -> (r: Self) {
        let mut options = self;
        options.set_line_break(line_break);
        options
    }

    #[inline]
    fn with_quote(self, quote: char) -> (r: Result<Self, Error>) {
        let mut options = self;
        match options.set_quote(quote) {
            Ok(()) => Ok(options),
            Err(e) => Err(e),
        }
    }
}

impl Default for Options {
    fn default() -> (r: Self)
        ensures
            r@ == OptionsView::initial(),
    {
        Options {
            allow_controls: false,
            line_break: LineBreak::Crlf,
            separators: Separators { delimiter: ',', quote: '"' },
        }
    }
}

} // verus!
