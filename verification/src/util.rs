use vstd::prelude::*;

verus! {

/// Why a byte sequence is not the UTF-8 encoding of a scalar value.
#[derive(Debug, Clone, Copy, PartialEq, Eq, Structural)]
pub enum Malformation {
    /// The first byte cannot start a sequence: it is a continuation byte, or
    /// it announces more than four bytes.
    InvalidLead,
    /// A byte after the first does not have the form `10xxxxxx`.
    InvalidContinuation,
    /// The input ended inside a sequence.
    Truncated,
    /// The value would have fitted in a shorter sequence.
    Overlong,
    /// The value lies in the surrogate range `U+D800..=U+DFFF`.
    Surrogate,
    /// The value lies above `U+10FFFF`.
    OutOfRange,
}

/// What stops a scan other than the end of the input.
#[derive(Debug, Clone, Copy, PartialEq, Eq, Structural)]
pub enum ParseError {
    /// The byte source reported a failure of its own.
    Source,
    /// The bytes at the current position are not valid UTF-8.
    Malformed(Malformation),
}

impl ParseError {
    /// The words of `message`.
    pub open spec fn text(self) -> Seq<char> {
        match self {
            ParseError::Source => "byte source failed"@,
            ParseError::Malformed(_) => "invalid utf-8"@,
        }
    }

    /// A short description of the error, for messages.
    pub fn message(&self) -> (s: String)
        ensures
            s@ == self.text(),
    {
        match self {
            ParseError::Source => "byte source failed".to_owned(),
            ParseError::Malformed(_) => "invalid utf-8".to_owned(),
        }
    }
}

/// `String::push`: appends `ch` to the end of `text`.
#[verifier::external_body]
pub(crate) fn push_char(text: &mut String, ch: char)
    ensures
        final(text)@ == old(text)@.push(ch),
{
    text.push(ch)
}

/// The three-way outcome of asking for one item of the input.
#[derive(Debug)]
pub enum TextParserResult<T = char> {
    /// The item.
    Value(T),
    /// No item: decoding failed, or the source did.
    Failed(ParseError),
    /// No item: the input is exhausted.
    End,
}

/// The outcome of asking for one character.
pub type LexerResult = TextParserResult<char>;

impl<T> TextParserResult<T> {
    /// The outcome that stands for `found`, where `None` is the end of the
    /// input.
    pub open spec fn of(found: Option<Result<T, ParseError>>) -> Self {
        match found {
            Some(Ok(v)) => TextParserResult::Value(v),
            Some(Err(e)) => TextParserResult::Failed(e),
            None => TextParserResult::End,
        }
    }

    /// The item of a `Value`.
    pub fn unwrap(self) -> (v: T)
        requires
            self is Value,
        ensures
            self == TextParserResult::Value(v),
    {
        match self {
            TextParserResult::Value(v) => v,
            _ => unreached(),
        }
    }

    /// Whether this is the end of the input.
    pub fn is_end(&self) -> (b: bool)
        ensures
            b == (self is End),
    {
        matches!(self, TextParserResult::End)
    }

    /// Whether this holds an item.
    pub fn is_ok(&self) -> (b: bool)
        ensures
            b == (self is Value),
    {
        matches!(self, TextParserResult::Value(_))
    }

    /// Whether this holds an error.
    pub fn is_err(&self) -> (b: bool)
        ensures
            b == (self is Failed),
    {
        matches!(self, TextParserResult::Failed(_))
    }

    /// The error of a `Failed`.
    pub fn unwrap_err(self) -> (e: ParseError)
        requires
            self is Failed,
        ensures
            self == TextParserResult::<T>::Failed(e),
    {
        match self {
            TextParserResult::Failed(e) => e,
            _ => unreached(),
        }
    }
}

impl<V> From<Result<V, ParseError>> for TextParserResult<V> {
    fn from(value: Result<V, ParseError>) -> (r: Self) {
        match value {
            Ok(v) => TextParserResult::Value(v),
            Err(e) => TextParserResult::Failed(e),
        }
    }
}

impl<V> vstd::std_specs::convert::FromSpecImpl<Result<V, ParseError>> for TextParserResult<V> {
    open spec fn obeys_from_spec() -> bool {
        true
    }

    open spec fn from_spec(value: Result<V, ParseError>) -> Self {
        Self::of(Some(value))
    }
}

impl<V> From<Option<Result<V, ParseError>>> for TextParserResult<V> {
    fn from(value: Option<Result<V, ParseError>>) -> (r: Self) {
        match value {
            Some(Ok(v)) => TextParserResult::Value(v),
            Some(Err(e)) => TextParserResult::Failed(e),
            None => TextParserResult::End,
        }
    }
}

impl<V> vstd::std_specs::convert::FromSpecImpl<Option<Result<V, ParseError>>> for TextParserResult<V> {
    open spec fn obeys_from_spec() -> bool {
        true
    }

    open spec fn from_spec(value: Option<Result<V, ParseError>>) -> Self {
        Self::of(value)
    }
}

} // verus!
