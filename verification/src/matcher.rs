use crate::cursor::CursorState;
use crate::util::ParseError;
use vstd::prelude::*;

verus! {

/// A trait that defines a method for matching against a single character
pub trait CharMatcher {
    /// Whether the matcher may be asked about every character.
    spec fn ready(&self) -> bool;

    /// Whether `accepted` is an answer that the matcher may give on `ch`.
    spec fn verdict(&self, ch: char, accepted: bool) -> bool;

    fn match_char(&self, ch: char) -> (accepted: bool)
        requires
            self.ready(),
        ensures
            self.verdict(ch, accepted),
    ;
}

/// A character matches itself and nothing else.
impl CharMatcher for char {
    open spec fn ready(&self) -> bool {
        true
    }

    open spec fn verdict(&self, ch: char, accepted: bool) -> bool {
        accepted == (*self == ch)
    }

    fn match_char(&self, ch: char) -> (accepted: bool) {
        *self == ch
    }
}

/// A function matches the characters on which it returns `true`.
impl<T: Fn(char) -> bool> CharMatcher for T {
    open spec fn ready(&self) -> bool {
        forall|ch: char| call_requires(*self, (ch,))
    }

    open spec fn verdict(&self, ch: char, accepted: bool) -> bool {
        call_ensures(*self, (ch,), accepted)
    }

    fn match_char(&self, ch: char) -> (accepted: bool) {
        self(ch)
    }
}

/// A string matches the characters that occur in it.
impl<'a> CharMatcher for &'a str {
    open spec fn ready(&self) -> bool {
        true
    }

    open spec fn verdict(&self, ch: char, accepted: bool) -> bool {
        accepted == self@.contains(ch)
    }

    fn match_char(&self, ch: char) -> (accepted: bool) {
        str_contains(self, ch)
    }
}

/// `str::contains` with a `char` as the pattern: whether `ch` occurs in
/// `text`.
#[verifier::external_body]
fn str_contains(text: &str, ch: char) -> (found: bool)
    ensures
        found == text@.contains(ch),
{
    text.contains(ch)
}

/// Whether `cm` accepts what stands at the position of `state`: there is a
/// value there, and `answer` is what `cm` says of it; or there is none, and
/// `answer` is `false`.
pub open spec fn next_accepted<M: CharMatcher>(cm: &M, state: CursorState, answer: bool) -> bool {
    match state.peek(0) {
        Some(Ok(ch)) => cm.verdict(ch, answer),
        _ => !answer,
    }
}

/// Whether `cm` has accepted each of the `count` values from the position
/// of `state` on.
pub open spec fn run_accepted<M: CharMatcher>(cm: &M, state: CursorState, count: nat) -> bool {
    forall|k: int|
        state.position() <= k < state.position() + count ==> k < state.stream.values.len()
            && cm.verdict(#[trigger] state.stream.values[k], true)
}

/// What a scan from the position of `before` with `cm` leaves when it has
/// passed `count` values.
///
/// Without a `failure` the scan stopped at a value that `cm` refused, or at
/// the end of the input, and the view stands `count` places on. With one,
/// decoding failed where the next value should have been, and the view
/// stands where it stood.
pub open spec fn scanned<M: CharMatcher>(
    cm: &M,
    before: CursorState,
    count: nat,
    failure: Option<ParseError>,
    after: CursorState,
) -> bool {
    &&& run_accepted(cm, before, count)
    &&& match failure {
        None => {
            &&& match before.peek(count) {
                Some(Ok(ch)) => cm.verdict(ch, false),
                Some(Err(_)) => false,
                None => true,
            }
            &&& after == before.observed(count).advanced(count)
        },
        Some(err) => {
            &&& before.peek(count) == Some(Err::<char, ParseError>(err))
            &&& after == before.observed(count)
        },
    }
}

} // verus!
