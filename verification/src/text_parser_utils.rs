pub use crate::matcher::CharMatcher;
use crate::matcher::{next_accepted, run_accepted, scanned};
use crate::text_parser::{Peeker, PeekerTrait, TextParserTrait};
use crate::util::{push_char, ParseError};
use vstd::prelude::*;

verus! {

/// The trait defining useful methods for text parsing
pub trait TextParserUtils: PeekerTrait {
    /// Checks if the next character matches the given character matcher
    fn check_next<M: CharMatcher>(&mut self, ch: M) -> (found: bool)
        requires
            old(self).wf(),
            old(self)@.position() < usize::MAX,
            ch.ready(),
        ensures
            final(self).wf(),
            final(self)@ == old(self)@.observed(0),
            next_accepted(&ch, old(self)@, found),
    ;

    /// Consumes the next character if it matches the given character matcher
    fn consume_if<M: CharMatcher>(&mut self, ch: M) -> (found: bool)
        requires
            old(self).wf(),
            old(self)@.position() < usize::MAX,
            ch.ready(),
        ensures
            final(self).wf(),
            final(self)@ == if found {
                old(self)@.observed(0).advanced(1)
            } else {
                old(self)@.observed(0)
            },
            next_accepted(&ch, old(self)@, found),
    ;

    /// Consumes characters while they match the given character matcher.
    /// returns the consumed text
    ///
    /// Where decoding fails before a character is refused, the error is
    /// returned and nothing is consumed.
    fn read_while<M: CharMatcher>(&mut self, f: M) -> (r: Result<String, ParseError>)
        requires
            old(self).wf(),
            old(self)@.scannable(),
            f.ready(),
        ensures
            final(self).wf(),
            match r {
                Ok(text) => {
                    &&& scanned(&f, old(self)@, text@.len(), None, final(self)@)
                    &&& text@ == old(self)@.run(text@.len())
                },
                Err(err) => scanned(
                    &f,
                    old(self)@,
                    old(self)@.remaining(),
                    Some(err),
                    final(self)@,
                ),
            },
    ;

    /// Consumes characters while they match the given character matcher
    /// returns the amount of characters consumed
    ///
    /// Where decoding fails before a character is refused, the error is
    /// returned and nothing is consumed.
    fn consume_while<M: CharMatcher>(&mut self, f: M) -> (r: Result<usize, ParseError>)
        requires
            old(self).wf(),
            old(self)@.scannable(),
            f.ready(),
        ensures
            final(self).wf(),
            match r {
                Ok(count) => scanned(&f, old(self)@, count as nat, None, final(self)@),
                Err(err) => scanned(
                    &f,
                    old(self)@,
                    old(self)@.remaining(),
                    Some(err),
                    final(self)@,
                ),
            },
    ;
}

impl<'a, T: TextParserTrait> TextParserUtils for Peeker<'a, T> {
    fn check_next<M: CharMatcher>(&mut self, cm: M) -> (found: bool)
        ensures
            final(self).idx == old(self).idx,
            final(self).start == old(self).start,
            final(self).trail == old(self).trail,
            final(self).outer == old(self).outer,
            final(self).parser@ == old(self).parser@.observed(
                (old(self).start + old(self).idx) as nat,
            ),
            *final(final(self).parser) == *final(old(self).parser),
    {
        let mut peeker = self.peeker();
        match peeker.next() {
            Some(Ok(c)) => cm.match_char(c),
            _ => false,
        }
    }

    fn read_while<M: CharMatcher>(&mut self, cm: M) -> (r: Result<String, ParseError>)
        ensures
            final(self).start == old(self).start,
            final(self).trail == old(self).trail,
            final(self).outer == old(self).outer,
            *final(final(self).parser) == *final(old(self).parser),
            match r {
                Ok(text) => {
                    &&& final(self).idx == old(self).idx + text@.len()
                    &&& final(self).parser@ == old(self).parser@.observed(
                        (old(self).start + old(self).idx + text@.len()) as nat,
                    )
                },
                Err(_) => {
                    &&& final(self).idx == old(self).idx
                    &&& final(self).parser@ == old(self).parser@.observed(
                        (old(self).start + old(self).idx + old(self)@.remaining()) as nat,
                    )
                },
            },
    {
        let mut text = String::new();
        let ghost before = self@;
        let ghost root = self.parser@;
        proof {
            self.lemma_wf();
            self.parser.lemma_wf();
        }
        let mut peeker = self.peeker();
        let ghost fin = *after_borrow(self);
        loop
            invariant
                cm.ready(),
                before == old(self)@,
                root == old(self).parser@,
                old(self).wf(),
                before.valid(),
                before.scannable(),
                root.valid(),
                peeker.wf(),
                peeker.idx == text@.len(),
                peeker.start == old(self).start + old(self).idx,
                peeker.parser@ == root.decoded_to(before.position() + text@.len()),
                peeker.outer matches Some(count) && *count == old(self).idx && *final(count)
                    == fin.idx,
                fin == *after_borrow(self),
                *fin.parser == *final(peeker.parser),
                *final(fin.parser) == *final(old(self).parser),
                fin.outer == old(self).outer,
                fin.start == old(self).start,
                fin.trail == old(self).trail,
                run_accepted(&cm, before, text@.len()),
                text@.len() > 0 ==> before.position() + text@.len() <= before.stream.values.len(),
                text@ == before.run(text@.len()),
            decreases before.stream.values.len() - text@.len(),
        {
            let ghost passed = text@.len();
            match peeker.next() {
                Some(Ok(ch)) => {
                    if cm.match_char(ch) {
                        push_char(&mut text, ch);
                        proof {
                            assert(text@ =~= before.run(passed + 1));
                        }
                    } else {
                        peeker.back(1);
                        peeker.apply();
                        proof {
                            assert(self@.marks =~= before.observed(passed).advanced(passed).marks);
                        }
                        return Ok(text);
                    }
                },
                Some(Err(err)) => {
                    return Err(err);
                },
                None => {
                    peeker.back(1);
                    peeker.apply();
                    proof {
                        assert(self@.marks =~= before.observed(passed).advanced(passed).marks);
                    }
                    return Ok(text);
                },
            }
        }
    }

    fn consume_while<M: CharMatcher>(&mut self, cm: M) -> (r: Result<usize, ParseError>)
        ensures
            final(self).start == old(self).start,
            final(self).trail == old(self).trail,
            final(self).outer == old(self).outer,
            *final(final(self).parser) == *final(old(self).parser),
            match r {
                Ok(count) => {
                    &&& final(self).idx == old(self).idx + count
                    &&& final(self).parser@ == old(self).parser@.observed(
                        (old(self).start + old(self).idx + count) as nat,
                    )
                },
                Err(_) => {
                    &&& final(self).idx == old(self).idx
                    &&& final(self).parser@ == old(self).parser@.observed(
                        (old(self).start + old(self).idx + old(self)@.remaining()) as nat,
                    )
                },
            },
    {
        let mut count: usize = 0;
        let ghost before = self@;
        let ghost root = self.parser@;
        proof {
            self.lemma_wf();
            self.parser.lemma_wf();
        }
        let mut peeker = self.peeker();
        let ghost fin = *after_borrow(self);
        loop
            invariant
                cm.ready(),
                before == old(self)@,
                root == old(self).parser@,
                old(self).wf(),
                before.valid(),
                before.scannable(),
                root.valid(),
                peeker.wf(),
                peeker.idx == count,
                peeker.start == old(self).start + old(self).idx,
                peeker.parser@ == root.decoded_to(before.position() + count as nat),
                peeker.outer matches Some(outer) && *outer == old(self).idx && *final(outer)
                    == fin.idx,
                fin == *after_borrow(self),
                *fin.parser == *final(peeker.parser),
                *final(fin.parser) == *final(old(self).parser),
                fin.outer == old(self).outer,
                fin.start == old(self).start,
                fin.trail == old(self).trail,
                run_accepted(&cm, before, count as nat),
                count > 0 ==> before.position() + count <= before.stream.values.len(),
            decreases before.stream.values.len() - count,
        {
            match peeker.next() {
                Some(Ok(ch)) => {
                    if cm.match_char(ch) {
                        count += 1;
                    } else {
                        peeker.back(1);
                        peeker.apply();
                        proof {
                            assert(self@.marks =~= before.observed(count as nat).advanced(
                                count as nat,
                            ).marks);
                        }
                        return Ok(count);
                    }
                },
                Some(Err(err)) => {
                    return Err(err);
                },
                None => {
                    peeker.back(1);
                    peeker.apply();
                    proof {
                        assert(self@.marks =~= before.observed(count as nat).advanced(
                            count as nat,
                        ).marks);
                    }
                    return Ok(count);
                },
            }
        }
    }

    fn consume_if<M: CharMatcher>(&mut self, cm: M) -> (found: bool)
        ensures
            final(self).idx == old(self).idx + if found {
                1int
            } else {
                0int
            },
            final(self).start == old(self).start,
            final(self).trail == old(self).trail,
            final(self).outer == old(self).outer,
            final(self).parser@ == old(self).parser@.observed(
                (old(self).start + old(self).idx) as nat,
            ),
            *final(final(self).parser) == *final(old(self).parser),
    {
        let ghost before = self@;
        let mut peeker = self.peeker();
        match peeker.next() {
            Some(Ok(c)) => {
                if cm.match_char(c) {
                    peeker.apply();
                    proof {
                        assert(self@.marks =~= before.observed(0).advanced(1).marks);
                    }
                    true
                } else {
                    false
                }
            },
            _ => false,
        }
    }
}

} // verus!
