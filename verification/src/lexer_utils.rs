use crate::lexer::{DefaultLexerConsumer, Lexer, LexerConsumer};
pub use crate::matcher::CharMatcher;
use crate::matcher::{next_accepted, run_accepted, scanned};
use crate::util::{push_char, ParseError, TextParserResult};
use vstd::prelude::*;

verus! {

/// Helpers for scanning with a consumer
pub trait LexerUtils: LexerConsumer {
    /// Checks if the next character is the given character
    fn check_next(&mut self, ch: char) -> (found: bool)
        requires
            old(self).wf(),
            old(self)@.position() < usize::MAX,
        ensures
            final(self).wf(),
            final(self)@ == old(self)@.observed(0),
            next_accepted(&ch, old(self)@, found),
    ;

    /// Consumes the next character if it matches the given character matcher
    fn consume_if<M: CharMatcher>(&mut self, ch: M) -> (found: bool)
        requires
            old(self).wf(),
            old(self)@.position() < usize::MAX,
            ch.ready(),
        ensures
            final(self).wf(),
            final(self)@ == if found {
                old(self)@.observed(0).advanced(1)
            } else {
                old(self)@.observed(0)
            },
            next_accepted(&ch, old(self)@, found),
    ;

    /// Consumes characters while they match the given character matcher.
    /// returns the consumed text
    ///
    /// Where decoding fails before a character is refused, the error is
    /// returned and nothing is consumed.
    fn read_while<M: CharMatcher>(&mut self, f: M) -> (r: Result<String, ParseError>)
        requires
            old(self).wf(),
            old(self)@.scannable(),
            f.ready(),
        ensures
            final(self).wf(),
            match r {
                Ok(text) => {
                    &&& scanned(&f, old(self)@, text@.len(), None, final(self)@)
                    &&& text@ == old(self)@.run(text@.len())
                },
                Err(err) => scanned(
                    &f,
                    old(self)@,
                    old(self)@.remaining(),
                    Some(err),
                    final(self)@,
                ),
            },
    ;

    /// Consumes characters while they match the given character matcher
    /// returns the amount of characters consumed
    ///
    /// Where decoding fails before a character is refused, the error is
    /// returned and nothing is consumed.
    fn consume_while<M: CharMatcher>(&mut self, f: M) -> (r: Result<usize, ParseError>)
        requires
            old(self).wf(),
            old(self)@.scannable(),
            f.ready(),
        ensures
            final(self).wf(),
            match r {
                Ok(count) => scanned(&f, old(self)@, count as nat, None, final(self)@),
                Err(err) => scanned(
                    &f,
                    old(self)@,
                    old(self)@.remaining(),
                    Some(err),
                    final(self)@,
                ),
            },
    ;
}

impl<'a, L: Lexer> LexerUtils for DefaultLexerConsumer<'a, L> {
    fn check_next(&mut self, ch: char) -> (found: bool)
        ensures
            final(self).idx == old(self).idx,
            final(self).start == old(self).start,
            final(self).trail == old(self).trail,
            final(self).outer == old(self).outer,
            final(self).lexer@ == old(self).lexer@.observed(
                (old(self).start + old(self).idx) as nat,
            ),
            *final(final(self).lexer) == *final(old(self).lexer),
    {
        let mut consumer = self.consumer();
        match consumer.next().0 {
            TextParserResult::Value(c) => c == ch,
            _ => false,
        }
    }

    fn read_while<M: CharMatcher>(&mut self, cm: M) -> (r: Result<String, ParseError>)
        ensures
            final(self).start == old(self).start,
            final(self).trail == old(self).trail,
            final(self).outer == old(self).outer,
            *final(final(self).lexer) == *final(old(self).lexer),
            match r {
                Ok(text) => {
                    &&& final(self).idx == old(self).idx + text@.len()
                    &&& final(self).lexer@ == old(self).lexer@.observed(
                        (old(self).start + old(self).idx + text@.len()) as nat,
                    )
                },
                Err(_) => {
                    &&& final(self).idx == old(self).idx
                    &&& final(self).lexer@ == old(self).lexer@.observed(
                        (old(self).start + old(self).idx + old(self)@.remaining()) as nat,
                    )
                },
            },
    {
        let mut text = String::new();
        let mut count: usize = 0;
        let ghost before = self@;
        let ghost root = self.lexer@;
        proof {
            self.lemma_wf();
            self.lexer.lemma_wf();
        }
        let mut consumer = self.consumer();
        let ghost fin = *after_borrow(self);
        loop
            invariant
                cm.ready(),
                before == old(self)@,
                root == old(self).lexer@,
                old(self).wf(),
                before.valid(),
                before.scannable(),
                root.valid(),
                consumer.wf(),
                consumer.idx == count,
                count == text@.len(),
                consumer.start == old(self).start + old(self).idx,
                consumer.lexer@ == root.decoded_to(before.position() + count as nat),
                consumer.outer matches Some(outer) && *outer == old(self).idx && *final(outer)
                    == fin.idx,
                fin == *after_borrow(self),
                *fin.lexer == *final(consumer.lexer),
                *final(fin.lexer) == *final(old(self).lexer),
                fin.outer == old(self).outer,
                fin.start == old(self).start,
                fin.trail == old(self).trail,
                run_accepted(&cm, before, count as nat),
                count > 0 ==> before.position() + count <= before.stream.values.len(),
                text@ == before.run(count as nat),
            decreases before.stream.values.len() - count,
        {
            let (result, _) = consumer.next();
            match result {
                TextParserResult::Value(ch) => {
                    if cm.match_char(ch) {
                        push_char(&mut text, ch);
                        count += 1;
                        proof {
                            assert(text@ =~= before.run(count as nat));
                        }
                    } else {
                        self.consume(count);
                        proof {
                            assert(self@.marks =~= before.observed(count as nat).advanced(
                                count as nat,
                            ).marks);
                        }
                        return Ok(text);
                    }
                },
                TextParserResult::Failed(err) => {
                    return Err(err);
                },
                TextParserResult::End => {
                    self.consume(count);
                    proof {
                        assert(self@.marks =~= before.observed(count as nat).advanced(
                            count as nat,
                        ).marks);
                    }
                    return Ok(text);
                },
            }
        }
    }

    fn consume_while<M: CharMatcher>(&mut self, cm: M) -> (r: Result<usize, ParseError>)
        ensures
            final(self).start == old(self).start,
            final(self).trail == old(self).trail,
            final(self).outer == old(self).outer,
            *final(final(self).lexer) == *final(old(self).lexer),
            match r {
                Ok(count) => {
                    &&& final(self).idx == old(self).idx + count
                    &&& final(self).lexer@ == old(self).lexer@.observed(
                        (old(self).start + old(self).idx + count) as nat,
                    )
                },
                Err(_) => {
                    &&& final(self).idx == old(self).idx
                    &&& final(self).lexer@ == old(self).lexer@.observed(
                        (old(self).start + old(self).idx + old(self)@.remaining()) as nat,
                    )
                },
            },
    {
        let mut count: usize = 0;
        let ghost before = self@;
        let ghost root = self.lexer@;
        proof {
            self.lemma_wf();
            self.lexer.lemma_wf();
        }
        let mut consumer = self.consumer();
        let ghost fin = *after_borrow(self);
        loop
            invariant
                cm.ready(),
                before == old(self)@,
                root == old(self).lexer@,
                old(self).wf(),
                before.valid(),
                before.scannable(),
                root.valid(),
                consumer.wf(),
                consumer.idx == count,
                consumer.start == old(self).start + old(self).idx,
                consumer.lexer@ == root.decoded_to(before.position() + count as nat),
                consumer.outer matches Some(outer) && *outer == old(self).idx && *final(outer)
                    == fin.idx,
                fin == *after_borrow(self),
                *fin.lexer == *final(consumer.lexer),
                *final(fin.lexer) == *final(old(self).lexer),
                fin.outer == old(self).outer,
                fin.start == old(self).start,
                fin.trail == old(self).trail,
                run_accepted(&cm, before, count as nat),
                count > 0 ==> before.position() + count <= before.stream.values.len(),
            decreases before.stream.values.len() - count,
        {
            let (result, _) = consumer.next();
            match result {
                TextParserResult::Value(ch) => {
                    if cm.match_char(ch) {
                        count += 1;
                    } else {
                        self.consume(count);
                        proof {
                            assert(self@.marks =~= before.observed(count as nat).advanced(
                                count as nat,
                            ).marks);
                        }
                        return Ok(count);
                    }
                },
                TextParserResult::Failed(err) => {
                    return Err(err);
                },
                TextParserResult::End => {
                    self.consume(count);
                    proof {
                        assert(self@.marks =~= before.observed(count as nat).advanced(
                            count as nat,
                        ).marks);
                    }
                    return Ok(count);
                },
            }
        }
    }

    fn consume_if<M: CharMatcher>(&mut self, cm: M) -> (found: bool)
        ensures
            final(self).idx == old(self).idx + if found {
                1int
            } else {
                0int
            },
            final(self).start == old(self).start,
            final(self).trail == old(self).trail,
            final(self).outer == old(self).outer,
            final(self).lexer@ == old(self).lexer@.observed(
                (old(self).start + old(self).idx) as nat,
            ),
            *final(final(self).lexer) == *final(old(self).lexer),
    {
        let ghost before = self@;
        let mut consumer = self.consumer();
        match consumer.next().0 {
            TextParserResult::Value(c) => {
                if cm.match_char(c) {
                    consumer.apply();
                    proof {
                        assert(self@.marks =~= before.observed(0).advanced(1).marks);
                    }
                    true
                } else {
                    false
                }
            },
            _ => false,
        }
    }
}

} // verus!
