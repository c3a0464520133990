use crate::cursor::{chain_fits, lemma_viewed_valid, CursorState};
use crate::source::ByteSource;
use crate::stream::{bytes_taken, decode_stream};
use crate::text_parser::{TextParser, TextParserTrait};
use crate::util::{LexerResult, TextParserResult};
use vstd::prelude::*;

verus! {

/// An absolute place in the input, counted in characters.
pub type Pos = usize;

/// A cursor that tells, with each character, the place at which it stands.
pub trait Lexer: View<V = CursorState> + Sized {
    /// What the type's own fields must satisfy for `self@` to be meaningful.
    spec fn wf(&self) -> bool;

    /// A well-formed value stands for a valid state, at a place that fits
    /// the machine.
    proof fn lemma_wf(&self)
        requires
            self.wf(),
        ensures
            self@.valid(),
            self@.position() <= usize::MAX,
    ;

    /// Get the current character position of the lexer: the index of the
    /// character that was passed last.
    fn current_pos(&self) -> (p: usize)
        requires
            self.wf(),
            self@.committed() > 0,
        ensures
            p == self@.position() - 1,
    ;

    /// Get the character at the given offset from the current position,
    /// and the absolute place at which it stands
    fn get(&mut self, offset: usize) -> (r: (LexerResult, Pos))
        requires
            old(self).wf(),
            old(self)@.position() + offset <= usize::MAX,
        ensures
            final(self).wf(),
            r.0 == LexerResult::of(old(self)@.peek(offset as nat)),
            r.1 == old(self)@.position() + offset,
            final(self)@ == old(self)@.observed(offset as nat),
    ;

    /// Consume the given number of characters
    fn consume(&mut self, count: usize)
        requires
            old(self).wf(),
            old(self)@.can_consume(count as nat),
            old(self)@.position() + count <= usize::MAX,
        ensures
            final(self).wf(),
            final(self)@ == old(self)@.advanced(count as nat),
    ;
}

/// A view on a lexer that steps ahead on its own.
pub trait LexerConsumer: Lexer {
    /// Gives the character at the current position, with its place, and
    /// steps over it.
    fn next(&mut self) -> (r: (LexerResult, Pos))
        requires
            old(self).wf(),
            old(self)@.position() < usize::MAX,
        ensures
            final(self).wf(),
            r.0 == LexerResult::of(old(self)@.peek(0)),
            r.1 == old(self)@.position(),
            final(self)@ == old(self)@.observed(0).advanced(1),
    ;

    /// Makes what the consumer was made on take over the consumer's count.
    fn apply(self)
        requires
            self.wf(),
    ;
}

/// A lexer on the characters that a byte source holds.
pub struct DefaultLexer<R: ByteSource> {
    /// The position of the buffer
    read_pos: usize,
    /// The buffered parser that holds the characters and the reader
    parser: TextParser<R>,
}

impl<R: ByteSource> View for DefaultLexer<R> {
    type V = CursorState;

    closed spec fn view(&self) -> CursorState {
        self.parser@
    }
}

impl<R: ByteSource> DefaultLexer<R> {
    /// The reader as the lexer holds it.
    pub closed spec fn reader(&self) -> R {
        self.parser.reader()
    }

    /// The bytes that the reader held when the lexer was made.
    pub closed spec fn input(&self) -> Seq<u8> {
        self.parser.input()
    }

    /// The lexer has taken from its reader the bytes of the decoding steps
    /// that it has made, and no others: `self@.seen` counts these steps.
    /// Until a step has given no value, what the reader has left decodes to
    /// the part of the stream that has not been decoded yet.
    pub proof fn lemma_reader(&self)
        requires
            self.wf(),
        ensures
            self@.stream == decode_stream(self.input(), self.reader().broken()),
            self.reader().pending() == self.input().skip(
                bytes_taken(self.input(), self.reader().broken(), self@.seen) as int,
            ),
            !self@.faulted() ==> decode_stream(self.reader().pending(), self.reader().broken())
                == self@.stream.skip(self@.seen),
    {
        self.parser.lemma_reader();
    }

    /// Creates a new lexer
    pub fn new(reader: R) -> (lexer: Self)
        ensures
            lexer.wf(),
            lexer@ == CursorState::start(decode_stream(reader.pending(), reader.broken())),
            lexer.reader() == reader,
            lexer.input() == reader.pending(),
    {
        Self { read_pos: 0, parser: TextParser::new(reader) }
    }

    /// Returns a `LexerConsumer` used for parsing ahead without affecting the lexer
    pub fn consumer(&mut self) -> (c: DefaultLexerConsumer<'_, Self>)
        requires
            old(self).wf(),
        ensures
            c.wf(),
            c@ == old(self)@.derived(),
            c.idx == 0,
            c.start == 0,
            c.outer is None,
            c.trail@.len() == 0,
            *c.lexer == *old(self),
            *final(c.lexer) == *final(self),
    {
        DefaultLexerConsumer::new(self)
    }
}

impl<R: ByteSource> Lexer for DefaultLexer<R> {
    closed spec fn wf(&self) -> bool {
        &&& self.parser.wf()
        &&& self.read_pos == self.parser@.position()
    }

    proof fn lemma_wf(&self) {
        self.parser.lemma_wf();
    }

    fn current_pos(&self) -> (p: usize) {
        self.parser.position()
    }

    fn get(&mut self, offset: usize) -> (r: (LexerResult, Pos))
        ensures
            final(self).input() == old(self).input(),
            final(self).reader().broken() == old(self).reader().broken(),
            old(self)@.settled(offset as nat) ==> final(self).reader() == old(self).reader(),
    {
        let found = self.parser.get(offset);
        (TextParserResult::from(found), offset + self.read_pos)
    }

    fn consume(&mut self, count: usize)
        ensures
            final(self).input() == old(self).input(),
            final(self).reader() == old(self).reader(),
    {
        proof {
            self.parser.lemma_wf();
        }
        self.parser.consume(count);
        self.read_pos += count;
    }
}

/// A view on a lexer: it steps ahead on a count of its own and leaves the
/// lexer where it is until it is applied.
///
/// A view derived from another view reads from the same lexer. What it
/// holds of the outer view is that view's count, to which its own is added
/// when it is applied.
pub struct DefaultLexerConsumer<'a, T: Lexer> {
    /// The lexer that this view, and every view outside it, reads from
    pub lexer: &'a mut T,
    /// The count of the view that this one was derived from
    pub outer: Option<&'a mut usize>,
    /// How far from the lexer's position this view began
    pub start: usize,
    /// How far this view has gone since
    pub idx: usize,
    /// The places of the views outside this one, outermost first
    pub trail: Ghost<Seq<nat>>,
}

impl<'a, L: Lexer> View for DefaultLexerConsumer<'a, L> {
    type V = CursorState;

    open spec fn view(&self) -> CursorState {
        self.lexer@.viewed(self.trail@, self.place())
    }
}

impl<'a, L: Lexer> DefaultLexerConsumer<'a, L> {
    /// The absolute place at which this view stands.
    pub open spec fn place(&self) -> nat {
        (self.lexer@.position() + self.start + self.idx) as nat
    }

    /// The count that `outer` holds, if there is a view outside this one.
    pub open spec fn outer_count(&self) -> Option<nat> {
        match self.outer {
            Some(count) => Some(*count as nat),
            None => None,
        }
    }

    /// A view on `lexer`, at the lexer's position.
    pub fn new(lexer: &'a mut L) -> (c: Self)
        requires
            old(lexer).wf(),
        ensures
            c.wf(),
            c@ == old(lexer)@.derived(),
            c.idx == 0,
            c.start == 0,
            c.outer is None,
            c.trail@.len() == 0,
            *c.lexer == *old(lexer),
            *final(c.lexer) == *final(lexer),
    {
        proof {
            lexer.lemma_wf();
            assert(lexer@.marks + Seq::<nat>::empty() =~= lexer@.marks);
        }
        Self { lexer, outer: None, start: 0, idx: 0, trail: Ghost(Seq::empty()) }
    }

    /// A view on this view, at this view's position. While it is open this
    /// view cannot be used; what is left of this view afterwards is what the
    /// new view leaves in `lexer` and in `outer`.
    pub fn consumer(&mut self) -> (c: DefaultLexerConsumer<'_, L>)
        requires
            old(self).wf(),
        ensures
            c.wf(),
            c@ == old(self)@.derived(),
            c.idx == 0,
            c.start == old(self).start + old(self).idx,
            c.trail@ == old(self).trail@.push(old(self)@.position()),
            *c.lexer == *old(self).lexer,
            c.outer matches Some(count) && *count == old(self).idx
                && *final(count) == final(self).idx,
            *final(self).lexer == *final(c.lexer),
            *final(final(self).lexer) == *final(old(self).lexer),
            final(self).outer == old(self).outer,
            final(self).start == old(self).start,
            final(self).trail == old(self).trail,
    {
        proof {
            self.lemma_wf();
        }
        let start = self.start + self.idx;
        let ghost trail = self.trail@.push(self@.position());
        let c = DefaultLexerConsumer {
            lexer: &mut *self.lexer,
            outer: Some(&mut self.idx),
            start,
            idx: 0,
            trail: Ghost(trail),
        };
        proof {
            assert(c@.marks =~= old(self)@.derived().marks);
        }
        c
    }
}

impl<'a, L: Lexer> Lexer for DefaultLexerConsumer<'a, L> {
    open spec fn wf(&self) -> bool {
        let root = self.lexer@;
        &&& self.lexer.wf()
        &&& chain_fits(root.position(), self.trail@, self.start as nat, self.outer_count())
        &&& self.place() <= usize::MAX
        &&& (root.faulted() || self.place() <= root.seen)
    }

    proof fn lemma_wf(&self) {
        self.lexer.lemma_wf();
        lemma_viewed_valid(
            self.lexer@,
            self.trail@,
            self.start as nat,
            self.outer_count(),
            self.place(),
        );
    }

    fn current_pos(&self) -> (p: usize) {
        proof {
            self.lexer.lemma_wf();
        }
        self.lexer.current_pos() + self.start + self.idx
    }

    fn get(&mut self, offset: usize) -> (r: (LexerResult, Pos))
        ensures
            final(self).idx == old(self).idx,
            final(self).start == old(self).start,
            final(self).trail == old(self).trail,
            final(self).outer == old(self).outer,
            final(self).lexer@ == old(self).lexer@.observed(
                (old(self).start + old(self).idx + offset) as nat,
            ),
            *final(final(self).lexer) == *final(old(self).lexer),
    {
        proof {
            self.lexer.lemma_wf();
        }
        self.lexer.get(self.start + self.idx + offset)
    }

    fn consume(&mut self, count: usize)
        ensures
            final(self).idx == old(self).idx + count,
            final(self).start == old(self).start,
            final(self).trail == old(self).trail,
            final(self).outer == old(self).outer,
            final(self).lexer == old(self).lexer,
    {
        proof {
            self.lexer.lemma_wf();
        }
        self.idx += count;
        proof {
            assert(final(self)@.marks =~= old(self)@.advanced(count as nat).marks);
        }
    }
}

impl<'a, T: Lexer> LexerConsumer for DefaultLexerConsumer<'a, T> {
    fn next(&mut self) -> (r: (LexerResult, Pos))
        ensures
            final(self).idx == old(self).idx + 1,
            final(self).start == old(self).start,
            final(self).trail == old(self).trail,
            final(self).outer == old(self).outer,
            final(self).lexer@ == old(self).lexer@.observed(
                (old(self).start + old(self).idx) as nat,
            ),
            *final(final(self).lexer) == *final(old(self).lexer),
    {
        proof {
            self.lexer.lemma_wf();
        }
        let (ch, idx) = self.lexer.get(self.start + self.idx);
        self.idx += 1;
        proof {
            assert(final(self)@.marks =~= old(self)@.observed(0).advanced(1).marks);
        }
        (ch, idx)
    }

    fn apply(self)
        ensures
            self.outer is None ==> final(self.lexer).wf() && final(self.lexer)@
                == self@.applied(),
            self.outer matches Some(count) ==> *final(count) == *count + self.idx
                && *final(self.lexer) == *old(self.lexer),
    {
        let ghost view = self@;
        proof {
            self.lexer.lemma_wf();
            if self.outer is None {
                assert(self.lexer@.marks + self.trail@ =~= self.lexer@.marks);
                assert(view.parent().marks =~= self.lexer@.marks);
                assert(view.local_index() == self.idx);
            }
        }
        match self.outer {
            Some(count) => {
                *count += self.idx;
            },
            None => {
                self.lexer.consume(self.idx);
            },
        }
    }
}

} // verus!
