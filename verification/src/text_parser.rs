use crate::char_parsing::{decode_scalar, read_char};
use crate::cursor::{chain_fits, lemma_viewed_valid, CursorState};
use crate::source::ByteSource;
use crate::stream::{
    bytes_taken, decode_stream, lemma_bytes_taken_next, lemma_decode_stream_step, Stream,
};
use crate::util::ParseError;
use vstd::prelude::*;

verus! {

/// The trait for the text parser
///
/// Can be used to create a custom implementation of the TextParser struct
pub trait TextParserTrait: View<V = CursorState> + Sized {
    /// What the type's own fields must satisfy for `self@` to be meaningful.
    spec fn wf(&self) -> bool;

    /// A well-formed value stands for a valid state, at a place that fits
    /// the machine.
    proof fn lemma_wf(&self)
        requires
            self.wf(),
        ensures
            self@.valid(),
            self@.position() <= usize::MAX,
    ;

    /// Get the current character position of the parser: the index of the
    /// value that was passed last.
    fn position(&self) -> (p: usize)
        requires
            self.wf(),
            self@.committed() > 0,
        ensures
            p == self@.position() - 1,
    ;

    /// Get the character at the given offset from the current position
    fn get(&mut self, offset: usize) -> (r: Option<Result<char, ParseError>>)
        requires
            old(self).wf(),
            old(self)@.position() + offset <= usize::MAX,
        ensures
            final(self).wf(),
            r == old(self)@.peek(offset as nat),
            final(self)@ == old(self)@.observed(offset as nat),
    ;

    /// Consume the given number of characters
    fn consume(&mut self, count: usize)
        requires
            old(self).wf(),
            old(self)@.can_consume(count as nat),
            old(self)@.position() + count <= usize::MAX,
        ensures
            final(self).wf(),
            final(self)@ == old(self)@.advanced(count as nat),
    ;
}

/// The trait for the peeker
/// Can be used to create a custom implementation of the Peeker struct
pub trait PeekerTrait: TextParserTrait {
    /// Gives the character at the current position and steps over it.
    fn next(&mut self) -> (r: Option<Result<char, ParseError>>)
        requires
            old(self).wf(),
            old(self)@.position() < usize::MAX,
        ensures
            final(self).wf(),
            r == old(self)@.peek(0),
            final(self)@ == old(self)@.observed(0).advanced(1),
    ;

    /// Lets you go back the given number of characters
    fn back(&mut self, amount: usize)
        requires
            old(self).wf(),
            amount <= old(self)@.local_index(),
        ensures
            final(self).wf(),
            final(self)@ == old(self)@.rewound(amount as nat),
    ;

    /// Makes the underlying text parser, which may be another peeker, consume all the characters that this peeker peeked
    fn apply(self)
        requires
            self.wf(),
    ;
}

/// A cursor on the characters that a byte source holds. It decodes ahead
/// as far as it is asked to look, keeps what it has decoded until that is
/// consumed, and once decoding has met the end of the input or an error,
/// reads no further.
pub struct TextParser<R: ByteSource> {
    /// The position of the buffer
    read_pos: usize,
    /// The buffer containing all available characters
    buffer: Vec<char>,
    /// The reader the parser is reading from
    reader: R,
    /// Whether an error/eof has been encountered
    errored: bool,
    /// What was encountered, once `errored` is set: `None` for the end
    fault: Option<ParseError>,
    /// The bytes that the reader held when the parser was made
    input: Ghost<Seq<u8>>,
    /// The whole input as it decodes
    stream: Ghost<Stream>,
}

impl<R: ByteSource> View for TextParser<R> {
    type V = CursorState;

    closed spec fn view(&self) -> CursorState {
        CursorState {
            stream: self.stream@,
            marks: seq![self.read_pos as nat],
            seen: if self.errored {
                self.stream@.values.len() + 1
            } else {
                (self.read_pos + self.buffer@.len()) as nat
            },
        }
    }
}

impl<R: ByteSource> TextParser<R> {
    /// The reader as the parser holds it.
    pub closed spec fn reader(&self) -> R {
        self.reader
    }

    /// The bytes that the reader held when the parser was made.
    pub closed spec fn input(&self) -> Seq<u8> {
        self.input@
    }

    /// The parser has taken from its reader the bytes of the decoding steps
    /// that it has made, and no others: `self@.seen` counts these steps.
    /// Until a step has given no value, what the reader has left decodes to
    /// the part of the stream that has not been decoded yet.
    pub proof fn lemma_reader(&self)
        requires
            self.wf(),
        ensures
            self@.stream == decode_stream(self.input(), self.reader().broken()),
            self.reader().pending() == self.input().skip(
                bytes_taken(self.input(), self.reader().broken(), self@.seen) as int,
            ),
            !self@.faulted() ==> decode_stream(self.reader().pending(), self.reader().broken())
                == self@.stream.skip(self@.seen),
    {
        if !self@.faulted() {
            lemma_bytes_taken_next(self.input(), self.reader().broken(), self@.seen);
        }
    }

    /// Creates a new parser
    pub fn new(reader: R) -> (parser: Self)
        ensures
            parser.wf(),
            parser@ == CursorState::start(decode_stream(reader.pending(), reader.broken())),
            parser.reader() == reader,
            parser.input() == reader.pending(),
    {
        let ghost input = reader.pending();
        let ghost stream = decode_stream(input, reader.broken());
        proof {
            assert(input.skip(0) =~= input);
        }
        Self {
            read_pos: 0,
            buffer: Vec::new(),
            reader,
            errored: false,
            fault: None,
            input: Ghost(input),
            stream: Ghost(stream),
        }
    }

    /// Returns a `Peeker` used for parsing ahead without affecting the parser
    pub fn peeker(&mut self) -> (p: Peeker<'_, Self>)
        requires
            old(self).wf(),
        ensures
            p.wf(),
            p@ == old(self)@.derived(),
            p.idx == 0,
            p.start == 0,
            p.outer is None,
            p.trail@.len() == 0,
            *p.parser == *old(self),
            *final(p.parser) == *final(self),
    {
        Peeker::new(self)
    }
}

impl<R: ByteSource> TextParserTrait for TextParser<R> {
    closed spec fn wf(&self) -> bool {
        let n = self.stream@.values.len();
        let held = self.read_pos + self.buffer@.len();
        let broken = self.reader.broken();
        &&& self.stream@ == decode_stream(self.input@, broken)
        &&& self.reader.pending() == self.input@.skip(
            bytes_taken(self.input@, broken, self@.seen) as int,
        )
        &&& self.buffer@.len() > 0 ==> held <= n
        &&& forall|i: int|
            0 <= i < self.buffer@.len() ==> self.buffer@[i] == self.stream@.values[self.read_pos
                + i]
        &&& if self.errored {
            &&& self.fault == self.stream@.fault
            &&& held >= n
        } else {
            held <= n
        }
    }

    proof fn lemma_wf(&self) {
    }

    fn position(&self) -> (p: usize) {
        self.read_pos - 1
    }

    fn get(&mut self, offset: usize) -> (r: Option<Result<char, ParseError>>)
        ensures
            final(self).input() == old(self).input(),
            final(self).reader().broken() == old(self).reader().broken(),
            old(self)@.settled(offset as nat) ==> final(self).reader() == old(self).reader(),
    {
        while offset >= self.buffer.len()
            invariant
                self.wf(),
                self.errored || self.buffer@.len() == old(self).buffer@.len() ==> self.reader
                    == old(self).reader,
                self.stream@ == old(self).stream@,
                self.input@ == old(self).input@,
                self.reader.broken() == old(self).reader.broken(),
                self.read_pos == old(self).read_pos,
                self.errored == old(self).errored,
                self.buffer@.len() >= old(self).buffer@.len(),
                self.buffer@.len() == old(self).buffer@.len() || self.buffer@.len() <= offset + 1,
            decreases offset + 1 - self.buffer@.len(),
        {
            if self.errored {
                return match self.fault {
                    Some(err) => Some(Err(err)),
                    None => None,
                };
            }
            proof {
                let held = (self.read_pos + self.buffer@.len()) as nat;
                let broken = self.reader.broken();
                lemma_bytes_taken_next(self.input@, broken, held);
                lemma_decode_stream_step(self.reader.pending(), broken, self.stream@, held);
                let taken = bytes_taken(self.input@, broken, held);
                let used = decode_scalar(self.reader.pending(), broken).used;
                assert(self.input@.skip(taken as int).skip(used as int) =~= self.input@.skip(
                    (taken + used) as int,
                ));
            }
            match read_char(&mut self.reader) {
                Some(Ok(ok)) => {
                    self.buffer.push(ok);
                },
                Some(Err(err)) => {
                    self.errored = true;
                    self.fault = Some(err);
                    return Some(Err(err));
                },
                None => {
                    self.errored = true;
                    self.fault = None;
                    return None;
                },
            }
        }
        Some(Ok(self.buffer[offset]))
    }

    fn consume(&mut self, count: usize)
        ensures
            final(self).input() == old(self).input(),
            final(self).reader() == old(self).reader(),
    {
        if count > self.buffer.len() {
            if !self.errored {
                // more than was ever looked at: only a caller that nothing
                // has verified can get here
                unreached::<()>();
            }
            self.buffer.clear();
        } else {
            self.buffer = self.buffer.split_off(count);
        }
        self.read_pos = self.read_pos + count;
        proof {
            assert(final(self)@.marks =~= old(self)@.advanced(count as nat).marks);
        }
    }
}

/// A view on a parser: it steps ahead on a count of its own and leaves the
/// parser where it is until it is applied.
///
/// A view derived from another view reads from the same parser. What it
/// holds of the outer view is that view's count, to which its own is added
/// when it is applied.
pub struct Peeker<'a, T: TextParserTrait> {
    /// The parser that this view, and every view outside it, reads from
    pub parser: &'a mut T,
    /// The count of the view that this one was derived from
    pub outer: Option<&'a mut usize>,
    /// How far from the parser's position this view began
    pub start: usize,
    /// How far this view has gone since
    pub idx: usize,
    /// The places of the views outside this one, outermost first
    pub trail: Ghost<Seq<nat>>,
}

impl<'a, L: TextParserTrait> View for Peeker<'a, L> {
    type V = CursorState;

    open spec fn view(&self) -> CursorState {
        self.parser@.viewed(self.trail@, self.place())
    }
}

impl<'a, L: TextParserTrait> Peeker<'a, L> {
    /// The absolute place at which this view stands.
    pub open spec fn place(&self) -> nat {
        (self.parser@.position() + self.start + self.idx) as nat
    }

    /// The count that `outer` holds, if there is a view outside this one.
    pub open spec fn outer_count(&self) -> Option<nat> {
        match self.outer {
            Some(count) => Some(*count as nat),
            None => None,
        }
    }

    /// A view on `parser`, at the parser's position.
    pub fn new(parser: &'a mut L) -> (p: Self)
        requires
            old(parser).wf(),
        ensures
            p.wf(),
            p@ == old(parser)@.derived(),
            p.idx == 0,
            p.start == 0,
            p.outer is None,
            p.trail@.len() == 0,
            *p.parser == *old(parser),
            *final(p.parser) == *final(parser),
    {
        proof {
            parser.lemma_wf();
            assert(parser@.marks + Seq::<nat>::empty() =~= parser@.marks);
        }
        Self { parser, outer: None, start: 0, idx: 0, trail: Ghost(Seq::empty()) }
    }

    /// A view on this view, at this view's position. While it is open this
    /// view cannot be used; what is left of this view afterwards is what the
    /// new view leaves in `parser` and in `outer`.
    pub fn peeker(&mut self) -> (p: Peeker<'_, L>)
        requires
            old(self).wf(),
        ensures
            p.wf(),
            p@ == old(self)@.derived(),
            p.idx == 0,
            p.start == old(self).start + old(self).idx,
            p.trail@ == old(self).trail@.push(old(self)@.position()),
            *p.parser == *old(self).parser,
            p.outer matches Some(count) && *count == old(self).idx
                && *final(count) == final(self).idx,
            *final(self).parser == *final(p.parser),
            *final(final(self).parser) == *final(old(self).parser),
            final(self).outer == old(self).outer,
            final(self).start == old(self).start,
            final(self).trail == old(self).trail,
    {
        proof {
            self.lemma_wf();
        }
        let start = self.start + self.idx;
        let ghost trail = self.trail@.push(self@.position());
        let p = Peeker {
            parser: &mut *self.parser,
            outer: Some(&mut self.idx),
            start,
            idx: 0,
            trail: Ghost(trail),
        };
        proof {
            assert(p@.marks =~= old(self)@.derived().marks);
        }
        p
    }
}

impl<'a, L: TextParserTrait> TextParserTrait for Peeker<'a, L> {
    open spec fn wf(&self) -> bool {
        let root = self.parser@;
        &&& self.parser.wf()
        &&& chain_fits(root.position(), self.trail@, self.start as nat, self.outer_count())
        &&& self.place() <= usize::MAX
        &&& (root.faulted() || self.place() <= root.seen)
    }

    proof fn lemma_wf(&self) {
        self.parser.lemma_wf();
        lemma_viewed_valid(
            self.parser@,
            self.trail@,
            self.start as nat,
            self.outer_count(),
            self.place(),
        );
    }

    fn position(&self) -> (p: usize) {
        proof {
            self.parser.lemma_wf();
        }
        self.parser.position() + self.start + self.idx
    }

    fn get(&mut self, offset: usize) -> (r: Option<Result<char, ParseError>>)
        ensures
            final(self).idx == old(self).idx,
            final(self).start == old(self).start,
            final(self).trail == old(self).trail,
            final(self).outer == old(self).outer,
            final(self).parser@ == old(self).parser@.observed(
                (old(self).start + old(self).idx + offset) as nat,
            ),
            *final(final(self).parser) == *final(old(self).parser),
    {
        proof {
            self.parser.lemma_wf();
        }
        self.parser.get(self.start + self.idx + offset)
    }

    fn consume(&mut self, count: usize)
        ensures
            final(self).idx == old(self).idx + count,
            final(self).start == old(self).start,
            final(self).trail == old(self).trail,
            final(self).outer == old(self).outer,
            final(self).parser == old(self).parser,
    {
        proof {
            self.parser.lemma_wf();
        }
        self.idx += count;
        proof {
            assert(final(self)@.marks =~= old(self)@.advanced(count as nat).marks);
        }
    }
}

impl<'a, T: TextParserTrait> PeekerTrait for Peeker<'a, T> {
    fn next(&mut self) -> (r: Option<Result<char, ParseError>>)
        ensures
            final(self).idx == old(self).idx + 1,
            final(self).start == old(self).start,
            final(self).trail == old(self).trail,
            final(self).outer == old(self).outer,
            final(self).parser@ == old(self).parser@.observed(
                (old(self).start + old(self).idx) as nat,
            ),
            *final(final(self).parser) == *final(old(self).parser),
    {
        proof {
            self.parser.lemma_wf();
        }
        let result = self.parser.get(self.start + self.idx);
        self.idx += 1;
        proof {
            assert(final(self)@.marks =~= old(self)@.observed(0).advanced(1).marks);
        }
        result
    }

    fn apply(self)
        ensures
            self.outer is None ==> final(self.parser).wf() && final(self.parser)@
                == self@.applied(),
            self.outer matches Some(count) ==> *final(count) == *count + self.idx
                && *final(self.parser) == *old(self.parser),
    {
        let ghost view = self@;
        proof {
            self.parser.lemma_wf();
            if self.outer is None {
                assert(self.parser@.marks + self.trail@ =~= self.parser@.marks);
                assert(view.parent().marks =~= self.parser@.marks);
                assert(view.local_index() == self.idx);
            }
        }
        match self.outer {
            Some(count) => {
                *count += self.idx;
            },
            None => {
                self.parser.consume(self.idx);
            },
        }
    }

    fn back(&mut self, amount: usize)
        ensures
            final(self).idx == old(self).idx - amount,
            final(self).start == old(self).start,
            final(self).trail == old(self).trail,
            final(self).outer == old(self).outer,
            final(self).parser == old(self).parser,
    {
        proof {
            self.parser.lemma_wf();
            assert(old(self)@.local_index() == old(self).idx);
        }
        if amount > self.idx {
            // further back than the view has gone: only a caller that
            // nothing has verified can get here
            unreached::<()>();
        }
        self.idx -= amount;
        proof {
            assert(final(self)@.marks =~= old(self)@.rewound(amount as nat).marks);
        }
    }
}

} // verus!
