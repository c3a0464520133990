use vstd::prelude::*;

verus! {

/// What one read of a byte source gives.
#[derive(Debug, Clone, Copy, PartialEq, Eq, Structural)]
pub enum ByteRead {
    /// The next byte of the input.
    Byte(u8),
    /// The input is exhausted.
    End,
    /// The source could not deliver.
    Failed,
}

/// What a read gives on a source that still holds `pending` and that, once
/// these are used up, fails if `broken` and ends otherwise.
pub open spec fn next_read(pending: Seq<u8>, broken: bool) -> ByteRead {
    if pending.len() > 0 {
        ByteRead::Byte(pending[0])
    } else if broken {
        ByteRead::Failed
    } else {
        ByteRead::End
    }
}

/// What is left of `pending` after one read.
pub open spec fn after_read(pending: Seq<u8>) -> Seq<u8> {
    if pending.len() > 0 {
        pending.drop_first()
    } else {
        pending
    }
}

/// A producer of bytes, read one at a time and never pushed back.
///
/// A source is a finite run of bytes followed by either a clean end or a
/// failure. Both are fixed from the start, whether or not the bytes are in
/// memory yet: `pending` and `broken` name them.
pub trait ByteSource {
    /// The bytes that have not been read yet, in order.
    spec fn pending(&self) -> Seq<u8>;

    /// Whether a read after the last pending byte fails instead of
    /// reporting the end.
    spec fn broken(&self) -> bool;

    /// Takes the next byte from the source.
    fn next_byte(&mut self) -> (r: ByteRead)
        ensures
            r == next_read(old(self).pending(), old(self).broken()),
            final(self).pending() == after_read(old(self).pending()),
            final(self).broken() == old(self).broken(),
    ;
}

/// A slice in memory is a source that never fails: each read takes its
/// first byte off.
impl<'a> ByteSource for &'a [u8] {
    open spec fn pending(&self) -> Seq<u8> {
        (*self)@
    }

    open spec fn broken(&self) -> bool {
        false
    }

    fn next_byte(&mut self) -> (r: ByteRead) {
        if self.len() == 0 {
            ByteRead::End
        } else {
            let byte = self[0];
            *self = vstd::slice::slice_subrange(*self, 1, self.len());
            ByteRead::Byte(byte)
        }
    }
}

/// A piece of a stream that is held in memory. Where the stream is not
/// `complete` with it, a read past its last byte fails: there is more to
/// come, and it is not here.
#[derive(Debug, Clone, Copy)]
pub struct Chunk<'a> {
    pub bytes: &'a [u8],
    pub complete: bool,
}

impl<'a> ByteSource for Chunk<'a> {
    open spec fn pending(&self) -> Seq<u8> {
        self.bytes@
    }

    open spec fn broken(&self) -> bool {
        !self.complete
    }

    fn next_byte(&mut self) -> (r: ByteRead) {
        if self.bytes.len() == 0 {
            if self.complete {
                ByteRead::End
            } else {
                ByteRead::Failed
            }
        } else {
            let byte = self.bytes[0];
            self.bytes = vstd::slice::slice_subrange(self.bytes, 1, self.bytes.len());
            ByteRead::Byte(byte)
        }
    }
}

} // verus!
