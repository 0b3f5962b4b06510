//! The byte sink: an output buffer written front to back, with a position
//! counter and a window of the bytes written last.
use vstd::prelude::*;
use crate::bytes::{copy_bytes, push_to_window, tail_window, lemma_tail_window_push};

verus! {

/// A sequential byte consumer that keeps what it is given in memory.
///
/// Writing to memory cannot fail; handing the bytes on to a file or a socket,
/// and any failure there, is left to the owner of the sink.
pub struct ByteWriter {
    out: Vec<u8>,
    captured: Vec<u8>,
}

impl ByteWriter {
    /// The bytes written so far.
    pub closed spec fn written(&self) -> Seq<u8> {
        self.out@
    }

    pub closed spec fn wf(&self) -> bool {
        self.captured@ == tail_window(self.out@)
    }

    /// An empty sink.
    pub fn new() -> (r: ByteWriter)
        ensures
            r.wf(),
            r.written() == Seq::<u8>::empty(),
    {
        let r = ByteWriter { out: Vec::new(), captured: Vec::new() };
        assert(r.captured@ =~= tail_window(r.out@));
        r
    }

    /// Appends one byte.
    pub fn write_byte(&mut self, b: u8)
        requires
            old(self).wf(),
        ensures
            final(self).wf(),
            final(self).written() == old(self).written().push(b),
    {
        proof {
            lemma_tail_window_push(self.out@, b);
        }
        push_to_window(&mut self.captured, b);
        self.out.push(b);
    }

    /// The number of bytes written so far.
    pub fn output_byte_counter(&self) -> (r: usize)
        requires
            self.wf(),
        ensures
            r == self.written().len(),
    {
        self.out.len()
    }

    /// A copy of the window of the bytes written last.
    pub fn captured_bytes(&self) -> (r: Vec<u8>)
        requires
            self.wf(),
        ensures
            r@ == tail_window(self.written()),
    {
        copy_bytes(&self.captured)
    }

    /// Everything written, handed over.
    pub fn into_bytes(self) -> (r: Vec<u8>)
        ensures
            r@ == self.written(),
    {
        self.out
    }
}

} // verus!
