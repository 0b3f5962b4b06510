//! The byte source: a sequence of input bytes read front to back, with a
//! position counter and a window of the bytes read last.
//!
//! A stream is modelled by what a reader can ever observe of it: the bytes it
//! delivers, followed either by the end of the stream or by an I/O failure.
use vstd::prelude::*;
use crate::bytes::{copy_bytes, push_to_window, tail_window, lemma_tail_window_push};

verus! {

/// An I/O failure other than the end of the stream.
#[derive(Debug)]
pub struct IoFailure {
    pub message: String,
}

/// Why no byte could be read.
#[derive(Debug)]
pub enum ReadFailure {
    /// The stream has ended.
    EndOfInput,
    /// The underlying source failed.
    Io(IoFailure),
}

/// A sequential byte supplier.
pub struct ByteReader {
    input: Vec<u8>,
    failure: Option<IoFailure>,
    pos: usize,
    captured: Vec<u8>,
}

impl ByteReader {
    /// Every byte the stream delivers, read or not.
    pub closed spec fn input(&self) -> Seq<u8> {
        self.input@
    }

    /// The failure that follows the last byte, if the stream does not simply end.
    pub closed spec fn failure(&self) -> Option<IoFailure> {
        self.failure
    }

    /// The number of bytes read so far.
    pub closed spec fn pos(&self) -> nat {
        self.pos as nat
    }

    /// The bytes read so far.
    pub open spec fn consumed(&self) -> Seq<u8> {
        self.input().take(self.pos() as int)
    }

    /// The bytes not read yet.
    pub open spec fn rest(&self) -> Seq<u8> {
        self.input().skip(self.pos() as int)
    }

    /// The position lies within the input.
    pub open spec fn wf(&self) -> bool {
        &&& self.pos() <= self.input().len()
        &&& self.window_ok()
    }

    /// The window holds the last bytes read.
    pub closed spec fn window_ok(&self) -> bool {
        self.captured@ == tail_window(self.input@.take(self.pos as int))
    }

    /// A reader over `input`, which then ends.
    pub fn new(input: Vec<u8>) -> (r: ByteReader)
        ensures
            r.wf(),
            r.input() == input@,
            r.failure() is None,
            r.pos() == 0,
    {
        let r = ByteReader { input, failure: None, pos: 0, captured: Vec::new() };
        assert(r.captured@ =~= tail_window(r.input@.take(0)));
        r
    }

    /// A reader over `input`, after which the source fails with `failure`.
    pub fn with_failure(input: Vec<u8>, failure: IoFailure) -> (r: ByteReader)
        ensures
            r.wf(),
            r.input() == input@,
            r.failure() == Some(failure),
            r.pos() == 0,
    {
        let r = ByteReader { input, failure: Some(failure), pos: 0, captured: Vec::new() };
        assert(r.captured@ =~= tail_window(r.input@.take(0)));
        r
    }

    /// Reads the next byte: the stream's next byte, its end, or its failure.
    pub fn read_byte(&mut self) -> (r: Result<u8, ReadFailure>)
        requires
            old(self).wf(),
        ensures
            final(self).wf(),
            final(self).input() == old(self).input(),
            final(self).failure() == old(self).failure(),
            old(self).pos() < old(self).input().len() ==> {
                &&& r == Ok::<u8, ReadFailure>(old(self).input()[old(self).pos() as int])
                &&& final(self).pos() == old(self).pos() + 1
            },
            old(self).pos() >= old(self).input().len() ==> {
                &&& final(self).pos() == old(self).pos()
                &&& old(self).failure() is None ==> r == Err::<u8, ReadFailure>(ReadFailure::EndOfInput)
                &&& old(self).failure() is Some ==> r is Err && r->Err_0 is Io
                    && r->Err_0->Io_0.message@ == old(self).failure()->Some_0.message@
            },
    {
        if self.pos < self.input.len() {
            let b = self.input[self.pos];
            proof {
                lemma_tail_window_push(self.input@.take(self.pos as int), b);
                assert(self.input@.take(self.pos as int).push(b) =~= self.input@.take(self.pos + 1));
            }
            push_to_window(&mut self.captured, b);
            self.pos = self.pos + 1;
            Ok(b)
        } else {
            match &self.failure {
                None => Err(ReadFailure::EndOfInput),
                Some(f) => Err(ReadFailure::Io(IoFailure { message: f.message.clone() })),
            }
        }
    }

    /// The next byte without reading it: the stream's next byte, its end, or its failure.
    pub fn peek_byte(&self) -> (r: Result<u8, ReadFailure>)
        requires
            self.wf(),
        ensures
            self.pos() < self.input().len() ==> r == Ok::<u8, ReadFailure>(self.input()[self.pos() as int]),
            self.pos() >= self.input().len() ==> {
                &&& self.failure() is None ==> r == Err::<u8, ReadFailure>(ReadFailure::EndOfInput)
                &&& self.failure() is Some ==> r is Err && r->Err_0 is Io
                    && r->Err_0->Io_0.message@ == self.failure()->Some_0.message@
            },
    {
        if self.pos < self.input.len() {
            Ok(self.input[self.pos])
        } else {
            match &self.failure {
                None => Err(ReadFailure::EndOfInput),
                Some(f) => Err(ReadFailure::Io(IoFailure { message: f.message.clone() })),
            }
        }
    }

    /// The number of bytes read so far.
    pub fn input_byte_counter(&self) -> (r: usize)
        requires
            self.wf(),
        ensures
            r == self.pos(),
    {
        self.pos
    }

    /// A copy of the window of the bytes read last.
    pub fn captured_bytes(&self) -> (r: Vec<u8>)
        requires
            self.wf(),
        ensures
            r@ == tail_window(self.consumed()),
    {
        copy_bytes(&self.captured)
    }
}

} // verus!
