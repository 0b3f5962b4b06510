//! Failures of a decode, each with a snapshot of both streams.
use vstd::prelude::*;
use crate::bytes::tail_window;
use crate::sink::ByteWriter;
use crate::source::{ByteReader, IoFailure};

verus! {

/// The state of the input at the point of failure.
#[derive(Debug)]
pub struct ReadContext {
    /// The offending byte, if one was read.
    pub byte: Option<u8>,
    /// The number of bytes read, the offending one included.
    pub pos: usize,
    /// The bytes read last.
    pub latest_bytes: Vec<u8>,
}

/// The state of the output at the point of failure.
#[derive(Debug)]
pub struct WriteContext {
    /// The offending input byte, which was not written.
    pub byte: Option<u8>,
    /// The number of bytes written.
    pub pos: usize,
    /// The bytes written last.
    pub latest_bytes: Vec<u8>,
}

/// Why a decode failed.
#[derive(Debug)]
pub enum Error {
    /// The input ended inside an integer.
    UnexpectedEndOfInputParsingInteger(ReadContext, WriteContext),
    /// A byte that an integer cannot hold at that point.
    UnexpectedByteParsingInteger(ReadContext, WriteContext),
    /// A digit after a leading zero.
    LeadingZerosInIntegersNotAllowed(ReadContext, WriteContext),
    /// The input ended inside the length of a byte string.
    UnexpectedEndOfInputParsingString(ReadContext, WriteContext),
    /// The length of a byte string is empty, too long, or not ended by a colon.
    MalformedLength(ReadContext, WriteContext),
    /// The input ended inside the bytes of a byte string.
    TruncatedStringBody(ReadContext, WriteContext),
    /// The input ended inside a list.
    UnexpectedEndOfInputParsingList(ReadContext, WriteContext),
    /// The input ended inside a dictionary.
    UnexpectedEndOfInputParsingDictionary(ReadContext, WriteContext),
    /// A dictionary key that is not a byte string.
    UnexpectedByteParsingDictionary(ReadContext, WriteContext),
    /// The input ended where a value was due.
    UnexpectedEndOfInputParsingValue(ReadContext, WriteContext),
    /// A byte that starts no value.
    UnexpectedByteParsingValue(ReadContext, WriteContext),
    /// Containers nested deeper than allowed.
    MaxNestingExceeded(ReadContext, WriteContext),
    /// The source failed for a reason other than its end.
    Io(IoFailure),
}

/// The grammar failures, without their contexts.
pub enum Fault {
    UnexpectedEndOfInputParsingInteger,
    UnexpectedByteParsingInteger,
    LeadingZerosInIntegersNotAllowed,
    UnexpectedEndOfInputParsingString,
    MalformedLength,
    TruncatedStringBody,
    UnexpectedEndOfInputParsingList,
    UnexpectedEndOfInputParsingDictionary,
    UnexpectedByteParsingDictionary,
    UnexpectedEndOfInputParsingValue,
    UnexpectedByteParsingValue,
    MaxNestingExceeded,
}

impl Fault {
    /// The failure is met where the source has no byte left.
    pub open spec fn at_end_of_input(self) -> bool {
        ||| self is UnexpectedEndOfInputParsingInteger
        ||| self is UnexpectedEndOfInputParsingString
        ||| self is TruncatedStringBody
        ||| self is UnexpectedEndOfInputParsingList
        ||| self is UnexpectedEndOfInputParsingDictionary
        ||| self is UnexpectedEndOfInputParsingValue
    }
}

impl Error {
    /// The grammar failure this error reports, with its two contexts.
    pub open spec fn parts(self) -> Option<(Fault, ReadContext, WriteContext)> {
        match self {
            Error::UnexpectedEndOfInputParsingInteger(r, w) => Some((Fault::UnexpectedEndOfInputParsingInteger, r, w)),
            Error::UnexpectedByteParsingInteger(r, w) => Some((Fault::UnexpectedByteParsingInteger, r, w)),
            Error::LeadingZerosInIntegersNotAllowed(r, w) => Some((Fault::LeadingZerosInIntegersNotAllowed, r, w)),
            Error::UnexpectedEndOfInputParsingString(r, w) => Some((Fault::UnexpectedEndOfInputParsingString, r, w)),
            Error::MalformedLength(r, w) => Some((Fault::MalformedLength, r, w)),
            Error::TruncatedStringBody(r, w) => Some((Fault::TruncatedStringBody, r, w)),
            Error::UnexpectedEndOfInputParsingList(r, w) => Some((Fault::UnexpectedEndOfInputParsingList, r, w)),
            Error::UnexpectedEndOfInputParsingDictionary(r, w) => Some((Fault::UnexpectedEndOfInputParsingDictionary, r, w)),
            Error::UnexpectedByteParsingDictionary(r, w) => Some((Fault::UnexpectedByteParsingDictionary, r, w)),
            Error::UnexpectedEndOfInputParsingValue(r, w) => Some((Fault::UnexpectedEndOfInputParsingValue, r, w)),
            Error::UnexpectedByteParsingValue(r, w) => Some((Fault::UnexpectedByteParsingValue, r, w)),
            Error::MaxNestingExceeded(r, w) => Some((Fault::MaxNestingExceeded, r, w)),
            Error::Io(_) => None,
        }
    }

    /// This error reports `fault` at the offending `byte`, with `reader` and
    /// `writer` as they stood then; where the fault is met at the end of a
    /// source that ends in `failure`, it is that I/O failure instead.
    pub open spec fn reports(
        self,
        fault: Fault,
        byte: Option<u8>,
        failure: Option<IoFailure>,
        reader: ByteReader,
        writer: ByteWriter,
    ) -> bool {
        if fault.at_end_of_input() && failure is Some {
            self matches Error::Io(g) && g.message@ == failure->Some_0.message@
        } else {
            &&& self.parts() is Some
            &&& self.parts()->Some_0.0 == fault
            &&& self.parts()->Some_0.1.describes(reader, byte)
            &&& self.parts()->Some_0.2.describes(writer, byte)
        }
    }
}

impl ReadContext {
    /// This context describes `reader` as it stands, with `byte` as the offending byte.
    pub open spec fn describes(&self, reader: ByteReader, byte: Option<u8>) -> bool {
        &&& self.byte == byte
        &&& self.pos == reader.pos()
        &&& self.latest_bytes@ == tail_window(reader.consumed())
    }
}

impl WriteContext {
    /// This context describes `writer` as it stands, with `byte` as the offending byte.
    pub open spec fn describes(&self, writer: ByteWriter, byte: Option<u8>) -> bool {
        &&& self.byte == byte
        &&& self.pos == writer.written().len()
        &&& self.latest_bytes@ == tail_window(writer.written())
    }
}

/// Takes the snapshot of both streams that every failure carries.
pub fn snapshot(reader: &ByteReader, writer: &ByteWriter, byte: Option<u8>) -> (r: (ReadContext, WriteContext))
    requires
        reader.wf(),
        writer.wf(),
    ensures
        r.0.describes(*reader, byte),
        r.1.describes(*writer, byte),
{
    let read = ReadContext {
        byte,
        pos: reader.input_byte_counter(),
        latest_bytes: reader.captured_bytes(),
    };
    let write = WriteContext {
        byte,
        pos: writer.output_byte_counter(),
        latest_bytes: writer.captured_bytes(),
    };
    (read, write)
}

} // verus!
