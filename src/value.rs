//! The value dispatcher: picks the decoder for the next value by its first
//! byte, at the top level and for every member of a container.
//!
//! Containers may nest at most as deep as the depth the decode is given; one
//! nested deeper fails with `MaxNestingExceeded`.
use vstd::prelude::*;
use crate::error::{Error, Fault, snapshot};
use crate::integer::{self, BENCODE_END_INTEGER, integer_fault, integer_output, is_digit, scan_integer, ZERO, NINE};
use crate::sink::ByteWriter;
use crate::source::{ByteReader, ReadFailure};
use crate::string::{self, COLON, scan_string};
use crate::list;
use crate::dictionary;

verus! {

/// The byte that starts an integer.
pub const BENCODE_BEGIN_INTEGER: u8 = 0x69;

/// The byte that starts a list.
pub const BENCODE_BEGIN_LIST: u8 = 0x6c;

/// The byte that starts a dictionary.
pub const BENCODE_BEGIN_DICT: u8 = 0x64;

/// The byte that ends a list or a dictionary.
pub const BENCODE_END: u8 = BENCODE_END_INTEGER;

pub const JSON_BEGIN_ARRAY: u8 = 0x5b;

pub const JSON_END_ARRAY: u8 = 0x5d;

pub const JSON_BEGIN_OBJECT: u8 = 0x7b;

pub const JSON_END_OBJECT: u8 = 0x7d;

pub const JSON_COMMA: u8 = 0x2c;

/// How deep containers may nest in a top-level decode.
pub const MAX_NESTING: usize = 512;

/// What decoding reads, writes and how it ends: the number of bytes read,
/// the bytes written, and `None` on success or else the failure with its
/// offending byte.
pub type Scan = (int, Seq<u8>, Option<(Fault, Option<u8>)>);

/// Decoding the integer at the front of `rest`.
pub open spec fn integer_scan(rest: Seq<u8>) -> Scan {
    (scan_integer(rest).0, integer_output(rest), integer_fault(rest))
}

/// The byte that opens the JSON text of a list, or of a dictionary.
pub open spec fn json_open(dict: bool) -> u8 {
    if dict { JSON_BEGIN_OBJECT } else { JSON_BEGIN_ARRAY }
}

/// The byte that closes the JSON text of a list, or of a dictionary.
pub open spec fn json_close(dict: bool) -> u8 {
    if dict { JSON_END_OBJECT } else { JSON_END_ARRAY }
}

/// The failure of a list, or of a dictionary, whose input ends too early.
pub open spec fn container_end_fault(dict: bool) -> Fault {
    if dict {
        Fault::UnexpectedEndOfInputParsingDictionary
    } else {
        Fault::UnexpectedEndOfInputParsingList
    }
}

/// Decoding the value at the front of `rest`, with containers allowed to nest
/// `depth` deep.
pub open spec fn scan_value(rest: Seq<u8>, depth: nat) -> Scan
    decreases depth, 0int, 0int,
{
    if rest.len() == 0 {
        (0, Seq::empty(), Some((Fault::UnexpectedEndOfInputParsingValue, None)))
    } else if rest[0] == BENCODE_BEGIN_INTEGER {
        integer_scan(rest)
    } else if is_digit(rest[0]) {
        scan_string(rest)
    } else if rest[0] == BENCODE_BEGIN_LIST || rest[0] == BENCODE_BEGIN_DICT {
        if depth == 0 {
            (1, Seq::empty(), Some((Fault::MaxNestingExceeded, Some(rest[0]))))
        } else {
            scan_container(rest, (depth - 1) as nat, rest[0] == BENCODE_BEGIN_DICT)
        }
    } else {
        (1, Seq::empty(), Some((Fault::UnexpectedByteParsingValue, Some(rest[0]))))
    }
}

/// Decoding the list (or dictionary, when `dict`) at the front of `rest`,
/// opening marker included, with its members allowed to nest `depth` deep.
pub open spec fn scan_container(rest: Seq<u8>, depth: nat, dict: bool) -> Scan
    decreases depth, 4int, 0int,
{
    if rest.len() == 0 {
        (0, Seq::empty(), Some((container_end_fault(dict), None)))
    } else {
        let (c, o, f) = scan_members(rest, 1, depth, true, dict);
        (c, seq![json_open(dict)] + o, f)
    }
}

/// Decoding a dictionary entry at the front of `rest`: a byte-string key, then
/// a value that may nest `depth` deep. It is written as the key's JSON string,
/// a colon, and the value's JSON text.
pub open spec fn scan_entry(rest: Seq<u8>, depth: nat) -> Scan
    decreases depth, 1int, 0int,
{
    if rest.len() > 0 && !is_digit(rest[0]) {
        (1, Seq::empty(), Some((Fault::UnexpectedByteParsingDictionary, Some(rest[0]))))
    } else {
        let (ck, ok, fk) = scan_string(rest);
        if fk is Some {
            (ck, ok, fk)
        } else {
            let (cv, ov, fv) = scan_value(rest.skip(ck), depth);
            (ck + cv, ok + seq![COLON] + ov, fv)
        }
    }
}

/// Decoding one member of a list (a value) or of a dictionary (an entry).
pub open spec fn scan_member(rest: Seq<u8>, depth: nat, dict: bool) -> Scan
    decreases depth, 2int, 0int,
{
    if dict {
        scan_entry(rest, depth)
    } else {
        scan_value(rest, depth)
    }
}

/// Decoding the members of a container from index `from` of `rest` up to its
/// terminator: the index where decoding stops, what it writes, and how it ends.
/// `first` says whether no member has come yet; members are separated by commas.
pub open spec fn scan_members(rest: Seq<u8>, from: int, depth: nat, first: bool, dict: bool) -> Scan
    decreases depth, 3int, rest.len() - from,
{
    if from < 0 || from >= rest.len() {
        (rest.len() as int, Seq::empty(), Some((container_end_fault(dict), None)))
    } else if rest[from] == BENCODE_END {
        (from + 1, seq![json_close(dict)], None)
    } else {
        let sep = if first { Seq::empty() } else { seq![JSON_COMMA] };
        let (cm, om, fm) = scan_member(rest.skip(from), depth, dict);
        // A member that is decoded reads at least one byte, and no more than
        // there are.
        if fm is Some || !(0 < cm && from + cm <= rest.len()) {
            (from + cm, sep + om, fm)
        } else {
            let (c, o, f) = scan_members(rest, from + cm, depth, false, dict);
            (c, sep + om + o, f)
        }
    }
}

/// Members that are decoded read at least up to the byte after `from`.
proof fn lemma_members_read(rest: Seq<u8>, from: int, depth: nat, first: bool, dict: bool)
    ensures
        scan_members(rest, from, depth, first, dict).2 is None ==> scan_members(rest, from, depth, first, dict).0 >= from + 1,
    decreases depth, 3int, rest.len() - from,
{
    if 0 <= from < rest.len() && rest[from] != BENCODE_END {
        let (cm, om, fm) = scan_member(rest.skip(from), depth, dict);
        lemma_member_reads(rest.skip(from), depth, dict);
        if fm is None && 0 < cm && from + cm <= rest.len() {
            lemma_members_read(rest, from + cm, depth, false, dict);
        }
    }
}

/// A member that is decoded reads at least one byte.
pub proof fn lemma_member_reads(rest: Seq<u8>, depth: nat, dict: bool)
    ensures
        scan_member(rest, depth, dict).2 is None ==> scan_member(rest, depth, dict).0 >= 1,
    decreases depth, 2int, 0int,
{
    if dict {
        let (ck, ok, fk) = scan_string(rest);
        if fk is None && ck >= 0 {
            lemma_value_reads(rest.skip(ck), depth);
        }
    } else {
        lemma_value_reads(rest, depth);
    }
}

/// A value that is decoded reads at least one byte.
pub proof fn lemma_value_reads(rest: Seq<u8>, depth: nat)
    ensures
        scan_value(rest, depth).2 is None ==> scan_value(rest, depth).0 >= 1,
    decreases depth, 0int, 0int,
{
    if rest.len() > 0 && (rest[0] == BENCODE_BEGIN_LIST || rest[0] == BENCODE_BEGIN_DICT) && depth > 0 {
        lemma_members_read(rest, 1, (depth - 1) as nat, true, rest[0] == BENCODE_BEGIN_DICT);
    }
}

/// The byte that opens a list, or a dictionary.
pub open spec fn bencode_open(dict: bool) -> u8 {
    if dict { BENCODE_BEGIN_DICT } else { BENCODE_BEGIN_LIST }
}

/// A member that fails makes its container fail in the same way, at the same
/// byte: decoding stops where the member stopped, with what it wrote last.
pub proof fn lemma_member_failure_propagates(rest: Seq<u8>, from: int, depth: nat, first: bool, dict: bool)
    requires
        0 <= from < rest.len(),
        rest[from] != BENCODE_END,
        scan_member(rest.skip(from), depth, dict).2 is Some,
    ensures
        ({
            let (cm, om, fm) = scan_member(rest.skip(from), depth, dict);
            let (c, o, f) = scan_members(rest, from, depth, first, dict);
            &&& f == fm
            &&& c == from + cm
            &&& o == (if first { Seq::empty() } else { seq![JSON_COMMA] }) + om
        }),
{
}

/// A container is decoded as its members are: the fault of a list or a
/// dictionary within the depth limit is the fault of its members.
pub proof fn lemma_container_fails_as_its_members(rest: Seq<u8>, depth: nat, dict: bool)
    requires
        rest.len() >= 1,
        rest[0] == bencode_open(dict),
    ensures
        scan_value(rest, depth + 1).2 == scan_members(rest, 1, depth, true, dict).2,
        scan_value(rest, depth + 1).0 == scan_members(rest, 1, depth, true, dict).0,
{
}

/// Nesting is kept: a list (or dictionary) holding one member that decodes
/// becomes a JSON array (or object) holding exactly that member's JSON text,
/// one level deeper.
pub proof fn lemma_nesting_is_kept(rest: Seq<u8>, depth: nat, dict: bool)
    requires
        rest.len() >= 2,
        rest[0] == bencode_open(dict),
        rest[1] != BENCODE_END,
        scan_member(rest.skip(1), depth, dict).2 is None,
        1 + scan_member(rest.skip(1), depth, dict).0 < rest.len(),
        rest[1 + scan_member(rest.skip(1), depth, dict).0] == BENCODE_END,
    ensures
        ({
            let (cm, om, fm) = scan_member(rest.skip(1), depth, dict);
            scan_value(rest, depth + 1) == (
                cm + 2,
                seq![json_open(dict)] + om + seq![json_close(dict)],
                None::<(Fault, Option<u8>)>,
            )
        }),
{
    let (cm, om, fm) = scan_member(rest.skip(1), depth, dict);
    lemma_member_reads(rest.skip(1), depth, dict);
    assert(scan_members(rest, 1 + cm, depth, false, dict) == (cm + 2, seq![json_close(dict)], None::<(Fault, Option<u8>)>));
    assert(seq![json_open(dict)] + (Seq::<u8>::empty() + om + seq![json_close(dict)])
        =~= seq![json_open(dict)] + om + seq![json_close(dict)]);
}

/// Decodes the value at the front of the input and writes its JSON text;
/// containers may nest `depth` deep.
pub fn parse_within(reader: &mut ByteReader, writer: &mut ByteWriter, depth: usize) -> (r: Result<(), Error>)
    requires
        old(reader).wf(),
        old(writer).wf(),
    ensures
        final(reader).wf(),
        final(writer).wf(),
        final(reader).input() == old(reader).input(),
        final(reader).failure() == old(reader).failure(),
        ({
            let (consumed, out, fault) = scan_value(old(reader).rest(), depth as nat);
            &&& final(reader).pos() == old(reader).pos() + consumed
            &&& final(writer).written() == old(writer).written() + out
            &&& r is Ok <==> fault is None
            &&& r is Err ==> r->Err_0.reports(
                fault->Some_0.0,
                fault->Some_0.1,
                old(reader).failure(),
                *final(reader),
                *final(writer),
            )
        }),
    decreases depth, 0int,
{
    let ghost w0 = writer.written();
    assert(w0 + Seq::<u8>::empty() =~= w0);
    match reader.peek_byte() {
        Err(ReadFailure::EndOfInput) => {
            let (rc, wc) = snapshot(reader, writer, None);
            Err(Error::UnexpectedEndOfInputParsingValue(rc, wc))
        },
        Err(ReadFailure::Io(f)) => Err(Error::Io(f)),
        Ok(b) => {
            if b == BENCODE_BEGIN_INTEGER {
                integer::parse(reader, writer)
            } else if ZERO <= b && b <= NINE {
                string::parse(reader, writer)
            } else if b == BENCODE_BEGIN_LIST || b == BENCODE_BEGIN_DICT {
                if depth == 0 {
                    let _ = reader.read_byte();
                    let (rc, wc) = snapshot(reader, writer, Some(b));
                    Err(Error::MaxNestingExceeded(rc, wc))
                } else if b == BENCODE_BEGIN_LIST {
                    list::parse(reader, writer, depth - 1)
                } else {
                    dictionary::parse(reader, writer, depth - 1)
                }
            } else {
                let _ = reader.read_byte();
                let (rc, wc) = snapshot(reader, writer, Some(b));
                Err(Error::UnexpectedByteParsingValue(rc, wc))
            }
        },
    }
}

/// Decodes the value at the front of the input and writes its JSON text;
/// containers may nest `MAX_NESTING` deep.
pub fn parse(reader: &mut ByteReader, writer: &mut ByteWriter) -> (r: Result<(), Error>)
    requires
        old(reader).wf(),
        old(writer).wf(),
    ensures
        final(reader).wf(),
        final(writer).wf(),
        final(reader).input() == old(reader).input(),
        final(reader).failure() == old(reader).failure(),
        ({
            let (consumed, out, fault) = scan_value(old(reader).rest(), MAX_NESTING as nat);
            &&& final(reader).pos() == old(reader).pos() + consumed
            &&& final(writer).written() == old(writer).written() + out
            &&& r is Ok <==> fault is None
            &&& r is Err ==> r->Err_0.reports(
                fault->Some_0.0,
                fault->Some_0.1,
                old(reader).failure(),
                *final(reader),
                *final(writer),
            )
        }),
{
    parse_within(reader, writer, MAX_NESTING)
}

} // verus!
