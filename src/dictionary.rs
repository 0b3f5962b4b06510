//! The dictionary decoder: `d(<key><value>)*e` becomes a JSON object.
//!
//! Keys are byte strings and are written in the order they come; their order
//! is not checked, and a key that comes twice is written twice.
use vstd::prelude::*;
use crate::error::{Error, snapshot};
use crate::sink::ByteWriter;
use crate::source::{ByteReader, ReadFailure};
use crate::integer::{ZERO, NINE};
use crate::string::{self, COLON, scan_string};
use crate::value::{self, scan_entry, scan_value, BENCODE_END, JSON_BEGIN_OBJECT, JSON_END_OBJECT, JSON_COMMA, scan_container, scan_members, scan_member, lemma_member_reads};

verus! {

/// Decodes the dictionary at the front of the input, opening marker included,
/// and writes it as a JSON object; its values may nest `depth` deep.
///
/// A key's or a value's failure is the dictionary's failure.
pub fn parse(reader: &mut ByteReader, writer: &mut ByteWriter, depth: usize) -> (r: Result<(), Error>)
    requires
        old(reader).wf(),
        old(writer).wf(),
    ensures
        final(reader).wf(),
        final(writer).wf(),
        final(reader).input() == old(reader).input(),
        final(reader).failure() == old(reader).failure(),
        ({
            let (consumed, out, fault) = scan_container(old(reader).rest(), depth as nat, true);
            &&& final(reader).pos() == old(reader).pos() + consumed
            &&& final(writer).written() == old(writer).written() + out
            &&& r is Ok <==> fault is None
            &&& r is Err ==> r->Err_0.reports(
                fault->Some_0.0,
                fault->Some_0.1,
                old(reader).failure(),
                *final(reader),
                *final(writer),
            )
        }),
    decreases depth, 2int,
{
    let ghost rest = reader.rest();
    let ghost p0 = reader.pos() as int;
    let ghost w0 = writer.written();
    let ghost d = depth as nat;
    match reader.read_byte() {
        Ok(_) => {},
        Err(ReadFailure::EndOfInput) => {
            let (rc, wc) = snapshot(reader, writer, None);
            assert(w0 + Seq::<u8>::empty() =~= w0);
            return Err(Error::UnexpectedEndOfInputParsingDictionary(rc, wc));
        },
        Err(ReadFailure::Io(f)) => {
            assert(w0 + Seq::<u8>::empty() =~= w0);
            return Err(Error::Io(f));
        },
    }
    writer.write_byte(JSON_BEGIN_OBJECT);
    let mut first = true;
    loop
        invariant
            reader.wf(),
            writer.wf(),
            reader.input() == old(reader).input(),
            reader.failure() == old(reader).failure(),
            rest == old(reader).rest(),
            rest == reader.input().skip(p0),
            p0 == old(reader).pos(),
            w0 == old(writer).written(),
            d == depth,
            rest.len() >= 1,
            1 <= reader.pos() - p0 <= rest.len(),
            scan_members(rest, 1, d, true, true).0 == scan_members(rest, reader.pos() - p0, d, first, true).0,
            scan_members(rest, 1, d, true, true).2 == scan_members(rest, reader.pos() - p0, d, first, true).2,
            w0 + (seq![JSON_BEGIN_OBJECT] + scan_members(rest, 1, d, true, true).1)
                == writer.written() + scan_members(rest, reader.pos() - p0, d, first, true).1,
        decreases reader.input().len() - reader.pos(),
    {
        let ghost from = reader.pos() - p0;
        let ghost here = writer.written();
        match reader.peek_byte() {
            Err(ReadFailure::EndOfInput) => {
                let (rc, wc) = snapshot(reader, writer, None);
                assert(here + Seq::<u8>::empty() =~= here);
                return Err(Error::UnexpectedEndOfInputParsingDictionary(rc, wc));
            },
            Err(ReadFailure::Io(f)) => {
                assert(here + Seq::<u8>::empty() =~= here);
                return Err(Error::Io(f));
            },
            Ok(b) => {
                assert(b == rest[from]);
                if b == BENCODE_END {
                    let _ = reader.read_byte();
                    writer.write_byte(JSON_END_OBJECT);
                    return Ok(());
                }
                if !first {
                    writer.write_byte(JSON_COMMA);
                }
                let ghost sep = writer.written().skip(here.len() as int);
                assert(sep =~= (if first { Seq::<u8>::empty() } else { seq![JSON_COMMA] }));
                assert(reader.rest() =~= rest.skip(from));
                let ghost before = writer.written();
                let res = parse_entry(reader, writer, depth);
                proof {
                    lemma_member_reads(rest.skip(from), d, true);
                    let (cv, ov, fv) = scan_member(rest.skip(from), d, true);
                    assert(here + (sep + ov) =~= before + ov);
                    if fv is None {
                        assert(here + (sep + ov + scan_members(rest, from + cv, d, false, true).1)
                            =~= writer.written() + scan_members(rest, from + cv, d, false, true).1);
                    }
                }
                match res {
                    Ok(()) => {},
                    Err(e) => {
                        return Err(e);
                    },
                }
                first = false;
            },
        }
    }
}

/// Decodes one entry at the front of the input: a byte-string key, then a
/// value that may nest `depth` deep, written as `"key":value`.
fn parse_entry(reader: &mut ByteReader, writer: &mut ByteWriter, depth: usize) -> (r: Result<(), Error>)
    requires
        old(reader).wf(),
        old(writer).wf(),
    ensures
        final(reader).wf(),
        final(writer).wf(),
        final(reader).input() == old(reader).input(),
        final(reader).failure() == old(reader).failure(),
        ({
            let (consumed, out, fault) = scan_entry(old(reader).rest(), depth as nat);
            &&& final(reader).pos() == old(reader).pos() + consumed
            &&& final(writer).written() == old(writer).written() + out
            &&& r is Ok <==> fault is None
            &&& r is Err ==> r->Err_0.reports(
                fault->Some_0.0,
                fault->Some_0.1,
                old(reader).failure(),
                *final(reader),
                *final(writer),
            )
        }),
    decreases depth, 1int,
{
    let ghost rest = reader.rest();
    let ghost w0 = writer.written();
    assert(w0 + Seq::<u8>::empty() =~= w0);
    if let Ok(b) = reader.peek_byte() {
        if !(ZERO <= b && b <= NINE) {
            let _ = reader.read_byte();
            let (rc, wc) = snapshot(reader, writer, Some(b));
            return Err(Error::UnexpectedByteParsingDictionary(rc, wc));
        }
    }
    string::parse(reader, writer)?;
    let ghost (ck, ok, fk) = scan_string(rest);
    writer.write_byte(COLON);
    assert(reader.rest() =~= rest.skip(ck));
    let ghost before_value = writer.written();
    let res = value::parse_within(reader, writer, depth);
    proof {
        let (cv, ov, fv) = scan_value(rest.skip(ck), depth as nat);
        assert(w0 + (ok + seq![COLON] + ov) =~= before_value + ov);
    }
    res
}

} // verus!
