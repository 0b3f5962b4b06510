//! The integer decoder: `i<sign?><digits>e` becomes a JSON number.
//!
//! Sign and digits are copied verbatim, each as soon as it has been checked;
//! a digit after a leading zero is refused before it is written.
use vstd::prelude::*;
use crate::error::{Error, Fault, snapshot};
use crate::sink::ByteWriter;
use crate::source::{ByteReader, ReadFailure};

verus! {

/// The byte that ends an integer.
pub const BENCODE_END_INTEGER: u8 = 0x65;

/// The minus sign.
pub const MINUS: u8 = 0x2d;

/// The digit zero.
pub const ZERO: u8 = 0x30;

/// The digit nine.
pub const NINE: u8 = 0x39;

pub open spec fn is_digit(b: u8) -> bool {
    ZERO <= b && b <= NINE
}

/// The number of consecutive digits in `s` from index `from` on.
pub open spec fn digit_run(s: Seq<u8>, from: int) -> nat
    decreases s.len() - from,
{
    if 0 <= from < s.len() && is_digit(s[from]) {
        1 + digit_run(s, from + 1)
    } else {
        0
    }
}

/// Where the digits of the integer that `rest` starts with begin: after the
/// opening marker and the sign, if any.
pub open spec fn digits_start(rest: Seq<u8>) -> int {
    if rest.len() > 1 && rest[1] == MINUS {
        2
    } else {
        1
    }
}

/// How decoding an integer ends.
pub enum IntegerVerdict {
    /// The terminator was reached.
    Complete,
    /// The input ended first.
    Truncated,
    /// A byte out of place was read.
    UnexpectedByte,
    /// A digit followed a leading zero.
    LeadingZero,
}

/// Decoding the integer at the front of `rest` (opening marker included):
/// how many bytes it reads, how many it writes, and how it ends.
pub open spec fn scan_integer(rest: Seq<u8>) -> (int, int, IntegerVerdict) {
    if rest.len() == 0 {
        (0, 0, IntegerVerdict::Truncated)
    } else {
        let j = digits_start(rest);
        let n = digit_run(rest, j);
        if n == 0 {
            if j >= rest.len() {
                (rest.len() as int, j - 1, IntegerVerdict::Truncated)
            } else {
                (j + 1, j - 1, IntegerVerdict::UnexpectedByte)
            }
        } else if rest[j] == ZERO && n >= 2 {
            (j + 2, j, IntegerVerdict::LeadingZero)
        } else if j + n >= rest.len() {
            (j + n, j + n - 1, IntegerVerdict::Truncated)
        } else if rest[j + n] == BENCODE_END_INTEGER {
            (j + n + 1, j + n - 1, IntegerVerdict::Complete)
        } else {
            (j + n + 1, j + n - 1, IntegerVerdict::UnexpectedByte)
        }
    }
}

/// The bytes written while decoding the integer at the front of `rest`: those
/// after the opening marker, as many as `scan_integer` says.
pub open spec fn integer_output(rest: Seq<u8>) -> Seq<u8> {
    if rest.len() == 0 {
        Seq::empty()
    } else {
        rest.subrange(1, 1 + scan_integer(rest).1)
    }
}

/// How decoding the integer at the front of `rest` fails, if it does: the
/// failure and the offending byte.
pub open spec fn integer_fault(rest: Seq<u8>) -> Option<(Fault, Option<u8>)> {
    let (consumed, _, verdict) = scan_integer(rest);
    match verdict {
        IntegerVerdict::Complete => None,
        IntegerVerdict::Truncated => Some((Fault::UnexpectedEndOfInputParsingInteger, None)),
        IntegerVerdict::UnexpectedByte => Some((Fault::UnexpectedByteParsingInteger, Some(rest[consumed - 1]))),
        IntegerVerdict::LeadingZero => Some((Fault::LeadingZerosInIntegersNotAllowed, Some(rest[consumed - 1]))),
    }
}

/// Consecutive digits at `from` and `from + 1` make a run one longer than the one at `from + 1`.
proof fn lemma_digit_run_step(s: Seq<u8>, from: int)
    requires
        0 <= from < s.len(),
        is_digit(s[from]),
    ensures
        digit_run(s, from) == 1 + digit_run(s, from + 1),
{
}

/// The decimal digits of `n`, without leading zeros.
pub open spec fn nat_digits(n: nat) -> Seq<u8>
    decreases n,
{
    if n < 10 {
        seq![(ZERO + n) as u8]
    } else {
        nat_digits(n / 10).push((ZERO + n % 10) as u8)
    }
}

/// The minimal decimal representation of `n`: its digits, after a minus sign
/// when it is negative.
pub open spec fn decimal(n: int) -> Seq<u8> {
    if n < 0 {
        seq![MINUS] + nat_digits((-n) as nat)
    } else {
        nat_digits(n as nat)
    }
}

/// The digits of a number are digits, and only zero starts with a zero.
proof fn lemma_nat_digits(n: nat)
    ensures
        nat_digits(n).len() >= 1,
        forall|i: int| 0 <= i < nat_digits(n).len() ==> is_digit(#[trigger] nat_digits(n)[i]),
        nat_digits(n)[0] == ZERO ==> n == 0 && nat_digits(n).len() == 1,
    decreases n,
{
    if n >= 10 {
        lemma_nat_digits(n / 10);
    }
}

/// A run of `k` digits at `from` that is followed by a non-digit, or by the end.
proof fn lemma_digit_run_exact(s: Seq<u8>, from: int, k: int)
    requires
        0 <= from,
        0 <= k,
        from + k <= s.len(),
        forall|i: int| from <= i < from + k ==> is_digit(#[trigger] s[i]),
        from + k == s.len() || !is_digit(s[from + k]),
    ensures
        digit_run(s, from) == k,
    decreases k,
{
    if k > 0 {
        lemma_digit_run_exact(s, from + 1, k - 1);
    }
}

/// Any integer `n`, written after an opening marker in its minimal decimal
/// form and followed by the terminator, decodes completely: the decoder reads
/// exactly those bytes and writes the minimal decimal form of `n`.
pub proof fn lemma_minimal_decimal_decodes(marker: u8, n: int, after: Seq<u8>)
    ensures
        ({
            let input = seq![marker] + decimal(n) + seq![BENCODE_END_INTEGER] + after;
            &&& scan_integer(input) == (decimal(n).len() + 2 as int, decimal(n).len() as int, IntegerVerdict::Complete)
            &&& integer_output(input) == decimal(n)
        }),
{
    let input = seq![marker] + decimal(n) + seq![BENCODE_END_INTEGER] + after;
    let m: nat = if n < 0 { (-n) as nat } else { n as nat };
    let d = nat_digits(m);
    lemma_nat_digits(m);
    let j: int = if n < 0 { 2 } else { 1 };
    assert(decimal(n).len() == j - 1 + d.len());
    assert forall|i: int| j <= i < j + d.len() implies is_digit(#[trigger] input[i]) by {
        assert(input[i] == d[i - j]);
    }
    assert(input[j + d.len()] == BENCODE_END_INTEGER);
    lemma_digit_run_exact(input, j, d.len() as int);
    assert(input[j] == d[0]);
    assert(digits_start(input) == j);
    assert(input.subrange(1, 1 + decimal(n).len() as int) =~= decimal(n));
}

/// The legal next byte classes while decoding an integer.
enum StateExpecting {
    Start,
    DigitOrSign,
    DigitAfterSign,
    DigitOrEnd,
}

/// Decodes the integer at the front of the input, opening marker included,
/// and writes it as a JSON number.
///
/// It reads exactly the bytes of the integer, and on failure stops at the
/// offending byte, with both streams described in the error.
pub fn parse(reader: &mut ByteReader, writer: &mut ByteWriter) -> (r: Result<(), Error>)
    requires
        old(reader).wf(),
        old(writer).wf(),
    ensures
        final(reader).wf(),
        final(writer).wf(),
        final(reader).input() == old(reader).input(),
        final(reader).failure() == old(reader).failure(),
        final(reader).pos() == old(reader).pos() + scan_integer(old(reader).rest()).0,
        final(writer).written() == old(writer).written() + integer_output(old(reader).rest()),
        r is Ok <==> scan_integer(old(reader).rest()).2 is Complete,
        r is Err ==> r->Err_0.reports(
            integer_fault(old(reader).rest())->Some_0.0,
            integer_fault(old(reader).rest())->Some_0.1,
            old(reader).failure(),
            *final(reader),
            *final(writer),
        ),
{
    let ghost rest = reader.rest();
    let ghost p0 = reader.pos() as int;
    let ghost w0 = writer.written();
    let ghost j = digits_start(rest);
    let mut state = StateExpecting::Start;
    let mut first_digit_is_zero = false;

    loop
        invariant
            reader.wf(),
            writer.wf(),
            reader.input() == old(reader).input(),
            reader.failure() == old(reader).failure(),
            rest == reader.input().skip(p0),
            0 <= p0 <= reader.input().len(),
            rest == old(reader).rest(),
            p0 == old(reader).pos(),
            w0 == old(writer).written(),
            j == digits_start(rest),
            !(state is DigitOrEnd) ==> !first_digit_is_zero,
            state is Start ==> reader.pos() == p0 && writer.written() == w0,
            state is DigitOrSign ==> reader.pos() == p0 + 1 && writer.written() == w0,
            state is DigitAfterSign ==> {
                &&& reader.pos() == p0 + 2
                &&& rest.len() >= 2
                &&& rest[1] == MINUS
                &&& writer.written() == w0 + rest.subrange(1, 2)
            },
            state is DigitOrEnd ==> {
                let k = reader.pos() - p0 - j;
                &&& 1 <= k
                &&& j + k <= rest.len()
                &&& digit_run(rest, j) == k + digit_run(rest, j + k)
                &&& first_digit_is_zero == (rest[j] == ZERO)
                &&& first_digit_is_zero ==> k == 1
                &&& writer.written() == w0 + rest.subrange(1, j + k)
            },
        decreases reader.input().len() - reader.pos(),
    {
        let ghost before = reader.pos() as int;
        let byte = match next_byte(reader, writer) {
            Ok(b) => b,
            Err(e) => {
                proof {
                    if state is DigitOrEnd {
                        assert(digit_run(rest, rest.len() as int) == 0);
                    }
                    if rest.len() >= 1 {
                        assert(rest.subrange(1, 1) =~= Seq::<u8>::empty());
                    }
                    assert(w0 + Seq::<u8>::empty() =~= w0);
                }
                return Err(e);
            },
        };
        proof {
            assert(byte == rest[before - p0]);
        }

        state = match state {
            StateExpecting::Start => {
                // The opening marker carries nothing to write.
                StateExpecting::DigitOrSign
            },
            StateExpecting::DigitOrSign => {
                if byte == MINUS {
                    writer.write_byte(byte);
                    proof {
                        assert(writer.written() =~= w0 + rest.subrange(1, 2));
                    }
                    StateExpecting::DigitAfterSign
                } else if ZERO <= byte && byte <= NINE {
                    writer.write_byte(byte);
                    if byte == ZERO {
                        first_digit_is_zero = true;
                    }
                    proof {
                        lemma_digit_run_step(rest, 1);
                        assert(writer.written() =~= w0 + rest.subrange(1, 2));
                    }
                    StateExpecting::DigitOrEnd
                } else {
                    let (rc, wc) = snapshot(reader, writer, Some(byte));
                    proof {
                        assert(rest.subrange(1, 1) =~= Seq::<u8>::empty());
                        assert(w0 + Seq::<u8>::empty() =~= w0);
                    }
                    return Err(Error::UnexpectedByteParsingInteger(rc, wc));
                }
            },
            StateExpecting::DigitAfterSign => {
                if ZERO <= byte && byte <= NINE {
                    writer.write_byte(byte);
                    if byte == ZERO {
                        first_digit_is_zero = true;
                    }
                    proof {
                        lemma_digit_run_step(rest, 2);
                        assert(writer.written() =~= w0 + rest.subrange(1, 3));
                    }
                    StateExpecting::DigitOrEnd
                } else {
                    let (rc, wc) = snapshot(reader, writer, Some(byte));
                    return Err(Error::UnexpectedByteParsingInteger(rc, wc));
                }
            },
            StateExpecting::DigitOrEnd => {
                if ZERO <= byte && byte <= NINE {
                    if first_digit_is_zero {
                        let (rc, wc) = snapshot(reader, writer, Some(byte));
                        proof {
                            lemma_digit_run_step(rest, j + 1);
                        }
                        return Err(Error::LeadingZerosInIntegersNotAllowed(rc, wc));
                    }
                    proof {
                        lemma_digit_run_step(rest, before - p0);
                    }
                    writer.write_byte(byte);
                    proof {
                        assert(writer.written() =~= w0 + rest.subrange(1, before - p0 + 1));
                    }
                    StateExpecting::DigitOrEnd
                } else if byte == BENCODE_END_INTEGER {
                    return Ok(());
                } else {
                    let (rc, wc) = snapshot(reader, writer, Some(byte));
                    return Err(Error::UnexpectedByteParsingInteger(rc, wc));
                }
            },
        };
    }
}

/// Reads the next byte of an integer; the end of the input is a failure here.
fn next_byte(reader: &mut ByteReader, writer: &ByteWriter) -> (r: Result<u8, Error>)
    requires
        old(reader).wf(),
        writer.wf(),
    ensures
        final(reader).wf(),
        final(reader).input() == old(reader).input(),
        final(reader).failure() == old(reader).failure(),
        old(reader).pos() < old(reader).input().len() ==> {
            &&& r == Ok::<u8, Error>(old(reader).input()[old(reader).pos() as int])
            &&& final(reader).pos() == old(reader).pos() + 1
        },
        old(reader).pos() >= old(reader).input().len() ==> {
            &&& final(reader).pos() == old(reader).pos()
            &&& r is Err
            &&& r->Err_0.reports(
                Fault::UnexpectedEndOfInputParsingInteger,
                None,
                old(reader).failure(),
                *final(reader),
                *writer,
            )
        },
{
    match reader.read_byte() {
        Ok(byte) => Ok(byte),
        Err(ReadFailure::EndOfInput) => {
            let (rc, wc) = snapshot(reader, writer, None);
            Err(Error::UnexpectedEndOfInputParsingInteger(rc, wc))
        },
        Err(ReadFailure::Io(f)) => Err(Error::Io(f)),
    }
}

} // verus!
