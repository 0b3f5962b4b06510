//! The byte-string decoder: `<length>:<bytes>` becomes a JSON string.
//!
//! Bencode strings are binary; JSON strings are text. Every byte is therefore
//! written as one JSON character of the same code point: printable ASCII as
//! itself, except that `"` and `\` get a backslash, and every other byte as a
//! `\u00XX` escape. The output is plain ASCII, and reading it back as JSON and
//! taking each character's code point as a byte gives back the original bytes.
//!
//! The length is at most `MAX_LENGTH_DIGITS` decimal digits; leading zeros in
//! it are read as part of the number.
use vstd::prelude::*;
use crate::error::{Error, Fault, snapshot};
use crate::integer::{ZERO, NINE, digit_run};
use crate::sink::ByteWriter;
use crate::source::{ByteReader, ReadFailure};

verus! {

/// The most digits a string length may have.
pub const MAX_LENGTH_DIGITS: usize = 9;

/// The byte between a string's length and its bytes.
pub const COLON: u8 = 0x3a;

pub const QUOTE: u8 = 0x22;

pub const BACKSLASH: u8 = 0x5c;

/// The value of the decimal digits `s`.
pub open spec fn digits_value(s: Seq<u8>) -> nat
    decreases s.len(),
{
    if s.len() == 0 {
        0
    } else {
        digits_value(s.drop_last()) * 10 + (s.last() - ZERO) as nat
    }
}

/// The lower-case hexadecimal digit of `n`, below sixteen.
pub open spec fn hex_digit(n: u8) -> u8 {
    if n < 10 {
        (ZERO + n) as u8
    } else {
        (0x61 + n - 10) as u8
    }
}

/// The JSON text of the character whose code point is `b`.
pub open spec fn escape_byte(b: u8) -> Seq<u8> {
    if b == QUOTE || b == BACKSLASH {
        seq![BACKSLASH, b]
    } else if 0x20 <= b && b < 0x7f {
        seq![b]
    } else {
        seq![BACKSLASH, 0x75u8, ZERO, ZERO, hex_digit(b / 16), hex_digit(b % 16)]
    }
}

/// The JSON text of the characters whose code points are the bytes of `s`.
pub open spec fn escape(s: Seq<u8>) -> Seq<u8>
    decreases s.len(),
{
    if s.len() == 0 {
        Seq::empty()
    } else {
        escape(s.drop_last()) + escape_byte(s.last())
    }
}

/// Decoding the byte string at the front of `rest`: how many bytes it reads,
/// what it writes, and how it ends (`None` on success, else the failure and
/// the offending byte, if any).
pub open spec fn scan_string(rest: Seq<u8>) -> (int, Seq<u8>, Option<(Fault, Option<u8>)>) {
    let n = digit_run(rest, 0) as int;
    if n > MAX_LENGTH_DIGITS {
        (MAX_LENGTH_DIGITS + 1 as int, Seq::empty(), Some((Fault::MalformedLength, Some(rest[MAX_LENGTH_DIGITS as int]))))
    } else if n >= rest.len() {
        (rest.len() as int, Seq::empty(), Some((Fault::UnexpectedEndOfInputParsingString, None)))
    } else if rest[n] != COLON || n == 0 {
        (n + 1, Seq::empty(), Some((Fault::MalformedLength, Some(rest[n]))))
    } else {
        let len = digits_value(rest.take(n)) as int;
        if n + 1 + len > rest.len() {
            (
                rest.len() as int,
                seq![QUOTE] + escape(rest.subrange(n + 1, rest.len() as int)),
                Some((Fault::TruncatedStringBody, None)),
            )
        } else {
            (
                n + 1 + len,
                seq![QUOTE] + escape(rest.subrange(n + 1, n + 1 + len)) + seq![QUOTE],
                None,
            )
        }
    }
}

/// The value of the hexadecimal digit `b`, if it is one.
pub open spec fn hex_value(b: u8) -> Option<nat> {
    if ZERO <= b && b <= NINE {
        Some((b - ZERO) as nat)
    } else if 0x61 <= b && b <= 0x66 {
        Some((b - 0x61 + 10) as nat)
    } else if 0x41 <= b && b <= 0x46 {
        Some((b - 0x41 + 10) as nat)
    } else {
        None
    }
}

/// The character that the two-byte escape `\c` stands for in JSON, if any.
pub open spec fn short_escape(c: u8) -> Option<nat> {
    if c == QUOTE || c == BACKSLASH || c == 0x2f {
        Some(c as nat)
    } else if c == 0x62 {
        Some(8)
    } else if c == 0x66 {
        Some(12)
    } else if c == 0x6e {
        Some(10)
    } else if c == 0x72 {
        Some(13)
    } else if c == 0x74 {
        Some(9)
    } else {
        None
    }
}

/// The code points of the characters that the ASCII text `t` holds as the
/// inside of a JSON string, or `None` where `t` is not such text.
pub open spec fn json_chars(t: Seq<u8>) -> Option<Seq<nat>>
    decreases t.len(),
{
    if t.len() == 0 {
        Some(Seq::empty())
    } else if t[0] == BACKSLASH {
        if t.len() >= 2 && short_escape(t[1]) is Some {
            match json_chars(t.skip(2)) {
                Some(r) => Some(seq![short_escape(t[1])->Some_0] + r),
                None => None,
            }
        } else if t.len() >= 6 && t[1] == 0x75 && hex_value(t[2]) is Some && hex_value(t[3]) is Some
            && hex_value(t[4]) is Some && hex_value(t[5]) is Some {
            let code = hex_value(t[2])->Some_0 * 4096 + hex_value(t[3])->Some_0 * 256
                + hex_value(t[4])->Some_0 * 16 + hex_value(t[5])->Some_0;
            match json_chars(t.skip(6)) {
                Some(r) => Some(seq![code] + r),
                None => None,
            }
        } else {
            None
        }
    } else if t[0] == QUOTE || t[0] < 0x20 || t[0] >= 0x80 {
        None
    } else {
        match json_chars(t.skip(1)) {
            Some(r) => Some(seq![t[0] as nat] + r),
            None => None,
        }
    }
}

/// The code points of the characters of the JSON string `t`, quotes included,
/// or `None` where `t` is not one.
pub open spec fn json_string(t: Seq<u8>) -> Option<Seq<nat>> {
    if t.len() >= 2 && t[0] == QUOTE && t[t.len() - 1] == QUOTE {
        json_chars(t.subrange(1, t.len() - 1))
    } else {
        None
    }
}

/// Each byte taken as a code point.
pub open spec fn code_points(s: Seq<u8>) -> Seq<nat> {
    s.map_values(|b: u8| b as nat)
}

proof fn lemma_escape_prepend(b: u8, s: Seq<u8>)
    ensures
        escape(seq![b] + s) == escape_byte(b) + escape(s),
    decreases s.len(),
{
    if s.len() == 0 {
        assert(seq![b] + s =~= seq![b]);
        assert(seq![b].drop_last() =~= Seq::<u8>::empty());
        assert(escape(seq![b].drop_last()) =~= Seq::<u8>::empty());
        assert(seq![b].last() == b);
        assert(escape(seq![b]) =~= escape_byte(b));
        assert(escape_byte(b) + escape(s) =~= escape_byte(b));
    } else {
        lemma_escape_prepend(b, s.drop_last());
        assert((seq![b] + s).drop_last() =~= seq![b] + s.drop_last());
        assert(escape_byte(b) + escape(s.drop_last()) + escape_byte(s.last()) =~= escape_byte(b) + escape(s));
    }
}

proof fn lemma_hex_digit(n: u8)
    requires
        n < 16,
    ensures
        hex_value(hex_digit(n)) == Some(n as nat),
{
}

proof fn lemma_json_chars_of_escape(s: Seq<u8>)
    ensures
        json_chars(escape(s)) == Some(code_points(s)),
    decreases s.len(),
{
    if s.len() == 0 {
        assert(code_points(s) =~= Seq::<nat>::empty());
    } else {
        let b = s[0];
        let tail = s.skip(1);
        assert(s =~= seq![b] + tail);
        lemma_escape_prepend(b, tail);
        lemma_json_chars_of_escape(tail);
        let e = escape_byte(b);
        let t = e + escape(tail);
        assert(t.skip(e.len() as int) =~= escape(tail));
        if !(b == QUOTE || b == BACKSLASH) && !(0x20 <= b && b < 0x7f) {
            lemma_hex_digit(b / 16);
            lemma_hex_digit(b % 16);
            assert(b / 16 * 16 + b % 16 == b);
        }
        assert(code_points(s) =~= seq![b as nat] + code_points(tail));
    }
}

/// Reading the JSON string written for any bytes gives back those bytes, each
/// as the code point of one character.
pub proof fn lemma_json_string_recovers_bytes(s: Seq<u8>)
    ensures
        json_string(seq![QUOTE] + escape(s) + seq![QUOTE]) == Some(code_points(s)),
{
    let t = seq![QUOTE] + escape(s) + seq![QUOTE];
    assert(t.subrange(1, t.len() - 1) =~= escape(s));
    lemma_json_chars_of_escape(s);
}

/// Whenever a byte string is decoded, reading its JSON output as a JSON string
/// gives back the bytes of the byte string, each as the code point of one character.
pub proof fn lemma_decoded_string_recovers_bytes(rest: Seq<u8>)
    requires
        scan_string(rest).2 is None,
    ensures
        json_string(scan_string(rest).1) == Some(
            code_points(rest.subrange(digit_run(rest, 0) + 1int, scan_string(rest).0)),
        ),
{
    let n = digit_run(rest, 0) as int;
    let len = digits_value(rest.take(n)) as int;
    lemma_json_string_recovers_bytes(rest.subrange(n + 1, n + 1 + len));
}

/// Ten to the power `k`.
pub open spec fn pow10(k: nat) -> nat
    decreases k,
{
    if k == 0 {
        1
    } else {
        10 * pow10((k - 1) as nat)
    }
}

/// A length of at most `MAX_LENGTH_DIGITS` digits stays below a billion.
proof fn lemma_pow10_bound(k: nat)
    requires
        k <= MAX_LENGTH_DIGITS,
    ensures
        pow10(k) <= 1_000_000_000,
    decreases MAX_LENGTH_DIGITS - k,
{
    if k == MAX_LENGTH_DIGITS {
        reveal_with_fuel(pow10, 10);
    } else {
        lemma_pow10_bound(k + 1);
    }
}

/// Decodes the byte string at the front of the input and writes it as a JSON
/// string.
///
/// It reads exactly the bytes of the string, and on failure stops at the
/// offending byte, with both streams described in the error.
pub fn parse(reader: &mut ByteReader, writer: &mut ByteWriter) -> (r: Result<(), Error>)
    requires
        old(reader).wf(),
        old(writer).wf(),
    ensures
        final(reader).wf(),
        final(writer).wf(),
        final(reader).input() == old(reader).input(),
        final(reader).failure() == old(reader).failure(),
        ({
            let (consumed, out, fault) = scan_string(old(reader).rest());
            &&& final(reader).pos() == old(reader).pos() + consumed
            &&& final(writer).written() == old(writer).written() + out
            &&& r is Ok <==> fault is None
            &&& r is Err ==> r->Err_0.reports(
                fault->Some_0.0,
                fault->Some_0.1,
                old(reader).failure(),
                *final(reader),
                *final(writer),
            )
        }),
{
    let ghost rest = reader.rest();
    let ghost p0 = reader.pos() as int;
    let ghost w0 = writer.written();
    let mut len: usize = 0;
    let mut k: usize = 0;

    // The length, up to its colon.
    loop
        invariant_except_break
            reader.pos() == p0 + k,
        invariant
            reader.wf(),
            writer.wf(),
            reader.input() == old(reader).input(),
            reader.failure() == old(reader).failure(),
            rest == old(reader).rest(),
            rest == reader.input().skip(p0),
            p0 == old(reader).pos(),
            w0 == old(writer).written(),
            writer.written() == w0,
            k <= MAX_LENGTH_DIGITS,
            k <= rest.len(),
            digit_run(rest, 0) == k + digit_run(rest, k as int),
            len == digits_value(rest.take(k as int)),
            len < pow10(k as nat),
        ensures
            reader.pos() == p0 + k + 1,
            0 < k < rest.len(),
            rest[k as int] == COLON,
        decreases reader.input().len() - reader.pos(),
    {
        let b = match reader.read_byte() {
            Ok(b) => b,
            Err(ReadFailure::EndOfInput) => {
                let (rc, wc) = snapshot(reader, writer, None);
                assert(w0 + Seq::<u8>::empty() =~= w0);
                return Err(Error::UnexpectedEndOfInputParsingString(rc, wc));
            },
            Err(ReadFailure::Io(f)) => {
                assert(w0 + Seq::<u8>::empty() =~= w0);
                return Err(Error::Io(f));
            },
        };
        assert(b == rest[k as int]);
        if b == COLON && k > 0 {
            break;
        } else if ZERO <= b && b <= NINE && k < MAX_LENGTH_DIGITS {
            proof {
                lemma_pow10_bound((k + 1) as nat);
                assert(len * 10 + (b - ZERO) < pow10((k + 1) as nat)) by (nonlinear_arith)
                    requires
                        len < pow10(k as nat),
                        pow10((k + 1) as nat) == 10 * pow10(k as nat),
                        b - ZERO <= 9,
                ;
                assert(rest.take(k + 1).drop_last() =~= rest.take(k as int));
            }
            len = len * 10 + (b - ZERO) as usize;
            k = k + 1;
        } else {
            let (rc, wc) = snapshot(reader, writer, Some(b));
            assert(w0 + Seq::<u8>::empty() =~= w0);
            return Err(Error::MalformedLength(rc, wc));
        }
    }
    assert(digit_run(rest, k as int) == 0);

    // The bytes, between quotes.
    writer.write_byte(QUOTE);
    let mut i: usize = 0;
    while i < len
        invariant
            reader.wf(),
            writer.wf(),
            reader.input() == old(reader).input(),
            reader.failure() == old(reader).failure(),
            rest == old(reader).rest(),
            rest == reader.input().skip(p0),
            p0 == old(reader).pos(),
            w0 == old(writer).written(),
            0 < k <= MAX_LENGTH_DIGITS,
            k < rest.len(),
            rest[k as int] == COLON,
            digit_run(rest, 0) == k,
            len == digits_value(rest.take(k as int)),
            i <= len,
            k + 1 + i <= rest.len(),
            reader.pos() == p0 + k + 1 + i,
            writer.written() == w0 + seq![QUOTE] + escape(rest.subrange(k + 1, k + 1 + i)),
        decreases len - i,
    {
        let b = match reader.read_byte() {
            Ok(b) => b,
            Err(ReadFailure::EndOfInput) => {
                let (rc, wc) = snapshot(reader, writer, None);
                assert(w0 + seq![QUOTE] + escape(rest.subrange(k + 1, k + 1 + i)) =~= w0 + (
                seq![QUOTE] + escape(rest.subrange(k + 1, k + 1 + i))));
                return Err(Error::TruncatedStringBody(rc, wc));
            },
            Err(ReadFailure::Io(f)) => {
                assert(w0 + seq![QUOTE] + escape(rest.subrange(k + 1, k + 1 + i)) =~= w0 + (
                seq![QUOTE] + escape(rest.subrange(k + 1, k + 1 + i))));
                return Err(Error::Io(f));
            },
        };
        write_escaped(writer, b);
        proof {
            let s = rest.subrange(k + 1, k + 1 + i + 1);
            assert(s.drop_last() =~= rest.subrange(k + 1, k + 1 + i));
            assert(writer.written() =~= w0 + seq![QUOTE] + escape(s));
        }
        i = i + 1;
    }
    writer.write_byte(QUOTE);
    assert(writer.written() =~= w0 + (seq![QUOTE] + escape(rest.subrange(k + 1, k + 1 + len)) + seq![QUOTE]));
    Ok(())
}

/// Writes the JSON text of the character whose code point is `b`.
fn write_escaped(writer: &mut ByteWriter, b: u8)
    requires
        old(writer).wf(),
    ensures
        final(writer).wf(),
        final(writer).written() == old(writer).written() + escape_byte(b),
{
    if b == QUOTE || b == BACKSLASH {
        writer.write_byte(BACKSLASH);
        writer.write_byte(b);
    } else if 0x20 <= b && b < 0x7f {
        writer.write_byte(b);
    } else {
        let hi = b / 16;
        let lo = b % 16;
        writer.write_byte(BACKSLASH);
        writer.write_byte(0x75);
        writer.write_byte(ZERO);
        writer.write_byte(ZERO);
        writer.write_byte(if hi < 10 { ZERO + hi } else { 0x61 + hi - 10 });
        writer.write_byte(if lo < 10 { ZERO + lo } else { 0x61 + lo - 10 });
    }
    assert(writer.written() =~= old(writer).written() + escape_byte(b));
}

} // verus!
