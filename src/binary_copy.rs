//! The binary framing of the bulk-copy writer.

use vstd::prelude::*;
use vstd::utf8::encode_utf8;
use crate::fields::{naive_date_of, parse_date, str_eq};
use crate::infer::{all_digits, csv_records_of, digits_in, digits_value, digits_value_upto, fields_view, read_csv, unsigned_part};
use crate::text::chars_of;

verus! {

/// How a value of each field type is framed in the binary bulk-load format.
#[derive(Clone, Copy, Debug, PartialEq, Eq, Structural)]
pub enum BinaryKind {
    /// A 32-bit integer.
    Int4,
    /// A 64-bit float, whose bits the caller reads from the text.
    Float8,
    /// A date, as days since 2000-01-01.
    Date,
    /// The text's UTF-8 bytes.
    Text,
}

pub open spec fn be16(v: u16) -> Seq<u8> {
    seq![(v >> 8u16) as u8, v as u8]
}

pub open spec fn be32(v: u32) -> Seq<u8> {
    seq![(v >> 24u32) as u8, (v >> 16u32) as u8, (v >> 8u32) as u8, v as u8]
}

pub open spec fn be64(v: u64) -> Seq<u8> {
    seq![
        (v >> 56u64) as u8,
        (v >> 48u64) as u8,
        (v >> 40u64) as u8,
        (v >> 32u64) as u8,
        (v >> 24u64) as u8,
        (v >> 16u64) as u8,
        (v >> 8u64) as u8,
        v as u8,
    ]
}

/// The signature, flags and header extension length that open the stream.
pub open spec fn binary_header_bytes() -> Seq<u8> {
    seq![0x50u8, 0x47, 0x43, 0x4f, 0x50, 0x59, 0x0a, 0xff, 0x0d, 0x0a, 0x00] + be32(0) + be32(0)
}

/// The field count -1 that ends the stream.
pub open spec fn binary_trailer_bytes() -> Seq<u8> {
    be16(0xffff)
}

/// The length -1 that stands for NULL.
pub open spec fn null_field() -> Seq<u8> {
    be32(0xffff_ffff)
}

/// 2000-01-01, the day the server counts dates from, as a day number with
/// 1 January of year 1 as day 1.
pub const PG_EPOCH_DAY: i32 = 730120;

/// The value of a 32-bit integer written in decimal with an optional sign.
pub open spec fn int4_of(s: Seq<char>) -> Option<int> {
    let body = unsigned_part(s);
    let v = if s.len() > 0 && s[0] == '-' {
        -digits_value(body)
    } else {
        digits_value(body)
    };
    if body.len() > 0 && all_digits(body) && i32::MIN <= v <= i32::MAX {
        Some(v)
    } else {
        None
    }
}

pub open spec fn kind_of(tag: Seq<char>) -> BinaryKind {
    if tag == "integer"@ {
        BinaryKind::Int4
    } else if tag == "number"@ {
        BinaryKind::Float8
    } else if tag == "date"@ {
        BinaryKind::Date
    } else {
        BinaryKind::Text
    }
}

/// One field in the binary format: a 4-byte length, then the value; NULL
/// for an empty field, or one that does not read as its type; `None` where
/// a text is too long for the length prefix.
pub open spec fn field_bytes(kind: BinaryKind, text: Seq<char>, bits: Option<u64>) -> Option<Seq<u8>> {
    if text.len() == 0 {
        Some(null_field())
    } else {
        match kind {
            BinaryKind::Int4 => match int4_of(text) {
                Some(v) => Some(be32(4) + be32(v as i32 as u32)),
                None => Some(null_field()),
            },
            BinaryKind::Float8 => match bits {
                Some(b) => Some(be32(8) + be64(b)),
                None => Some(null_field()),
            },
            BinaryKind::Date => match naive_date_of(text, "%Y-%m-%d"@) {
                Some(d) => if i32::MIN <= d - PG_EPOCH_DAY <= i32::MAX {
                    Some(be32(4) + be32((d - PG_EPOCH_DAY) as i32 as u32))
                } else {
                    Some(null_field())
                },
                None => Some(null_field()),
            },
            BinaryKind::Text => if encode_utf8(text).len() <= i32::MAX {
                Some(be32(encode_utf8(text).len() as u32) + encode_utf8(text))
            } else {
                None
            },
        }
    }
}

pub open spec fn bits_at(bits: Seq<Option<u64>>, i: int) -> Option<u64> {
    if 0 <= i < bits.len() {
        bits[i]
    } else {
        None
    }
}

/// The first `n` fields, framed one after the other.
pub open spec fn fields_bytes(
    texts: Seq<Seq<char>>,
    kinds: Seq<BinaryKind>,
    bits: Seq<Option<u64>>,
    n: nat,
) -> Option<Seq<u8>>
    decreases n,
{
    if n == 0 {
        Some(Seq::empty())
    } else {
        match fields_bytes(texts, kinds, bits, (n - 1) as nat) {
            None => None,
            Some(prev) => match field_bytes(kinds[n - 1], texts[n - 1], bits_at(bits, n - 1)) {
                None => None,
                Some(f) => Some(prev + f),
            },
        }
    }
}

/// A record as one binary row: its fields, as many as there are field
/// kinds at most, behind their count; `None` where the count does not fit
/// 16 bits or a text is too long.
pub open spec fn binary_record_of(
    texts: Seq<Seq<char>>,
    kinds: Seq<BinaryKind>,
    bits: Seq<Option<u64>>,
) -> Option<Seq<u8>> {
    let n = if texts.len() < kinds.len() {
        texts.len()
    } else {
        kinds.len()
    };
    if n > i16::MAX {
        None
    } else {
        match fields_bytes(texts, kinds, bits, n) {
            Some(b) => Some(be16(n as u16) + b),
            None => None,
        }
    }
}

fn push_be16(out: &mut Vec<u8>, v: u16)
    ensures
        final(out)@ == old(out)@ + be16(v),
{
    out.push((v >> 8u16) as u8);
    out.push(v as u8);
    assert(out@ =~= old(out)@ + be16(v));
}

fn push_be32(out: &mut Vec<u8>, v: u32)
    ensures
        final(out)@ == old(out)@ + be32(v),
{
    out.push((v >> 24u32) as u8);
    out.push((v >> 16u32) as u8);
    out.push((v >> 8u32) as u8);
    out.push(v as u8);
    assert(out@ =~= old(out)@ + be32(v));
}

fn push_be64(out: &mut Vec<u8>, v: u64)
    ensures
        final(out)@ == old(out)@ + be64(v),
{
    out.push((v >> 56u64) as u8);
    out.push((v >> 48u64) as u8);
    out.push((v >> 40u64) as u8);
    out.push((v >> 32u64) as u8);
    out.push((v >> 24u64) as u8);
    out.push((v >> 16u64) as u8);
    out.push((v >> 8u64) as u8);
    out.push(v as u8);
    assert(out@ =~= old(out)@ + be64(v));
}

/// The bytes that open a binary bulk load.
pub fn binary_header() -> (r: Vec<u8>)
    ensures
        r@ == binary_header_bytes(),
{
    let mut r: Vec<u8> = vec![0x50u8, 0x47, 0x43, 0x4f, 0x50, 0x59, 0x0a, 0xff, 0x0d, 0x0a, 0x00];
    push_be32(&mut r, 0);
    push_be32(&mut r, 0);
    r
}

/// The bytes that end a binary bulk load.
pub fn binary_trailer() -> (r: Vec<u8>)
    ensures
        r@ == binary_trailer_bytes(),
{
    let mut r: Vec<u8> = Vec::new();
    push_be16(&mut r, 0xffff);
    assert(r@ =~= binary_trailer_bytes());
    r
}

/// How a field type tag is framed.
pub fn binary_kind(tag: &str) -> (r: BinaryKind)
    ensures
        r == kind_of(tag@),
{
    if str_eq(tag, "integer") {
        BinaryKind::Int4
    } else if str_eq(tag, "number") {
        BinaryKind::Float8
    } else if str_eq(tag, "date") {
        BinaryKind::Date
    } else {
        BinaryKind::Text
    }
}

/// The value of `s[a..b]` as a 32-bit integer, if it reads as one.
pub fn parse_int4(s: &Vec<char>, a: usize, b: usize) -> (r: Option<i32>)
    requires
        a <= b <= s.len(),
    ensures
        match r {
            Some(v) => int4_of(s@.subrange(a as int, b as int)) == Some(v as int),
            None => int4_of(s@.subrange(a as int, b as int)) is None,
        },
{
    let ghost t = s@.subrange(a as int, b as int);
    let negative = a < b && s[a] == '-';
    let start: usize = if a < b && (s[a] == '+' || s[a] == '-') {
        a + 1
    } else {
        a
    };
    assert(s@.subrange(start as int, b as int) =~= unsigned_part(t));
    if start == b || !digits_in(s, start, b) {
        return None;
    }
    let limit: u64 = if negative {
        2147483648
    } else {
        2147483647
    };
    match digits_value_upto(s, start, b, limit) {
        None => None,
        Some(v) => {
            if negative {
                Some((0 - (v as i64)) as i32)
            } else {
                Some(v as i32)
            }
        },
    }
}

/// Appends one field in the binary format; false, with nothing appended,
/// where a text is too long for the length prefix.
fn push_field(out: &mut Vec<u8>, value: &String, kind: BinaryKind, bits: Option<u64>) -> (ok: bool)
    ensures
        match field_bytes(kind, value@, bits) {
            Some(f) => ok && final(out)@ == old(out)@ + f,
            None => !ok && final(out)@ == old(out)@,
        },
{
    let cs = chars_of(value.as_str());
    if cs.len() == 0 {
        push_be32(out, 0xffff_ffff);
        return true;
    }
    match kind {
        BinaryKind::Int4 => {
            assert(cs@.subrange(0, cs@.len() as int) =~= value@);
            match parse_int4(&cs, 0, cs.len()) {
                Some(v) => {
                    push_be32(out, 4);
                    push_be32(out, v as u32);
                },
                None => push_be32(out, 0xffff_ffff),
            }
            true
        },
        BinaryKind::Float8 => {
            match bits {
                Some(x) => {
                    push_be32(out, 8);
                    push_be64(out, x);
                },
                None => push_be32(out, 0xffff_ffff),
            }
            true
        },
        BinaryKind::Date => {
            match parse_date(value.as_str(), "%Y-%m-%d") {
                Some(d) => {
                    let days = d as i64 - PG_EPOCH_DAY as i64;
                    if -2147483648 <= days && days <= 2147483647 {
                        push_be32(out, 4);
                        push_be32(out, days as i32 as u32);
                    } else {
                        push_be32(out, 0xffff_ffff);
                    }
                },
                None => push_be32(out, 0xffff_ffff),
            }
            true
        },
        BinaryKind::Text => {
            let bytes = value.as_str().as_bytes();
            if bytes.len() > 2147483647 {
                return false;
            }
            push_be32(out, bytes.len() as u32);
            let mut k: usize = 0;
            let ghost start = out@;
            while k < bytes.len()
                invariant
                    k <= bytes.len(),
                    out@ == start + bytes@.take(k as int),
                decreases bytes.len() - k,
            {
                out.push(bytes[k]);
                k = k + 1;
                assert(out@ =~= start + bytes@.take(k as int));
            }
            assert(bytes@.take(k as int) =~= bytes@);
            true
        },
    }
}

/// Encodes a record as a binary row: each field is read as its kind
/// (`bits` gives, by position, the float bits that the caller read from
/// each field); `None` where the row has more fields than the count can
/// hold or a text is too long.
pub fn prepare_binary_record(
    record: &Vec<String>,
    kinds: &Vec<BinaryKind>,
    bits: &Vec<Option<u64>>,
) -> (r: Option<Vec<u8>>)
    ensures
        match r {
            Some(v) => binary_record_of(fields_view(record@), kinds@, bits@) == Some(v@),
            None => binary_record_of(fields_view(record@), kinds@, bits@) is None,
        },
{
    let ghost texts = fields_view(record@);
    let n = if record.len() < kinds.len() {
        record.len()
    } else {
        kinds.len()
    };
    if n > 32767 {
        return None;
    }
    let mut out: Vec<u8> = Vec::new();
    push_be16(&mut out, n as u16);
    let ghost head = out@;
    let mut k: usize = 0;
    assert(out@.skip(2) =~= Seq::<u8>::empty());
    while k < n
        invariant
            k <= n,
            n <= 32767,
            texts == fields_view(record@),
            n == (if texts.len() < kinds@.len() {
                texts.len()
            } else {
                kinds@.len()
            }),
            fields_bytes(texts, kinds@, bits@, k as nat) == Some(out@.skip(2)),
            out@.len() >= 2,
            out@.take(2) == head,
        decreases n - k,
    {
        let b = if k < bits.len() {
            bits[k]
        } else {
            None
        };
        let ghost before = out@;
        assert(texts[k as int] == record@[k as int]@);
        let ok = push_field(&mut out, &record[k], kinds[k], b);
        if !ok {
            assert(fields_bytes(texts, kinds@, bits@, (k + 1) as nat) is None);
            proof {
                lemma_fields_none_extends(texts, kinds@, bits@, (k + 1) as nat, n as nat);
            }
            return None;
        }
        assert(out@.skip(2) =~= before.skip(2) + (out@.skip(before.len() as int)));
        assert(out@.take(2) =~= head);
        k = k + 1;
    }
    assert(out@ =~= be16(n as u16) + out@.skip(2));
    Some(out)
}

proof fn lemma_fields_none_extends(
    texts: Seq<Seq<char>>,
    kinds: Seq<BinaryKind>,
    bits: Seq<Option<u64>>,
    k: nat,
    n: nat,
)
    requires
        k <= n,
        fields_bytes(texts, kinds, bits, k) is None,
    ensures
        fields_bytes(texts, kinds, bits, n) is None,
    decreases n - k,
{
    if k < n {
        lemma_fields_none_extends(texts, kinds, bits, k + 1, n);
    }
}

/// The fields of one line of delimited text as the csv crate reads it: a
/// quoted field keeps its delimiters, and a doubled quote inside it stands
/// for one quote; `None` where the line cannot be read as a record.
pub open spec fn line_record_of(line: Seq<char>, delimiter: u8) -> Option<Seq<Seq<char>>> {
    match csv_records_of(encode_utf8(line), delimiter, false) {
        Some((first, _)) => Some(first),
        None => None,
    }
}

/// Reads one line of delimited text as a record, quotes and all; `None`
/// where it is malformed.
pub fn parse_line(line: &str, delimiter: u8) -> (r: Option<Vec<String>>)
    ensures
        match r {
            Some(v) => line_record_of(line@, delimiter) == Some(fields_view(v@)),
            None => line_record_of(line@, delimiter) is None,
        },
{
    match read_csv(line.as_bytes(), delimiter, false) {
        Some((first, _)) => Some(first),
        None => None,
    }
}

} // verus!
