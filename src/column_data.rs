//! Parameter values and their TDS wire form: a type-info prefix followed by
//! the value.
use crate::buf::{
    buf_bytes, le16, le32, le64, put_slice, put_u16_le, put_u32_le, put_u64_le, put_u8, read_u16_le,
    read_u32_le, read_u64_le, u16_at, u32_at, u64_at, lemma_u16_at, lemma_u32_at, lemma_u64_at,
};
use crate::client::{decimal, push_decimal};
use crate::error::Error;
use bytes::BytesMut;
use vstd::prelude::*;

verus! {

/// Type byte of a nullable bit.
pub const BITN: u8 = 0x68;

/// Type byte of a nullable integer of 1, 2, 4 or 8 bytes.
pub const INTN: u8 = 0x26;

/// Type byte of a nullable float of 4 or 8 bytes.
pub const FLTN: u8 = 0x6D;

/// Type byte of a nullable exact numeric.
pub const NUMERICN: u8 = 0x6C;

/// Length of a numeric value: the sign byte and a 16-byte magnitude.
pub const NUMERIC_LEN: u8 = 17;

/// Type byte of a nullable GUID.
pub const GUIDN: u8 = 0x24;

/// Type byte of a variable-length binary value.
pub const BIGVARBINARY: u8 = 0xA5;

/// The longest binary value, in bytes, sent as `varbinary(8000)`.
pub const SHORT_BINARY_BYTES: u16 = 8000;

/// Type byte of a Unicode string.
pub const NVARCHAR: u8 = 0xE7;

/// The longest string, in UTF-16 code units, sent as `nvarchar(4000)`;
/// longer ones go as `nvarchar(max)` in chunks.
pub const SHORT_STRING_UNITS: usize = 4000;

/// Maximal byte length declared for a short string.
pub const SHORT_STRING_BYTES: u16 = 8000;

/// Length marker of a null short string, and of a `max` declaration.
pub const NULL_LEN_U16: u16 = 0xFFFF;

/// Total-length marker of a null chunked string.
pub const PLP_NULL: u64 = 0xFFFF_FFFF_FFFF_FFFF;

/// The collation sent with string values: its info word and sort id.
#[derive(Debug, Clone, Copy, PartialEq, Eq, Structural)]
pub struct Collation {
    pub info: u32,
    pub sort_id: u8,
}

/// A parameter value, tagged with its SQL type; `None` is that type's null.
/// Real and float values are held as their IEEE-754 bit patterns, strings as
/// UTF-16 code units.
#[derive(Debug, Clone, PartialEq, Eq)]
pub enum ColumnData {
    Bit(Option<bool>),
    U8(Option<u8>),
    I16(Option<i16>),
    I32(Option<i32>),
    I64(Option<i64>),
    F32(Option<u32>),
    F64(Option<u64>),
    String(Option<Vec<u16>>),
    Guid(Option<[u8; 16]>),
    Binary(Option<Vec<u8>>),
    /// Precision, scale, and the unscaled value.
    Numeric(u8, u8, Option<i128>),
}

/// The mathematical value of a `ColumnData`.
pub enum ColumnValue {
    Bit(Option<bool>),
    U8(Option<u8>),
    I16(Option<i16>),
    I32(Option<i32>),
    I64(Option<i64>),
    F32(Option<u32>),
    F64(Option<u64>),
    String(Option<Seq<u16>>),
    Guid(Option<Seq<u8>>),
    Binary(Option<Seq<u8>>),
    Numeric(u8, u8, Option<i128>),
}

impl View for ColumnData {
    type V = ColumnValue;

    open spec fn view(&self) -> ColumnValue {
        match self {
            ColumnData::Bit(o) => ColumnValue::Bit(*o),
            ColumnData::U8(o) => ColumnValue::U8(*o),
            ColumnData::I16(o) => ColumnValue::I16(*o),
            ColumnData::I32(o) => ColumnValue::I32(*o),
            ColumnData::I64(o) => ColumnValue::I64(*o),
            ColumnData::F32(o) => ColumnValue::F32(*o),
            ColumnData::F64(o) => ColumnValue::F64(*o),
            ColumnData::String(None) => ColumnValue::String(None),
            ColumnData::String(Some(s)) => ColumnValue::String(Some(s@)),
            ColumnData::Guid(None) => ColumnValue::Guid(None),
            ColumnData::Guid(Some(g)) => ColumnValue::Guid(Some(g@)),
            ColumnData::Binary(None) => ColumnValue::Binary(None),
            ColumnData::Binary(Some(b)) => ColumnValue::Binary(Some(b@)),
            ColumnData::Numeric(p, sc, o) => ColumnValue::Numeric(*p, *sc, *o),
        }
    }
}

/// The SQL type name declared for a value in an RPC parameter list.
pub open spec fn declared_type_spec(v: ColumnValue) -> Seq<char> {
    match v {
        ColumnValue::Bit(_) => "bit"@,
        ColumnValue::U8(_) => "tinyint"@,
        ColumnValue::I16(_) => "smallint"@,
        ColumnValue::I32(_) => "int"@,
        ColumnValue::I64(_) => "bigint"@,
        ColumnValue::F32(_) => "real"@,
        ColumnValue::F64(_) => "float"@,
        ColumnValue::String(Some(s)) => if s.len() > SHORT_STRING_UNITS {
            "nvarchar(max)"@
        } else {
            "nvarchar(4000)"@
        },
        ColumnValue::String(None) => "nvarchar(4000)"@,
        ColumnValue::Guid(_) => "uniqueidentifier"@,
        ColumnValue::Binary(Some(b)) => if b.len() > SHORT_BINARY_BYTES {
            "varbinary(max)"@
        } else {
            "varbinary(8000)"@
        },
        ColumnValue::Binary(None) => "varbinary(8000)"@,
        ColumnValue::Numeric(p, sc, _) => "numeric("@ + decimal(p as nat) + ","@ + decimal(sc as nat)
            + ")"@,
    }
}

/// UTF-16 code units, each as two bytes, least significant first.
pub open spec fn units_le(s: Seq<u16>) -> Seq<u8>
    decreases s.len(),
{
    if s.len() == 0 {
        Seq::empty()
    } else {
        units_le(s.drop_last()) + le16(s.last())
    }
}

/// The `n` code units stored little-endian from `p` on.
pub open spec fn units_at(b: Seq<u8>, p: int, n: nat) -> Seq<u16>
    decreases n,
{
    if n == 0 {
        Seq::empty()
    } else {
        units_at(b, p, (n - 1) as nat).push(u16_at(b, p + 2 * (n - 1)))
    }
}

pub open spec fn collation_bytes(c: Collation) -> Seq<u8> {
    le32(c.info).push(c.sort_id)
}

/// Type byte, width, and then either a zero length (null) or the width
/// followed by the value's bytes.
pub open spec fn fixed_len(ty: u8, width: u8, value: Option<Seq<u8>>) -> Seq<u8> {
    match value {
        None => seq![ty, width, 0u8],
        Some(b) => seq![ty, width, width] + b,
    }
}

/// Whether a value fits its wire format: a chunked string's byte length
/// must fit the `u32` chunk length.
pub open spec fn encodable(v: ColumnValue) -> bool {
    match v {
        ColumnValue::String(Some(s)) => 2 * s.len() <= u32::MAX,
        ColumnValue::Binary(Some(b)) => b.len() <= u32::MAX,
        ColumnValue::Guid(Some(g)) => g.len() == 16,
        _ => true,
    }
}

/// The wire form of a parameter value: type info, then value.
pub open spec fn encode_value(v: ColumnValue, c: Collation) -> Seq<u8> {
    match v {
        ColumnValue::Bit(None) => fixed_len(BITN, 1, None),
        ColumnValue::Bit(Some(b)) => fixed_len(BITN, 1, Some(seq![if b { 1u8 } else { 0u8 }])),
        ColumnValue::U8(None) => fixed_len(INTN, 1, None),
        ColumnValue::U8(Some(n)) => fixed_len(INTN, 1, Some(seq![n])),
        ColumnValue::I16(None) => fixed_len(INTN, 2, None),
        ColumnValue::I16(Some(n)) => fixed_len(INTN, 2, Some(le16(n as u16))),
        ColumnValue::I32(None) => fixed_len(INTN, 4, None),
        ColumnValue::I32(Some(n)) => fixed_len(INTN, 4, Some(le32(n as u32))),
        ColumnValue::I64(None) => fixed_len(INTN, 8, None),
        ColumnValue::I64(Some(n)) => fixed_len(INTN, 8, Some(le64(n as u64))),
        ColumnValue::F32(None) => fixed_len(FLTN, 4, None),
        ColumnValue::F32(Some(n)) => fixed_len(FLTN, 4, Some(le32(n))),
        ColumnValue::F64(None) => fixed_len(FLTN, 8, None),
        ColumnValue::F64(Some(n)) => fixed_len(FLTN, 8, Some(le64(n))),
        ColumnValue::String(None) => seq![NVARCHAR] + le16(SHORT_STRING_BYTES) + collation_bytes(c)
            + le16(NULL_LEN_U16),
        ColumnValue::String(Some(s)) => if s.len() <= SHORT_STRING_UNITS {
            seq![NVARCHAR] + le16(SHORT_STRING_BYTES) + collation_bytes(c) + le16(
                (2 * s.len()) as u16,
            ) + units_le(s)
        } else {
            seq![NVARCHAR] + le16(NULL_LEN_U16) + collation_bytes(c) + le64((2 * s.len()) as u64)
                + le32((2 * s.len()) as u32) + units_le(s) + le32(0)
        },
        ColumnValue::Numeric(p, sc, None) => seq![NUMERICN, NUMERIC_LEN, p, sc, 0u8],
        ColumnValue::Numeric(p, sc, Some(v)) => seq![NUMERICN, NUMERIC_LEN, p, sc, NUMERIC_LEN]
            + numeric_value_bytes(v),
        ColumnValue::Guid(None) => fixed_len(GUIDN, 16, None),
        ColumnValue::Guid(Some(g)) => fixed_len(GUIDN, 16, Some(g)),
        ColumnValue::Binary(None) => seq![BIGVARBINARY] + le16(SHORT_BINARY_BYTES) + le16(NULL_LEN_U16),
        ColumnValue::Binary(Some(b)) => if b.len() <= SHORT_BINARY_BYTES {
            seq![BIGVARBINARY] + le16(SHORT_BINARY_BYTES) + le16(b.len() as u16) + b
        } else {
            seq![BIGVARBINARY] + le16(NULL_LEN_U16) + le64(b.len() as u64) + le32(b.len() as u32) + b
                + le32(0)
        },
    }
}

pub const TWO_POW_64: u128 = 0x1_0000_0000_0000_0000;

/// The magnitude of a numeric value.
pub open spec fn magnitude(v: i128) -> int {
    if v >= 0 { v as int } else { -(v as int) }
}

/// A numeric value's sign byte (1 for non-negative) and magnitude, low
/// half first.
pub open spec fn numeric_value_bytes(v: i128) -> Seq<u8> {
    seq![if v >= 0 { 1u8 } else { 0u8 }] + le64((magnitude(v) % (TWO_POW_64 as int)) as u64) + le64(
        (magnitude(v) / (TWO_POW_64 as int)) as u64,
    )
}

/// The numeric value of a sign byte and a magnitude, if it fits an `i128`.
pub open spec fn numeric_of(sign: u8, m: int) -> Option<i128> {
    if sign == 1 && m <= i128::MAX {
        Some(m as i128)
    } else if sign == 0 && m <= -(i128::MIN as int) {
        Some((-m) as i128)
    } else {
        None
    }
}

/// A binary value whose type byte stands at `p`, and the position after it.
pub open spec fn decode_binary_at(b: Seq<u8>, p: int) -> Option<(ColumnValue, int)> {
    if p + 5 > b.len() {
        None
    } else if u16_at(b, p + 1) == NULL_LEN_U16 {
        if p + 11 > b.len() {
            None
        } else if u64_at(b, p + 3) == PLP_NULL {
            Some((ColumnValue::Binary(None), p + 11))
        } else {
            match plp_at(b, p + 11) {
                Some((d, e)) => Some((ColumnValue::Binary(Some(d)), e)),
                None => None,
            }
        }
    } else {
        let n = u16_at(b, p + 3) as int;
        if n == NULL_LEN_U16 {
            Some((ColumnValue::Binary(None), p + 5))
        } else if p + 5 + n <= b.len() {
            Some((ColumnValue::Binary(Some(b.subrange(p + 5, p + 5 + n))), p + 5 + n))
        } else {
            None
        }
    }
}

/// The bytes of a chunked value whose first chunk length stands at `p`, and
/// the position after its terminating empty chunk.
pub open spec fn plp_at(b: Seq<u8>, p: int) -> Option<(Seq<u8>, int)>
    decreases b.len() - p,
{
    if p < 0 || p + 4 > b.len() {
        None
    } else {
        let n = u32_at(b, p) as int;
        if n == 0 {
            Some((Seq::empty(), p + 4))
        } else if p + 4 + n > b.len() {
            None
        } else {
            match plp_at(b, p + 4 + n) {
                Some((rest, e)) => Some((b.subrange(p + 4, p + 4 + n) + rest, e)),
                None => None,
            }
        }
    }
}

/// A string value whose type byte stands at `p`, and the position after it.
pub open spec fn decode_string_at(b: Seq<u8>, p: int) -> Option<(ColumnValue, int)> {
    if p + 10 > b.len() {
        None
    } else if u16_at(b, p + 1) == NULL_LEN_U16 {
        if p + 16 > b.len() {
            None
        } else if u64_at(b, p + 8) == PLP_NULL {
            Some((ColumnValue::String(None), p + 16))
        } else {
            match plp_at(b, p + 16) {
                Some((d, e)) => if d.len() % 2 == 0 {
                    Some((ColumnValue::String(Some(units_at(d, 0, d.len() / 2))), e))
                } else {
                    None
                },
                None => None,
            }
        }
    } else {
        let n = u16_at(b, p + 8) as int;
        if n == NULL_LEN_U16 {
            Some((ColumnValue::String(None), p + 10))
        } else if n % 2 == 0 && p + 10 + n <= b.len() {
            Some((ColumnValue::String(Some(units_at(b, p + 10, (n / 2) as nat))), p + 10 + n))
        } else {
            None
        }
    }
}

/// The value whose type byte stands at `p`, and the position after it.
pub open spec fn decode_at(b: Seq<u8>, p: int) -> Option<(ColumnValue, int)> {
    if p < 0 || p + 3 > b.len() {
        None
    } else {
        let ty = b[p];
        let w = b[p + 1];
        let n = b[p + 2];
        let q = p + 3;
        if ty == NUMERICN {
            if w != NUMERIC_LEN || p + 5 > b.len() {
                None
            } else if b[p + 4] == 0 {
                Some((ColumnValue::Numeric(b[p + 2], b[p + 3], None), p + 5))
            } else if b[p + 4] == NUMERIC_LEN && p + 22 <= b.len() {
                let m = u64_at(b, p + 14) as int * TWO_POW_64 as int + u64_at(b, p + 6) as int;
                match numeric_of(b[p + 5], m) {
                    Some(v) => Some((ColumnValue::Numeric(b[p + 2], b[p + 3], Some(v)), p + 22)),
                    None => None,
                }
            } else {
                None
            }
        } else if ty == BITN {
            if w != 1 {
                None
            } else if n == 0 {
                Some((ColumnValue::Bit(None), q))
            } else if n == 1 && q + 1 <= b.len() {
                Some((ColumnValue::Bit(Some(b[q] != 0)), q + 1))
            } else {
                None
            }
        } else if ty == INTN || ty == FLTN {
            if n != 0 && (n != w || q + w > b.len()) {
                None
            } else if ty == INTN && w == 1 {
                Some((ColumnValue::U8(if n == 0 { None } else { Some(b[q]) }), q + n))
            } else if ty == INTN && w == 2 {
                Some((ColumnValue::I16(if n == 0 { None } else { Some(u16_at(b, q) as i16) }), q + n))
            } else if ty == INTN && w == 4 {
                Some((ColumnValue::I32(if n == 0 { None } else { Some(u32_at(b, q) as i32) }), q + n))
            } else if ty == INTN && w == 8 {
                Some((ColumnValue::I64(if n == 0 { None } else { Some(u64_at(b, q) as i64) }), q + n))
            } else if ty == FLTN && w == 4 {
                Some((ColumnValue::F32(if n == 0 { None } else { Some(u32_at(b, q)) }), q + n))
            } else if ty == FLTN && w == 8 {
                Some((ColumnValue::F64(if n == 0 { None } else { Some(u64_at(b, q)) }), q + n))
            } else {
                None
            }
        } else if ty == GUIDN {
            if w != 16 {
                None
            } else if n == 0 {
                Some((ColumnValue::Guid(None), q))
            } else if n == 16 && q + 16 <= b.len() {
                Some((ColumnValue::Guid(Some(b.subrange(q, q + 16))), q + 16))
            } else {
                None
            }
        } else if ty == NVARCHAR {
            decode_string_at(b, p)
        } else if ty == BIGVARBINARY {
            decode_binary_at(b, p)
        } else {
            None
        }
    }
}

pub proof fn lemma_units_le_len(s: Seq<u16>)
    ensures
        units_le(s).len() == 2 * s.len(),
    decreases s.len(),
{
    if s.len() > 0 {
        lemma_units_le_len(s.drop_last());
    }
}

/// Code units written with `units_le` read back unchanged.
pub proof fn lemma_units_at(b: Seq<u8>, p: int, s: Seq<u16>)
    requires
        0 <= p,
        p + 2 * s.len() <= b.len(),
        b.subrange(p, p + 2 * s.len()) == units_le(s),
    ensures
        units_at(b, p, s.len()) == s,
    decreases s.len(),
{
    if s.len() > 0 {
        let k = s.len() - 1;
        let t = s.drop_last();
        lemma_units_le_len(t);
        assert(b.subrange(p, p + 2 * k) =~= b.subrange(p, p + 2 * s.len()).subrange(0, 2 * k));
        assert(units_le(s).subrange(0, 2 * k) =~= units_le(t));
        lemma_units_at(b, p, t);
        assert(b.subrange(p + 2 * k, p + 2 * k + 2) =~= units_le(s).subrange(2 * k, 2 * k + 2));
        assert(units_le(s).subrange(2 * k, 2 * k + 2) =~= le16(s.last()));
        lemma_u16_at(b, p + 2 * k, s.last());
        assert(units_at(b, p, s.len()) =~= s);
    }
}

proof fn lemma_fixed_round_trip(ty: u8, w: u8, v: Seq<u8>, rest: Seq<u8>)
    requires
        v.len() == w,
    ensures
        ({
            let b = fixed_len(ty, w, Some(v)) + rest;
            &&& b.len() == 3 + w + rest.len()
            &&& b[0] == ty
            &&& b[1] == w
            &&& b[2] == w
            &&& b.subrange(3, 3 + w) == v
            &&& w >= 1 ==> b[3] == v[0]
        }),
        ({
            let b = fixed_len(ty, w, None) + rest;
            &&& b.len() == 3 + rest.len()
            &&& b[0] == ty
            &&& b[1] == w
            &&& b[2] == 0
        }),
{
    let b = fixed_len(ty, w, Some(v)) + rest;
    assert(b.subrange(3, 3 + w) =~= v);
    if w >= 1 {
        assert(b[3] == v[0]);
    }
}

proof fn lemma_string_round_trip(v: ColumnValue, c: Collation, rest: Seq<u8>)
    requires
        encodable(v),
        v is String,
    ensures
        decode_at(encode_value(v, c) + rest, 0) == Some((v, encode_value(v, c).len() as int)),
{
    let e = encode_value(v, c);
    let b = e + rest;
    assert(b[0] == NVARCHAR);
    assert(b.len() >= 10);
    match v {
        ColumnValue::String(None) => lemma_null_string_round_trip(c, rest),
        ColumnValue::String(Some(s)) => if s.len() <= SHORT_STRING_UNITS {
            lemma_short_string_round_trip(s, c, rest)
        } else {
            lemma_long_string_round_trip(s, c, rest)
        },
        _ => {},
    }
}

proof fn lemma_null_string_round_trip(c: Collation, rest: Seq<u8>)
    ensures
        ({
            let e = encode_value(ColumnValue::String(None), c);
            decode_string_at(e + rest, 0) == Some((ColumnValue::String(None), e.len() as int))
        }),
{
    let e = encode_value(ColumnValue::String(None), c);
    let b = e + rest;
    assert(b.subrange(1, 3) =~= le16(SHORT_STRING_BYTES));
    assert(b.subrange(8, 10) =~= le16(NULL_LEN_U16));
    lemma_u16_at(b, 1, SHORT_STRING_BYTES);
    lemma_u16_at(b, 8, NULL_LEN_U16);
}

proof fn lemma_short_string_round_trip(s: Seq<u16>, c: Collation, rest: Seq<u8>)
    requires
        s.len() <= SHORT_STRING_UNITS,
    ensures
        ({
            let v = ColumnValue::String(Some(s));
            let e = encode_value(v, c);
            decode_string_at(e + rest, 0) == Some((v, e.len() as int))
        }),
{
    let v = ColumnValue::String(Some(s));
    let e = encode_value(v, c);
    let b = e + rest;
    let n: int = s.len() as int;
    lemma_units_le_len(s);
    assert(e.len() == 10 + 2 * n);
    assert(b.subrange(1, 3) =~= le16(SHORT_STRING_BYTES));
    assert(b.subrange(8, 10) =~= le16((2 * n) as u16));
    assert(b.subrange(10, 10 + 2 * n) =~= units_le(s));
    lemma_u16_at(b, 1, SHORT_STRING_BYTES);
    lemma_u16_at(b, 8, (2 * n) as u16);
    lemma_units_at(b, 10, s);
    let sl = s.len();
    let bl = (2 * n) as u16 as int;
    assert(bl % 2 == 0 && bl / 2 == sl) by (nonlinear_arith)
        requires
            bl == 2 * sl,
    ;
}

/// One non-empty chunk followed by the empty one reads back as that chunk.
proof fn lemma_plp_single(b: Seq<u8>, p: int, d: Seq<u8>)
    requires
        0 <= p,
        0 < d.len() <= u32::MAX,
        p + 8 + d.len() <= b.len(),
        b.subrange(p, p + 4) == le32(d.len() as u32),
        b.subrange(p + 4, p + 4 + d.len()) == d,
        b.subrange(p + 4 + d.len(), p + 8 + d.len()) == le32(0),
    ensures
        plp_at(b, p) == Some((d, p + 8 + d.len())),
{
    let q = p + 4 + d.len();
    lemma_u32_at(b, p, d.len() as u32);
    lemma_u32_at(b, q, 0);
    assert(plp_at(b, q) == Some((Seq::<u8>::empty(), q + 4)));
    assert(d + Seq::<u8>::empty() =~= d);
}

proof fn lemma_long_string_round_trip(s: Seq<u16>, c: Collation, rest: Seq<u8>)
    requires
        s.len() > SHORT_STRING_UNITS,
        2 * s.len() <= u32::MAX,
    ensures
        ({
            let v = ColumnValue::String(Some(s));
            let e = encode_value(v, c);
            decode_string_at(e + rest, 0) == Some((v, e.len() as int))
        }),
{
    let v = ColumnValue::String(Some(s));
    let m: int = 2 * s.len() as int;
    let h = seq![NVARCHAR] + le16(NULL_LEN_U16) + collation_bytes(c) + le64(m as u64);
    let d = units_le(s);
    let t = le32(m as u32) + d + le32(0);
    assert(encode_value(v, c) =~= h + t);
    let b = h + t + rest;
    lemma_units_le_len(s);
    assert(h.len() == 16);
    assert(b.subrange(1, 3) =~= le16(NULL_LEN_U16));
    assert(b.subrange(8, 16) =~= le64(m as u64));
    lemma_u16_at(b, 1, NULL_LEN_U16);
    lemma_u64_at(b, 8, m as u64);
    assert(b.subrange(16, 20) =~= le32(m as u32));
    assert(b.subrange(20, 20 + m) =~= d);
    assert(b.subrange(20 + m, 24 + m) =~= le32(0));
    lemma_plp_single(b, 16, d);
    assert(d.subrange(0, m) =~= d);
    lemma_units_at(d, 0, s);
    let dl = d.len();
    let sl = s.len();
    assert(dl % 2 == 0 && dl / 2 == sl) by (nonlinear_arith)
        requires
            dl == 2 * sl,
    ;
    assert(u64_at(b, 8) != PLP_NULL);
    assert(decode_string_at(b, 0) == Some((v, 24 + m)));
}

proof fn lemma_numeric_round_trip(p: u8, sc: u8, o: Option<i128>, rest: Seq<u8>)
    ensures
        ({
            let v = ColumnValue::Numeric(p, sc, o);
            decode_at(encode_value(v, Collation { info: 0, sort_id: 0 }) + rest, 0) == Some(
                (v, encode_value(v, Collation { info: 0, sort_id: 0 }).len() as int),
            )
        }),
{
    let v = ColumnValue::Numeric(p, sc, o);
    let e = encode_value(v, Collation { info: 0, sort_id: 0 });
    let b = e + rest;
    if let Some(x) = o {
        let m = magnitude(x);
        let k = TWO_POW_64 as int;
        let lo = (m % k) as u64;
        let hi = (m / k) as u64;
        assert(0 <= m <= 0x8000_0000_0000_0000_0000_0000_0000_0000);
        assert(0 <= m % k < k && 0 <= m / k < k && m == (m / k) * k + m % k) by (nonlinear_arith)
            requires
                0 <= m <= 0x8000_0000_0000_0000_0000_0000_0000_0000,
                k == 0x1_0000_0000_0000_0000,
        ;
        assert(b.subrange(6, 14) =~= le64(lo));
        assert(b.subrange(14, 22) =~= le64(hi));
        lemma_u64_at(b, 6, lo);
        lemma_u64_at(b, 14, hi);
        assert(numeric_of(b[5], m) == Some(x));
    }
}

proof fn lemma_binary_round_trip(v: ColumnValue, c: Collation, rest: Seq<u8>)
    requires
        encodable(v),
        v is Binary,
    ensures
        decode_at(encode_value(v, c) + rest, 0) == Some((v, encode_value(v, c).len() as int)),
{
    let e = encode_value(v, c);
    let b = e + rest;
    assert(b[0] == BIGVARBINARY);
    assert(b.len() >= 5);
    match v {
        ColumnValue::Binary(None) => {
            assert(b.subrange(1, 3) =~= le16(SHORT_BINARY_BYTES));
            assert(b.subrange(3, 5) =~= le16(NULL_LEN_U16));
            lemma_u16_at(b, 1, SHORT_BINARY_BYTES);
            lemma_u16_at(b, 3, NULL_LEN_U16);
            assert(decode_binary_at(b, 0) == Some((v, 5int)));
        },
        ColumnValue::Binary(Some(d)) => if d.len() <= SHORT_BINARY_BYTES {
            lemma_short_binary_round_trip(d, rest);
        } else {
            lemma_long_binary_round_trip(d, rest);
        },
        _ => {},
    }
}

proof fn lemma_short_binary_round_trip(d: Seq<u8>, rest: Seq<u8>)
    requires
        d.len() <= SHORT_BINARY_BYTES,
    ensures
        ({
            let v = ColumnValue::Binary(Some(d));
            let e = seq![BIGVARBINARY] + le16(SHORT_BINARY_BYTES) + le16(d.len() as u16) + d;
            decode_binary_at(e + rest, 0) == Some((v, e.len() as int))
        }),
{
    let e = seq![BIGVARBINARY] + le16(SHORT_BINARY_BYTES) + le16(d.len() as u16) + d;
    let b = e + rest;
    assert(b.subrange(1, 3) =~= le16(SHORT_BINARY_BYTES));
    assert(b.subrange(3, 5) =~= le16(d.len() as u16));
    assert(b.subrange(5, 5 + d.len() as int) =~= d);
    lemma_u16_at(b, 1, SHORT_BINARY_BYTES);
    lemma_u16_at(b, 3, d.len() as u16);
}

proof fn lemma_long_binary_round_trip(d: Seq<u8>, rest: Seq<u8>)
    requires
        d.len() > SHORT_BINARY_BYTES,
        d.len() <= u32::MAX,
    ensures
        ({
            let v = ColumnValue::Binary(Some(d));
            let e = seq![BIGVARBINARY] + le16(NULL_LEN_U16) + le64(d.len() as u64) + le32(
                d.len() as u32,
            ) + d + le32(0);
            decode_binary_at(e + rest, 0) == Some((v, e.len() as int))
        }),
{
    let m: int = d.len() as int;
    let h = seq![BIGVARBINARY] + le16(NULL_LEN_U16) + le64(m as u64);
    let t = le32(m as u32) + d + le32(0);
    let e = seq![BIGVARBINARY] + le16(NULL_LEN_U16) + le64(d.len() as u64) + le32(d.len() as u32)
        + d + le32(0);
    assert(e =~= h + t);
    let b = h + t + rest;
    assert(h.len() == 11);
    assert(b.subrange(1, 3) =~= le16(NULL_LEN_U16));
    assert(b.subrange(3, 11) =~= le64(m as u64));
    lemma_u16_at(b, 1, NULL_LEN_U16);
    lemma_u64_at(b, 3, m as u64);
    assert(b.subrange(11, 15) =~= le32(m as u32));
    assert(b.subrange(15, 15 + m) =~= d);
    assert(b.subrange(15 + m, 19 + m) =~= le32(0));
    lemma_plp_single(b, 11, d);
    assert(u64_at(b, 3) != PLP_NULL);
    assert(e + rest == b);
}

/// Decoding the encoding of a value gives back that value, and consumes
/// exactly the bytes written, whatever follows them.
pub proof fn lemma_round_trip(v: ColumnValue, c: Collation, rest: Seq<u8>)
    requires
        encodable(v),
    ensures
        decode_at(encode_value(v, c) + rest, 0) == Some((v, encode_value(v, c).len() as int)),
{
    let e = encode_value(v, c);
    let b = e + rest;
    match v {
        ColumnValue::Bit(None) => lemma_fixed_round_trip(BITN, 1, seq![0u8], rest),
        ColumnValue::Bit(Some(x)) => {
            lemma_fixed_round_trip(BITN, 1, seq![if x { 1u8 } else { 0u8 }], rest);
        },
        ColumnValue::U8(o) => {
            let n: u8 = if let Some(n) = o { n } else { 0 };
            lemma_fixed_round_trip(INTN, 1, seq![n], rest);
        },
        ColumnValue::I16(o) => {
            let n: i16 = if let Some(n) = o { n } else { 0 };
            lemma_fixed_round_trip(INTN, 2, le16(n as u16), rest);
            if o is Some {
                lemma_u16_at(b, 3, n as u16);
                assert(((n as u16) as i16) == n) by (bit_vector);
            }
        },
        ColumnValue::I32(o) => {
            let n: i32 = if let Some(n) = o { n } else { 0 };
            lemma_fixed_round_trip(INTN, 4, le32(n as u32), rest);
            if o is Some {
                lemma_u32_at(b, 3, n as u32);
                assert(((n as u32) as i32) == n) by (bit_vector);
            }
        },
        ColumnValue::I64(o) => {
            let n: i64 = if let Some(n) = o { n } else { 0 };
            lemma_fixed_round_trip(INTN, 8, le64(n as u64), rest);
            if o is Some {
                lemma_u64_at(b, 3, n as u64);
                assert(((n as u64) as i64) == n) by (bit_vector);
            }
        },
        ColumnValue::F32(o) => {
            let n: u32 = if let Some(n) = o { n } else { 0 };
            lemma_fixed_round_trip(FLTN, 4, le32(n), rest);
            if o is Some {
                lemma_u32_at(b, 3, n);
            }
        },
        ColumnValue::F64(o) => {
            let n: u64 = if let Some(n) = o { n } else { 0 };
            lemma_fixed_round_trip(FLTN, 8, le64(n), rest);
            if o is Some {
                lemma_u64_at(b, 3, n);
            }
        },
        ColumnValue::String(_) => lemma_string_round_trip(v, c, rest),
        ColumnValue::Guid(o) => {
            let g: Seq<u8> = if let Some(g) = o { g } else { Seq::new(16, |i: int| 0u8) };
            lemma_fixed_round_trip(GUIDN, 16, g, rest);
        },
        ColumnValue::Binary(_) => lemma_binary_round_trip(v, c, rest),
        ColumnValue::Numeric(p, sc, o) => lemma_numeric_round_trip(p, sc, o, rest),
    }
}

/// Appends each code unit as two bytes, least significant first.
pub fn put_units(dst: &mut BytesMut, s: &Vec<u16>)
    requires
        buf_bytes(*old(dst)).len() + 2 * s@.len() <= isize::MAX,
    ensures
        buf_bytes(*final(dst)) == buf_bytes(*old(dst)) + units_le(s@),
{
    let mut i: usize = 0;
    while i < s.len()
        invariant
            i <= s@.len(),
            buf_bytes(*old(dst)).len() + 2 * s@.len() <= isize::MAX,
            buf_bytes(*dst) == buf_bytes(*old(dst)) + units_le(s@.subrange(0, i as int)),
        decreases s@.len() - i,
    {
        proof {
            lemma_units_le_len(s@.subrange(0, i as int));
        }
        put_u16_le(dst, s[i]);
        proof {
            assert(s@.subrange(0, i + 1).drop_last() =~= s@.subrange(0, i as int));
        }
        i += 1;
    }
    assert(s@.subrange(0, i as int) =~= s@);
}

/// Type byte, width, and value length, the head of every fixed-width value.
fn put_fixed_head(dst: &mut BytesMut, ty: u8, width: u8, null: bool)
    requires
        buf_bytes(*old(dst)).len() + 3 <= isize::MAX,
    ensures
        buf_bytes(*final(dst)) == buf_bytes(*old(dst)) + seq![ty, width, if null { 0u8 } else { width }],
{
    put_u8(dst, ty);
    put_u8(dst, width);
    put_u8(dst, if null { 0u8 } else { width });
    assert(buf_bytes(*dst) =~= buf_bytes(*old(dst)) + seq![ty, width, if null { 0u8 } else { width }]);
}

fn put_collation(dst: &mut BytesMut, c: Collation)
    requires
        buf_bytes(*old(dst)).len() + 5 <= isize::MAX,
    ensures
        buf_bytes(*final(dst)) == buf_bytes(*old(dst)) + collation_bytes(c),
{
    put_u32_le(dst, c.info);
    put_u8(dst, c.sort_id);
    assert(buf_bytes(*dst) =~= buf_bytes(*old(dst)) + collation_bytes(c));
}

/// Reads `n` code units stored little-endian from `p` on.
pub fn read_units(b: &[u8], p: usize, n: usize) -> (r: Vec<u16>)
    requires
        p + 2 * n <= b@.len(),
    ensures
        r@ == units_at(b@, p as int, n as nat),
{
    let mut r: Vec<u16> = Vec::new();
    let mut i: usize = 0;
    assert(b.len() == b@.len());
    while i < n
        invariant
            i <= n,
            b@.len() <= usize::MAX,
            p + 2 * n <= b@.len(),
            r@ == units_at(b@, p as int, i as nat),
        decreases n - i,
    {
        r.push(read_u16_le(b, p + 2 * i));
        i += 1;
    }
    r
}

/// Reads a chunked value whose first chunk length stands at `p`.
pub fn read_plp(b: &[u8], p: usize) -> (r: Result<(Vec<u8>, usize), Error>)
    ensures
        match plp_at(b@, p as int) {
            Some((d, e)) => r matches Ok((v, q)) && v@ == d && q == e,
            None => r == Err::<(Vec<u8>, usize), Error>(Error::ProtocolViolation),
        },
{
    let len = b.len();
    let mut data: Vec<u8> = Vec::new();
    let mut q: usize = p;
    loop
        invariant
            len == b@.len(),
            p <= q,
            plp_at(b@, p as int) == match plp_at(b@, q as int) {
                Some((d, e)) => Some((data@ + d, e)),
                None => None,
            },
        decreases len - q,
    {
        if q > len || len - q < 4 {
            return Err(Error::ProtocolViolation);
        }
        let n = read_u32_le(b, q) as usize;
        if n == 0 {
            assert(data@ + Seq::<u8>::empty() =~= data@);
            return Ok((data, q + 4));
        }
        if n > len - q - 4 {
            return Err(Error::ProtocolViolation);
        }
        let ghost before = data@;
        let mut i: usize = q + 4;
        while i < q + 4 + n
            invariant
                q + 4 <= i <= q + 4 + n <= len,
                len == b@.len(),
                data@ == before + b@.subrange(q + 4, i as int),
            decreases q + 4 + n - i,
        {
            data.push(b[i]);
            assert(b@.subrange(q + 4, i + 1) =~= b@.subrange(q + 4, i as int).push(b@[i as int]));
            i += 1;
        }
        proof {
            let next = q + 4 + n;
            match plp_at(b@, next as int) {
                Some((d, e)) => {
                    assert(before + (b@.subrange(q + 4, next as int) + d) =~= data@ + d);
                },
                None => {},
            }
        }
        q = q + 4 + n;
    }
}

/// Reads a string value whose type byte stands at `p`.
fn decode_string(b: &[u8], p: usize) -> (r: Result<(ColumnData, usize), Error>)
    requires
        p < b@.len(),
    ensures
        match decode_string_at(b@, p as int) {
            Some((v, e)) => r matches Ok((d, q)) && d@ == v && q == e,
            None => r == Err::<(ColumnData, usize), Error>(Error::ProtocolViolation),
        },
{
    let len = b.len();
    if len - p < 10 {
        return Err(Error::ProtocolViolation);
    }
    if read_u16_le(b, p + 1) == NULL_LEN_U16 {
        if len - p < 16 {
            return Err(Error::ProtocolViolation);
        }
        if read_u64_le(b, p + 8) == PLP_NULL {
            return Ok((ColumnData::String(None), p + 16));
        }
        let (data, e) = read_plp(b, p + 16)?;
        if data.len() % 2 != 0 {
            return Err(Error::ProtocolViolation);
        }
        let units = read_units(data.as_slice(), 0, data.len() / 2);
        Ok((ColumnData::String(Some(units)), e))
    } else {
        let n = read_u16_le(b, p + 8) as usize;
        if n == NULL_LEN_U16 as usize {
            Ok((ColumnData::String(None), p + 10))
        } else if n % 2 == 0 && n <= len - p - 10 {
            let units = read_units(b, p + 10, n / 2);
            Ok((ColumnData::String(Some(units)), p + 10 + n))
        } else {
            Err(Error::ProtocolViolation)
        }
    }
}

fn put_numeric_value(dst: &mut BytesMut, v: i128)
    requires
        buf_bytes(*old(dst)).len() + 17 <= isize::MAX,
    ensures
        buf_bytes(*final(dst)) == buf_bytes(*old(dst)) + numeric_value_bytes(v),
{
    let m: u128 = if v >= 0 { v as u128 } else { ((-(v + 1)) as u128) + 1 };
    put_u8(dst, if v >= 0 { 1u8 } else { 0u8 });
    put_u64_le(dst, (m % TWO_POW_64) as u64);
    put_u64_le(dst, (m / TWO_POW_64) as u64);
    assert(buf_bytes(*dst) =~= buf_bytes(*old(dst)) + numeric_value_bytes(v));
}

/// Reads a numeric value's sign byte and magnitude at `q`.
fn read_numeric_value(b: &[u8], q: usize) -> (r: Option<i128>)
    requires
        q + 17 <= b@.len(),
    ensures
        r == numeric_of(b@[q as int], u64_at(b@, q + 9) as int * TWO_POW_64 as int + u64_at(b@, q + 1) as int),
{
    assert(b.len() == b@.len());
    let lo = read_u64_le(b, q + 1);
    let hi = read_u64_le(b, q + 9);
    let ghost m: int = hi as int * TWO_POW_64 as int + lo as int;
    let ghost h = hi as int;
    let ghost l = lo as int;
    assert(0 <= m < 0x1_0000_0000_0000_0000_0000_0000_0000_0000) by (nonlinear_arith)
        requires
            m == h * 0x1_0000_0000_0000_0000 + l,
            0 <= h < 0x1_0000_0000_0000_0000,
            0 <= l < 0x1_0000_0000_0000_0000,
    ;
    let mag: u128 = (hi as u128) * TWO_POW_64 + (lo as u128);
    let sign = b[q];
    if sign == 1 && mag <= i128::MAX as u128 {
        Some(mag as i128)
    } else if sign == 0 && mag <= i128::MAX as u128 {
        Some(-(mag as i128))
    } else if sign == 0 && mag == i128::MAX as u128 + 1 {
        Some(i128::MIN)
    } else {
        None
    }
}

/// Copies `n` bytes from `p` on.
fn copy_bytes(b: &[u8], p: usize, n: usize) -> (r: Vec<u8>)
    requires
        p + n <= b@.len(),
    ensures
        r@ == b@.subrange(p as int, p + n),
{
    let mut r: Vec<u8> = Vec::new();
    let mut i: usize = p;
    assert(b.len() == b@.len());
    while i < p + n
        invariant
            b@.len() <= usize::MAX,
            p <= i <= p + n <= b@.len(),
            r@ == b@.subrange(p as int, i as int),
        decreases p + n - i,
    {
        r.push(b[i]);
        assert(b@.subrange(p as int, i + 1) =~= b@.subrange(p as int, i as int).push(b@[i as int]));
        i += 1;
    }
    r
}

/// Reads a binary value whose type byte stands at `p`.
fn decode_binary(b: &[u8], p: usize) -> (r: Result<(ColumnData, usize), Error>)
    requires
        p < b@.len(),
    ensures
        match decode_binary_at(b@, p as int) {
            Some((v, e)) => r matches Ok((d, q)) && d@ == v && q == e,
            None => r == Err::<(ColumnData, usize), Error>(Error::ProtocolViolation),
        },
{
    let len = b.len();
    if len - p < 5 {
        return Err(Error::ProtocolViolation);
    }
    if read_u16_le(b, p + 1) == NULL_LEN_U16 {
        if len - p < 11 {
            return Err(Error::ProtocolViolation);
        }
        if read_u64_le(b, p + 3) == PLP_NULL {
            return Ok((ColumnData::Binary(None), p + 11));
        }
        let (data, e) = read_plp(b, p + 11)?;
        Ok((ColumnData::Binary(Some(data)), e))
    } else {
        let n = read_u16_le(b, p + 3) as usize;
        if n == NULL_LEN_U16 as usize {
            Ok((ColumnData::Binary(None), p + 5))
        } else if n <= len - p - 5 {
            Ok((ColumnData::Binary(Some(copy_bytes(b, p + 5, n))), p + 5 + n))
        } else {
            Err(Error::ProtocolViolation)
        }
    }
}

impl ColumnData {
    /// Reads the value whose type byte stands at `pos`, and returns it with
    /// the position just after it.
    pub fn decode(b: &[u8], pos: usize) -> (r: Result<(ColumnData, usize), Error>)
        ensures
            match decode_at(b@, pos as int) {
                Some((v, e)) => r matches Ok((d, q)) && d@ == v && q == e,
                None => r == Err::<(ColumnData, usize), Error>(Error::ProtocolViolation),
            },
    {
        let len = b.len();
        if pos > len || len - pos < 3 {
            return Err(Error::ProtocolViolation);
        }
        let ty = b[pos];
        let w = b[pos + 1];
        let n = b[pos + 2];
        let q = pos + 3;
        if ty == NUMERICN {
            if w != NUMERIC_LEN || len - pos < 5 {
                Err(Error::ProtocolViolation)
            } else if b[pos + 4] == 0 {
                Ok((ColumnData::Numeric(b[pos + 2], b[pos + 3], None), pos + 5))
            } else if b[pos + 4] == NUMERIC_LEN && len - pos >= 22 {
                match read_numeric_value(b, pos + 5) {
                    Some(v) => Ok((ColumnData::Numeric(b[pos + 2], b[pos + 3], Some(v)), pos + 22)),
                    None => Err(Error::ProtocolViolation),
                }
            } else {
                Err(Error::ProtocolViolation)
            }
        } else if ty == BITN {
            if w != 1 {
                Err(Error::ProtocolViolation)
            } else if n == 0 {
                Ok((ColumnData::Bit(None), q))
            } else if n == 1 && q < len {
                Ok((ColumnData::Bit(Some(b[q] != 0)), q + 1))
            } else {
                Err(Error::ProtocolViolation)
            }
        } else if ty == INTN || ty == FLTN {
            if n != 0 && (n != w || w as usize > len - q) {
                return Err(Error::ProtocolViolation);
            }
            let null = n == 0;
            let e = q + n as usize;
            if ty == INTN && w == 1 {
                Ok((ColumnData::U8(if null { None } else { Some(b[q]) }), e))
            } else if ty == INTN && w == 2 {
                Ok((ColumnData::I16(if null { None } else { Some(read_u16_le(b, q) as i16) }), e))
            } else if ty == INTN && w == 4 {
                Ok((ColumnData::I32(if null { None } else { Some(read_u32_le(b, q) as i32) }), e))
            } else if ty == INTN && w == 8 {
                Ok((ColumnData::I64(if null { None } else { Some(read_u64_le(b, q) as i64) }), e))
            } else if ty == FLTN && w == 4 {
                Ok((ColumnData::F32(if null { None } else { Some(read_u32_le(b, q)) }), e))
            } else if ty == FLTN && w == 8 {
                Ok((ColumnData::F64(if null { None } else { Some(read_u64_le(b, q)) }), e))
            } else {
                Err(Error::ProtocolViolation)
            }
        } else if ty == GUIDN {
            if w != 16 {
                Err(Error::ProtocolViolation)
            } else if n == 0 {
                Ok((ColumnData::Guid(None), q))
            } else if n == 16 && len - q >= 16 {
                let mut g = [0u8; 16];
                let mut i: usize = 0;
                assert(b.len() == b@.len());
                while i < 16
                    invariant
                        i <= 16,
                        b@.len() <= usize::MAX,
                        q + 16 <= b@.len(),
                        g@.len() == 16,
                        forall|j: int| 0 <= j < i ==> g@[j] == b@[q + j],
                    decreases 16 - i,
                {
                    g.set(i, b[q + i]);
                    i += 1;
                }
                assert(g@ =~= b@.subrange(q as int, q + 16));
                Ok((ColumnData::Guid(Some(g)), q + 16))
            } else {
                Err(Error::ProtocolViolation)
            }
        } else if ty == NVARCHAR {
            decode_string(b, pos)
        } else if ty == BIGVARBINARY {
            decode_binary(b, pos)
        } else {
            Err(Error::ProtocolViolation)
        }
    }

    /// The SQL type declared for this value in an RPC parameter list.
    pub fn declared_type(&self) -> (r: String)
        ensures
            r@ == declared_type_spec(self@),
    {
        let r = match self {
            ColumnData::Bit(_) => "bit",
            ColumnData::U8(_) => "tinyint",
            ColumnData::I16(_) => "smallint",
            ColumnData::I32(_) => "int",
            ColumnData::I64(_) => "bigint",
            ColumnData::F32(_) => "real",
            ColumnData::F64(_) => "float",
            ColumnData::String(Some(s)) => if s.len() > SHORT_STRING_UNITS {
                "nvarchar(max)"
            } else {
                "nvarchar(4000)"
            },
            ColumnData::String(None) => "nvarchar(4000)",
            ColumnData::Guid(_) => "uniqueidentifier",
            ColumnData::Binary(Some(b)) => if b.len() > SHORT_BINARY_BYTES as usize {
                "varbinary(max)"
            } else {
                "varbinary(8000)"
            },
            ColumnData::Binary(None) => "varbinary(8000)",
            ColumnData::Numeric(p, sc, _) => {
                let mut t = String::from_str("numeric(");
                push_decimal(&mut t, *p as usize);
                t.append(",");
                push_decimal(&mut t, *sc as usize);
                t.append(")");
                proof {
                    reveal_strlit("numeric(");
                    reveal_strlit(",");
                    reveal_strlit(")");
                }
                assert(t@ =~= declared_type_spec(self@));
                return t;
            },
        };
        proof {
            reveal_strlit("bit");
            reveal_strlit("tinyint");
            reveal_strlit("smallint");
            reveal_strlit("int");
            reveal_strlit("bigint");
            reveal_strlit("real");
            reveal_strlit("float");
            reveal_strlit("nvarchar(max)");
            reveal_strlit("nvarchar(4000)");
            reveal_strlit("uniqueidentifier");
            reveal_strlit("varbinary(max)");
            reveal_strlit("varbinary(8000)");
        }
        String::from_str(r)
    }

    /// Whether the value fits its wire format.
    pub fn is_encodable(&self) -> (r: bool)
        ensures
            r == encodable(self@),
    {
        match self {
            ColumnData::String(Some(s)) => s.len() <= 0x7FFF_FFFF,
            ColumnData::Binary(Some(b)) => b.len() <= 0xFFFF_FFFF,
            _ => true,
        }
    }

    /// Appends the type info and the value, using `collation` for strings.
    /// A string too long for a `u32` chunk is refused and nothing is written.
    #[verifier::rlimit(60)]
    pub fn encode(&self, dst: &mut BytesMut, collation: Collation) -> (r: Result<(), Error>)
        requires
            buf_bytes(*old(dst)).len() + encode_value(self@, collation).len() <= isize::MAX,
        ensures
            encodable(self@) ==> r is Ok && buf_bytes(*final(dst)) == buf_bytes(*old(dst))
                + encode_value(self@, collation),
            !encodable(self@) ==> r == Err::<(), Error>(Error::Conversion) && buf_bytes(*final(dst))
                == buf_bytes(*old(dst)),
    {
        let ghost start = buf_bytes(*dst);
        match self {
            ColumnData::Bit(o) => {
                put_fixed_head(dst, BITN, 1, o.is_none());
                if let Some(b) = o {
                    put_u8(dst, if *b { 1u8 } else { 0u8 });
                }
            },
            ColumnData::U8(o) => {
                put_fixed_head(dst, INTN, 1, o.is_none());
                if let Some(n) = o {
                    put_u8(dst, *n);
                }
            },
            ColumnData::I16(o) => {
                put_fixed_head(dst, INTN, 2, o.is_none());
                if let Some(n) = o {
                    put_u16_le(dst, *n as u16);
                }
            },
            ColumnData::I32(o) => {
                put_fixed_head(dst, INTN, 4, o.is_none());
                if let Some(n) = o {
                    put_u32_le(dst, *n as u32);
                }
            },
            ColumnData::I64(o) => {
                put_fixed_head(dst, INTN, 8, o.is_none());
                if let Some(n) = o {
                    put_u64_le(dst, *n as u64);
                }
            },
            ColumnData::F32(o) => {
                put_fixed_head(dst, FLTN, 4, o.is_none());
                if let Some(n) = o {
                    put_u32_le(dst, *n);
                }
            },
            ColumnData::F64(o) => {
                put_fixed_head(dst, FLTN, 8, o.is_none());
                if let Some(n) = o {
                    put_u64_le(dst, *n);
                }
            },
            ColumnData::String(None) => {
                put_u8(dst, NVARCHAR);
                put_u16_le(dst, SHORT_STRING_BYTES);
                put_collation(dst, collation);
                put_u16_le(dst, NULL_LEN_U16);
            },
            ColumnData::String(Some(s)) => {
                proof {
                    lemma_units_le_len(s@);
                }
                if s.len() <= SHORT_STRING_UNITS {
                    put_u8(dst, NVARCHAR);
                    put_u16_le(dst, SHORT_STRING_BYTES);
                    put_collation(dst, collation);
                    put_u16_le(dst, (2 * s.len()) as u16);
                    put_units(dst, s);
                } else if s.len() > 0x7FFF_FFFF {
                    return Err(Error::Conversion);
                } else {
                    let m: u32 = (2 * s.len()) as u32;
                    put_u8(dst, NVARCHAR);
                    put_u16_le(dst, NULL_LEN_U16);
                    put_collation(dst, collation);
                    put_u64_le(dst, m as u64);
                    put_u32_le(dst, m);
                    put_units(dst, s);
                    put_u32_le(dst, 0);
                }
            },
            ColumnData::Numeric(p, sc, o) => {
                put_u8(dst, NUMERICN);
                put_u8(dst, NUMERIC_LEN);
                put_u8(dst, *p);
                put_u8(dst, *sc);
                match o {
                    None => put_u8(dst, 0),
                    Some(v) => {
                        put_u8(dst, NUMERIC_LEN);
                        put_numeric_value(dst, *v);
                    },
                }
            },
            ColumnData::Guid(o) => {
                put_fixed_head(dst, GUIDN, 16, o.is_none());
                if let Some(g) = o {
                    put_slice(dst, g.as_slice());
                }
            },
            ColumnData::Binary(None) => {
                put_u8(dst, BIGVARBINARY);
                put_u16_le(dst, SHORT_BINARY_BYTES);
                put_u16_le(dst, NULL_LEN_U16);
            },
            ColumnData::Binary(Some(b)) => {
                if b.len() <= SHORT_BINARY_BYTES as usize {
                    put_u8(dst, BIGVARBINARY);
                    put_u16_le(dst, SHORT_BINARY_BYTES);
                    put_u16_le(dst, b.len() as u16);
                    put_slice(dst, b.as_slice());
                } else if b.len() > 0xFFFF_FFFF {
                    return Err(Error::Conversion);
                } else {
                    put_u8(dst, BIGVARBINARY);
                    put_u16_le(dst, NULL_LEN_U16);
                    put_u64_le(dst, b.len() as u64);
                    put_u32_le(dst, b.len() as u32);
                    put_slice(dst, b.as_slice());
                    put_u32_le(dst, 0);
                }
            },
        }
        assert(buf_bytes(*dst) =~= start + encode_value(self@, collation));
        Ok(())
    }
}

} // verus!
