//! The token stream decoder: a response message is a sequence of tokens,
//! each introduced by a one-byte tag.
use crate::buf::{read_u16_le, read_u32_le, read_u64_le, u16_at, u32_at, u64_at};
use crate::column_data::{
    plp_at, read_plp, read_units, units_at, Collation, ColumnData, ColumnValue, PLP_NULL,
    NULL_LEN_U16,
};
use crate::error::{Error, ServerMessage, ServerMessageView};
use vstd::prelude::*;

verus! {

pub const TOKEN_COLMETADATA: u8 = 0x81;
pub const TOKEN_ROW: u8 = 0xD1;
pub const TOKEN_NBC_ROW: u8 = 0xD2;
pub const TOKEN_DONE: u8 = 0xFD;
pub const TOKEN_DONE_PROC: u8 = 0xFE;
pub const TOKEN_DONE_IN_PROC: u8 = 0xFF;
pub const TOKEN_RETURN_STATUS: u8 = 0x79;
pub const TOKEN_ORDER: u8 = 0xA9;
pub const TOKEN_ERROR: u8 = 0xAA;
pub const TOKEN_INFO: u8 = 0xAB;
pub const TOKEN_ENV_CHANGE: u8 = 0xE3;

/// Done status bit: another result follows.
pub const DONE_MORE: u16 = 0x01;
/// Done status bit: an error ended the statement.
pub const DONE_ERROR: u16 = 0x02;
/// Done status bit: the row count is valid.
pub const DONE_COUNT: u16 = 0x10;

/// Column flag: the column may be written.
pub const COLUMN_UPDATEABLE: u16 = 0x08;
/// Column flag: an identity column.
pub const COLUMN_IDENTITY: u16 = 0x10;

pub const TY_INT1: u8 = 0x30;
pub const TY_BIT: u8 = 0x32;
pub const TY_INT2: u8 = 0x34;
pub const TY_INT4: u8 = 0x38;
pub const TY_INT8: u8 = 0x7F;
pub const TY_FLT4: u8 = 0x3B;
pub const TY_FLT8: u8 = 0x3E;
pub const TY_INTN: u8 = 0x26;
pub const TY_BITN: u8 = 0x68;
pub const TY_FLTN: u8 = 0x6D;
pub const TY_NVARCHAR: u8 = 0xE7;

/// The type of a column, as column metadata declares it.
#[derive(Debug, Clone, Copy, PartialEq, Eq, Structural)]
pub enum TypeInfo {
    Int1,
    Bit,
    Int2,
    Int4,
    Int8,
    Flt4,
    Flt8,
    IntN(u8),
    BitN,
    FltN(u8),
    /// Maximal length in bytes, `0xFFFF` for `max`, and the collation.
    NVarChar(u16, Collation),
}

/// One column of a result set.
#[derive(Debug, Clone, PartialEq, Eq)]
pub struct ColumnMeta {
    pub user_type: u32,
    pub flags: u16,
    pub type_info: TypeInfo,
    /// The column's name in UTF-16 code units.
    pub name: Vec<u16>,
}

/// The end of a statement, procedure or statement inside a procedure.
#[derive(Debug, Clone, Copy, PartialEq, Eq, Structural)]
pub struct Done {
    pub status: u16,
    pub cur_cmd: u16,
    pub rows: u64,
}

/// A response token.
#[derive(Debug, Clone, PartialEq, Eq)]
pub enum ReceivedToken {
    NewResultset(Vec<ColumnMeta>),
    Row(Vec<ColumnData>),
    Done(Done),
    DoneProc(Done),
    DoneInProc(Done),
    ReturnStatus(u32),
    Order(Vec<u16>),
    Error(ServerMessage),
    Info(ServerMessage),
    EnvChange(Vec<u8>),
}

/// The mathematical value of a `ColumnMeta`.
pub struct ColumnMetaView {
    pub user_type: u32,
    pub flags: u16,
    pub type_info: TypeInfo,
    pub name: Seq<u16>,
}

/// The mathematical value of a `ReceivedToken`.
pub enum TokenView {
    NewResultset(Seq<ColumnMetaView>),
    Row(Seq<ColumnValue>),
    Done(Done),
    DoneProc(Done),
    DoneInProc(Done),
    ReturnStatus(u32),
    Order(Seq<u16>),
    Error(ServerMessageView),
    Info(ServerMessageView),
    EnvChange(Seq<u8>),
}

impl View for ColumnMeta {
    type V = ColumnMetaView;

    open spec fn view(&self) -> ColumnMetaView {
        ColumnMetaView {
            user_type: self.user_type,
            flags: self.flags,
            type_info: self.type_info,
            name: self.name@,
        }
    }
}

pub open spec fn metas_view(m: Seq<ColumnMeta>) -> Seq<ColumnMetaView> {
    m.map_values(|c: ColumnMeta| c@)
}

pub open spec fn values_view(v: Seq<ColumnData>) -> Seq<ColumnValue> {
    v.map_values(|c: ColumnData| c@)
}

impl View for ReceivedToken {
    type V = TokenView;

    open spec fn view(&self) -> TokenView {
        match self {
            ReceivedToken::NewResultset(m) => TokenView::NewResultset(metas_view(m@)),
            ReceivedToken::Row(v) => TokenView::Row(values_view(v@)),
            ReceivedToken::Done(d) => TokenView::Done(*d),
            ReceivedToken::DoneProc(d) => TokenView::DoneProc(*d),
            ReceivedToken::DoneInProc(d) => TokenView::DoneInProc(*d),
            ReceivedToken::ReturnStatus(s) => TokenView::ReturnStatus(*s),
            ReceivedToken::Order(o) => TokenView::Order(o@),
            ReceivedToken::Error(m) => TokenView::Error(m@),
            ReceivedToken::Info(m) => TokenView::Info(m@),
            ReceivedToken::EnvChange(d) => TokenView::EnvChange(d@),
        }
    }
}

/// The type info at `p`, and the position after it.
pub open spec fn type_info_at(b: Seq<u8>, p: int) -> Option<(TypeInfo, int)> {
    if p < 0 || p + 1 > b.len() {
        None
    } else {
        let ty = b[p];
        if ty == TY_INT1 {
            Some((TypeInfo::Int1, p + 1))
        } else if ty == TY_BIT {
            Some((TypeInfo::Bit, p + 1))
        } else if ty == TY_INT2 {
            Some((TypeInfo::Int2, p + 1))
        } else if ty == TY_INT4 {
            Some((TypeInfo::Int4, p + 1))
        } else if ty == TY_INT8 {
            Some((TypeInfo::Int8, p + 1))
        } else if ty == TY_FLT4 {
            Some((TypeInfo::Flt4, p + 1))
        } else if ty == TY_FLT8 {
            Some((TypeInfo::Flt8, p + 1))
        } else if p + 2 > b.len() {
            None
        } else if ty == TY_INTN && (b[p + 1] == 1 || b[p + 1] == 2 || b[p + 1] == 4 || b[p + 1] == 8) {
            Some((TypeInfo::IntN(b[p + 1]), p + 2))
        } else if ty == TY_BITN && b[p + 1] == 1 {
            Some((TypeInfo::BitN, p + 2))
        } else if ty == TY_FLTN && (b[p + 1] == 4 || b[p + 1] == 8) {
            Some((TypeInfo::FltN(b[p + 1]), p + 2))
        } else if ty == TY_NVARCHAR && p + 8 <= b.len() {
            Some(
                (
                    TypeInfo::NVarChar(
                        u16_at(b, p + 1),
                        Collation { info: u32_at(b, p + 3), sort_id: b[p + 7] },
                    ),
                    p + 8,
                ),
            )
        } else {
            None
        }
    }
}

/// A fixed-width value of `w` bytes at `p`.
pub open spec fn fixed_value(b: Seq<u8>, p: int, w: int) -> ColumnValue {
    if w == 1 {
        ColumnValue::U8(Some(b[p]))
    } else if w == 2 {
        ColumnValue::I16(Some(u16_at(b, p) as i16))
    } else if w == 4 {
        ColumnValue::I32(Some(u32_at(b, p) as i32))
    } else {
        ColumnValue::I64(Some(u64_at(b, p) as i64))
    }
}

pub open spec fn null_int(w: int) -> ColumnValue {
    if w == 1 {
        ColumnValue::U8(None)
    } else if w == 2 {
        ColumnValue::I16(None)
    } else if w == 4 {
        ColumnValue::I32(None)
    } else {
        ColumnValue::I64(None)
    }
}

/// A row value of type `t` at `p`, and the position after it.
pub open spec fn row_value_at(b: Seq<u8>, p: int, t: TypeInfo) -> Option<(ColumnValue, int)> {
    if p < 0 || p + 1 > b.len() {
        None
    } else {
        match t {
            TypeInfo::Int1 => Some((ColumnValue::U8(Some(b[p])), p + 1)),
            TypeInfo::Bit => Some((ColumnValue::Bit(Some(b[p] != 0)), p + 1)),
            TypeInfo::Int2 => if p + 2 <= b.len() { Some((fixed_value(b, p, 2), p + 2)) } else { None },
            TypeInfo::Int4 => if p + 4 <= b.len() { Some((fixed_value(b, p, 4), p + 4)) } else { None },
            TypeInfo::Int8 => if p + 8 <= b.len() { Some((fixed_value(b, p, 8), p + 8)) } else { None },
            TypeInfo::Flt4 => if p + 4 <= b.len() {
                Some((ColumnValue::F32(Some(u32_at(b, p))), p + 4))
            } else {
                None
            },
            TypeInfo::Flt8 => if p + 8 <= b.len() {
                Some((ColumnValue::F64(Some(u64_at(b, p))), p + 8))
            } else {
                None
            },
            TypeInfo::IntN(w) => if b[p] == 0 {
                Some((null_int(w as int), p + 1))
            } else if b[p] == w && p + 1 + w <= b.len() {
                Some((fixed_value(b, p + 1, w as int), p + 1 + w))
            } else {
                None
            },
            TypeInfo::BitN => if b[p] == 0 {
                Some((ColumnValue::Bit(None), p + 1))
            } else if b[p] == 1 && p + 2 <= b.len() {
                Some((ColumnValue::Bit(Some(b[p + 1] != 0)), p + 2))
            } else {
                None
            },
            TypeInfo::FltN(w) => if b[p] == 0 {
                Some((if w == 4 { ColumnValue::F32(None) } else { ColumnValue::F64(None) }, p + 1))
            } else if b[p] == w && p + 1 + w <= b.len() {
                Some(
                    (
                        if w == 4 {
                            ColumnValue::F32(Some(u32_at(b, p + 1)))
                        } else {
                            ColumnValue::F64(Some(u64_at(b, p + 1)))
                        },
                        p + 1 + w,
                    ),
                )
            } else {
                None
            },
            TypeInfo::NVarChar(max, _) => if max == NULL_LEN_U16 {
                if p + 8 > b.len() {
                    None
                } else if u64_at(b, p) == PLP_NULL {
                    Some((ColumnValue::String(None), p + 8))
                } else {
                    match plp_at(b, p + 8) {
                        Some((d, e)) => if d.len() % 2 == 0 {
                            Some((ColumnValue::String(Some(units_at(d, 0, d.len() / 2))), e))
                        } else {
                            None
                        },
                        None => None,
                    }
                }
            } else if p + 2 > b.len() {
                None
            } else {
                let n = u16_at(b, p) as int;
                if n == NULL_LEN_U16 {
                    Some((ColumnValue::String(None), p + 2))
                } else if n % 2 == 0 && p + 2 + n <= b.len() {
                    Some((ColumnValue::String(Some(units_at(b, p + 2, (n / 2) as nat))), p + 2 + n))
                } else {
                    None
                }
            },
        }
    }
}

/// Reads the type info at `p`.
pub fn read_type_info(b: &[u8], p: usize) -> (r: Result<(TypeInfo, usize), Error>)
    ensures
        match type_info_at(b@, p as int) {
            Some((t, e)) => r == Ok::<(TypeInfo, usize), Error>((t, e as usize)),
            None => r == Err::<(TypeInfo, usize), Error>(Error::ProtocolViolation),
        },
{
    let len = b.len();
    if p >= len {
        return Err(Error::ProtocolViolation);
    }
    let ty = b[p];
    if ty == TY_INT1 {
        Ok((TypeInfo::Int1, p + 1))
    } else if ty == TY_BIT {
        Ok((TypeInfo::Bit, p + 1))
    } else if ty == TY_INT2 {
        Ok((TypeInfo::Int2, p + 1))
    } else if ty == TY_INT4 {
        Ok((TypeInfo::Int4, p + 1))
    } else if ty == TY_INT8 {
        Ok((TypeInfo::Int8, p + 1))
    } else if ty == TY_FLT4 {
        Ok((TypeInfo::Flt4, p + 1))
    } else if ty == TY_FLT8 {
        Ok((TypeInfo::Flt8, p + 1))
    } else if len - p < 2 {
        Err(Error::ProtocolViolation)
    } else {
        let w = b[p + 1];
        if ty == TY_INTN && (w == 1 || w == 2 || w == 4 || w == 8) {
            Ok((TypeInfo::IntN(w), p + 2))
        } else if ty == TY_BITN && w == 1 {
            Ok((TypeInfo::BitN, p + 2))
        } else if ty == TY_FLTN && (w == 4 || w == 8) {
            Ok((TypeInfo::FltN(w), p + 2))
        } else if ty == TY_NVARCHAR && len - p >= 8 {
            let max = read_u16_le(b, p + 1);
            let info = read_u32_le(b, p + 3);
            Ok((TypeInfo::NVarChar(max, Collation { info, sort_id: b[p + 7] }), p + 8))
        } else {
            Err(Error::ProtocolViolation)
        }
    }
}

fn read_fixed(b: &[u8], p: usize, w: usize) -> (r: ColumnData)
    requires
        w == 1 || w == 2 || w == 4 || w == 8,
        p + w <= b@.len(),
    ensures
        r@ == fixed_value(b@, p as int, w as int),
{
    if w == 1 {
        ColumnData::U8(Some(b[p]))
    } else if w == 2 {
        ColumnData::I16(Some(read_u16_le(b, p) as i16))
    } else if w == 4 {
        ColumnData::I32(Some(read_u32_le(b, p) as i32))
    } else {
        ColumnData::I64(Some(read_u64_le(b, p) as i64))
    }
}

fn null_of_width(w: u8) -> (r: ColumnData)
    ensures
        r@ == null_int(w as int),
{
    if w == 1 {
        ColumnData::U8(None)
    } else if w == 2 {
        ColumnData::I16(None)
    } else if w == 4 {
        ColumnData::I32(None)
    } else {
        ColumnData::I64(None)
    }
}

/// Reads a row value of type `t` at `p`.
pub fn read_row_value(b: &[u8], p: usize, t: TypeInfo) -> (r: Result<(ColumnData, usize), Error>)
    requires
        t matches TypeInfo::IntN(w) ==> (w == 1 || w == 2 || w == 4 || w == 8),
        t matches TypeInfo::FltN(w) ==> (w == 4 || w == 8),
    ensures
        match row_value_at(b@, p as int, t) {
            Some((v, e)) => r matches Ok((d, q)) && d@ == v && q == e,
            None => r == Err::<(ColumnData, usize), Error>(Error::ProtocolViolation),
        },
{
    let len = b.len();
    if p >= len {
        return Err(Error::ProtocolViolation);
    }
    match t {
        TypeInfo::Int1 => Ok((ColumnData::U8(Some(b[p])), p + 1)),
        TypeInfo::Bit => Ok((ColumnData::Bit(Some(b[p] != 0)), p + 1)),
        TypeInfo::Int2 => if len - p >= 2 {
            Ok((read_fixed(b, p, 2), p + 2))
        } else {
            Err(Error::ProtocolViolation)
        },
        TypeInfo::Int4 => if len - p >= 4 {
            Ok((read_fixed(b, p, 4), p + 4))
        } else {
            Err(Error::ProtocolViolation)
        },
        TypeInfo::Int8 => if len - p >= 8 {
            Ok((read_fixed(b, p, 8), p + 8))
        } else {
            Err(Error::ProtocolViolation)
        },
        TypeInfo::Flt4 => if len - p >= 4 {
            Ok((ColumnData::F32(Some(read_u32_le(b, p))), p + 4))
        } else {
            Err(Error::ProtocolViolation)
        },
        TypeInfo::Flt8 => if len - p >= 8 {
            Ok((ColumnData::F64(Some(read_u64_le(b, p))), p + 8))
        } else {
            Err(Error::ProtocolViolation)
        },
        TypeInfo::IntN(w) => if b[p] == 0 {
            Ok((null_of_width(w), p + 1))
        } else if b[p] == w && (w as usize) < len - p {
            Ok((read_fixed(b, p + 1, w as usize), p + 1 + w as usize))
        } else {
            Err(Error::ProtocolViolation)
        },
        TypeInfo::BitN => if b[p] == 0 {
            Ok((ColumnData::Bit(None), p + 1))
        } else if b[p] == 1 && len - p >= 2 {
            Ok((ColumnData::Bit(Some(b[p + 1] != 0)), p + 2))
        } else {
            Err(Error::ProtocolViolation)
        },
        TypeInfo::FltN(w) => if b[p] == 0 {
            Ok((if w == 4 { ColumnData::F32(None) } else { ColumnData::F64(None) }, p + 1))
        } else if b[p] == w && (w as usize) < len - p {
            if w == 4 {
                Ok((ColumnData::F32(Some(read_u32_le(b, p + 1))), p + 5))
            } else {
                Ok((ColumnData::F64(Some(read_u64_le(b, p + 1))), p + 9))
            }
        } else {
            Err(Error::ProtocolViolation)
        },
        TypeInfo::NVarChar(max, _) => if max == NULL_LEN_U16 {
            if len - p < 8 {
                return Err(Error::ProtocolViolation);
            }
            if read_u64_le(b, p) == PLP_NULL {
                return Ok((ColumnData::String(None), p + 8));
            }
            let (data, e) = read_plp(b, p + 8)?;
            if data.len() % 2 != 0 {
                return Err(Error::ProtocolViolation);
            }
            let units = read_units(data.as_slice(), 0, data.len() / 2);
            Ok((ColumnData::String(Some(units)), e))
        } else if len - p < 2 {
            Err(Error::ProtocolViolation)
        } else {
            let n = read_u16_le(b, p) as usize;
            if n == NULL_LEN_U16 as usize {
                Ok((ColumnData::String(None), p + 2))
            } else if n % 2 == 0 && n <= len - p - 2 {
                Ok((ColumnData::String(Some(read_units(b, p + 2, n / 2))), p + 2 + n))
            } else {
                Err(Error::ProtocolViolation)
            }
        },
    }
}

/// Integer and float widths that the formats allow.
pub open spec fn type_info_wf(t: TypeInfo) -> bool {
    &&& (t matches TypeInfo::IntN(w) ==> (w == 1 || w == 2 || w == 4 || w == 8))
    &&& (t matches TypeInfo::FltN(w) ==> (w == 4 || w == 8))
}

/// One column description at `p`: user type, flags, type info, then the
/// name as a length in code units and the code units.
pub open spec fn column_at(b: Seq<u8>, p: int) -> Option<(ColumnMetaView, int)> {
    if p < 0 || p + 6 > b.len() {
        None
    } else {
        match type_info_at(b, p + 6) {
            Some((t, q)) => if q + 1 > b.len() || q + 1 + 2 * b[q] > b.len() {
                None
            } else {
                Some(
                    (
                        ColumnMetaView {
                            user_type: u32_at(b, p),
                            flags: u16_at(b, p + 4),
                            type_info: t,
                            name: units_at(b, q + 1, b[q] as nat),
                        },
                        q + 1 + 2 * b[q],
                    ),
                )
            },
            None => None,
        }
    }
}

/// `k` column descriptions from `p` on.
pub open spec fn columns_at(b: Seq<u8>, p: int, k: nat) -> Option<(Seq<ColumnMetaView>, int)>
    decreases k,
{
    if k == 0 {
        Some((Seq::empty(), p))
    } else {
        match column_at(b, p) {
            Some((c, q)) => match columns_at(b, q, (k - 1) as nat) {
                Some((cs, e)) => Some((seq![c] + cs, e)),
                None => None,
            },
            None => None,
        }
    }
}

/// The values of one row, of types `ts`, from `p` on.
pub open spec fn values_at(b: Seq<u8>, p: int, ts: Seq<TypeInfo>) -> Option<(Seq<ColumnValue>, int)>
    decreases ts.len(),
{
    if ts.len() == 0 {
        Some((Seq::empty(), p))
    } else {
        match row_value_at(b, p, ts[0]) {
            Some((v, q)) => match values_at(b, q, ts.drop_first()) {
                Some((vs, e)) => Some((seq![v] + vs, e)),
                None => None,
            },
            None => None,
        }
    }
}

pub open spec fn column_types(cs: Seq<ColumnMetaView>) -> Seq<TypeInfo> {
    cs.map_values(|c: ColumnMetaView| c.type_info)
}

/// Reads one column description at `p`.
fn read_column(b: &[u8], p: usize) -> (r: Result<(ColumnMeta, usize), Error>)
    ensures
        match column_at(b@, p as int) {
            Some((c, e)) => r matches Ok((m, q)) && m@ == c && q == e && type_info_wf(c.type_info),
            None => r == Err::<(ColumnMeta, usize), Error>(Error::ProtocolViolation),
        },
{
    let len = b.len();
    if p > len || len - p < 6 {
        return Err(Error::ProtocolViolation);
    }
    let user_type = read_u32_le(b, p);
    let flags = read_u16_le(b, p + 4);
    let (type_info, q) = read_type_info(b, p + 6)?;
    if q >= len {
        return Err(Error::ProtocolViolation);
    }
    let n = b[q] as usize;
    if 2 * n > len - q - 1 {
        return Err(Error::ProtocolViolation);
    }
    let name = read_units(b, q + 1, n);
    Ok((ColumnMeta { user_type, flags, type_info, name }, q + 1 + 2 * n))
}

/// Reads `k` column descriptions from `p` on.
fn read_columns(b: &[u8], p: usize, k: u16) -> (r: Result<(Vec<ColumnMeta>, usize), Error>)
    ensures
        match columns_at(b@, p as int, k as nat) {
            Some((cs, e)) => r matches Ok((m, q)) && metas_view(m@) == cs && q == e
                && forall|i: int| 0 <= i < cs.len() ==> type_info_wf(#[trigger] cs[i].type_info),
            None => r == Err::<(Vec<ColumnMeta>, usize), Error>(Error::ProtocolViolation),
        },
{
    let mut cols: Vec<ColumnMeta> = Vec::new();
    let mut q = p;
    let mut i: u16 = 0;
    while i < k
        invariant
            i <= k,
            forall|j: int| 0 <= j < cols@.len() ==> type_info_wf(#[trigger] cols@[j].type_info),
            columns_at(b@, p as int, k as nat) == match columns_at(b@, q as int, (k - i) as nat) {
                Some((cs, e)) => Some((metas_view(cols@) + cs, e)),
                None => None,
            },
        decreases k - i,
    {
        let (c, e) = read_column(b, q)?;
        proof {
            match columns_at(b@, e as int, (k - i - 1) as nat) {
                Some((cs, f)) => {
                    assert(metas_view(cols@.push(c)) =~= metas_view(cols@) + seq![c@]);
                    assert(metas_view(cols@) + (seq![c@] + cs) =~= metas_view(cols@.push(c)) + cs);
                },
                None => {},
            }
        }
        cols.push(c);
        q = e;
        i += 1;
    }
    proof {
        assert(metas_view(cols@) + Seq::<ColumnMetaView>::empty() =~= metas_view(cols@));
        assert forall|j: int| 0 <= j < metas_view(cols@).len() implies type_info_wf(
            #[trigger] metas_view(cols@)[j].type_info,
        ) by {
            assert(metas_view(cols@)[j] == cols@[j]@);
        }
    }
    Ok((cols, q))
}

/// Reads the values of one row, of types `ts`, from `p` on.
fn read_values(b: &[u8], p: usize, ts: &Vec<TypeInfo>) -> (r: Result<(Vec<ColumnData>, usize), Error>)
    requires
        forall|i: int| 0 <= i < ts@.len() ==> type_info_wf(#[trigger] ts@[i]),
    ensures
        match values_at(b@, p as int, ts@) {
            Some((vs, e)) => r matches Ok((v, q)) && values_view(v@) == vs && q == e,
            None => r == Err::<(Vec<ColumnData>, usize), Error>(Error::ProtocolViolation),
        },
{
    let mut vals: Vec<ColumnData> = Vec::new();
    let mut q = p;
    let mut i: usize = 0;
    proof {
        assert(ts@.subrange(0, ts@.len() as int) =~= ts@);
        match values_at(b@, p as int, ts@) {
            Some((vs, e)) => assert(values_view(vals@) + vs =~= vs),
            None => {},
        }
    }
    while i < ts.len()
        invariant
            i <= ts@.len(),
            forall|j: int| 0 <= j < ts@.len() ==> type_info_wf(#[trigger] ts@[j]),
            values_at(b@, p as int, ts@) == match values_at(b@, q as int, ts@.subrange(i as int, ts@.len() as int)) {
                Some((vs, e)) => Some((values_view(vals@) + vs, e)),
                None => None,
            },
        decreases ts@.len() - i,
    {
        let t = ts[i];
        assert(type_info_wf(ts@[i as int]));
        let (v, e) = read_row_value(b, q, t)?;
        proof {
            let rest = ts@.subrange(i as int, ts@.len() as int);
            assert(rest[0] == t);
            assert(rest.drop_first() =~= ts@.subrange(i + 1, ts@.len() as int));
            match values_at(b@, e as int, rest.drop_first()) {
                Some((vs, f)) => {
                    assert(values_view(vals@.push(v)) =~= values_view(vals@) + seq![v@]);
                    assert(values_view(vals@) + (seq![v@] + vs) =~= values_view(vals@.push(v)) + vs);
                },
                None => {},
            }
        }
        vals.push(v);
        q = e;
        i += 1;
    }
    proof {
        assert(ts@.subrange(i as int, ts@.len() as int) =~= Seq::<TypeInfo>::empty());
        assert(values_view(vals@) + Seq::<ColumnValue>::empty() =~= values_view(vals@));
    }
    Ok((vals, q))
}

/// The body of an error or info token, between `q` and `end`: number,
/// state, class, the message (a `u16` length in code units, then the code
/// units), the server and procedure names (each a `u8` length, then the code
/// units), and the line number.
pub open spec fn server_message_at(b: Seq<u8>, q: int, end: int) -> Option<ServerMessageView> {
    if q < 0 || end > b.len() || q + 8 > end {
        None
    } else {
        let m = u16_at(b, q + 6) as int;
        let s0 = q + 8 + 2 * m;
        if s0 + 1 > end {
            None
        } else {
            let sl = b[s0] as int;
            let p0 = s0 + 1 + 2 * sl;
            if p0 + 1 > end {
                None
            } else {
                let pl = b[p0] as int;
                let l0 = p0 + 1 + 2 * pl;
                if l0 + 4 > end {
                    None
                } else {
                    Some(
                        ServerMessageView {
                            number: u32_at(b, q),
                            state: b[q + 4],
                            class: b[q + 5],
                            message: units_at(b, q + 8, m as nat),
                            server: units_at(b, s0 + 1, sl as nat),
                            procedure: units_at(b, p0 + 1, pl as nat),
                            line: u32_at(b, l0),
                        },
                    )
                }
            }
        }
    }
}

/// Reads the body of an error or info token between `q` and `end`.
fn read_server_message(b: &[u8], q: usize, end: usize) -> (r: Result<ServerMessage, Error>)
    requires
        q <= end <= b@.len(),
    ensures
        match server_message_at(b@, q as int, end as int) {
            Some(m) => r matches Ok(x) && x@ == m,
            None => r == Err::<ServerMessage, Error>(Error::ProtocolViolation),
        },
{
    if end - q < 8 {
        return Err(Error::ProtocolViolation);
    }
    let number = read_u32_le(b, q);
    let state = b[q + 4];
    let class = b[q + 5];
    let m = read_u16_le(b, q + 6) as usize;
    if 2 * m + 1 > end - q - 8 {
        return Err(Error::ProtocolViolation);
    }
    let message = read_units(b, q + 8, m);
    let s0 = q + 8 + 2 * m;
    let sl = b[s0] as usize;
    if 2 * sl + 1 > end - s0 - 1 {
        return Err(Error::ProtocolViolation);
    }
    let server = read_units(b, s0 + 1, sl);
    let p0 = s0 + 1 + 2 * sl;
    let pl = b[p0] as usize;
    if 2 * pl + 4 > end - p0 - 1 {
        return Err(Error::ProtocolViolation);
    }
    let procedure = read_units(b, p0 + 1, pl);
    let l0 = p0 + 1 + 2 * pl;
    let line = read_u32_le(b, l0);
    Ok(ServerMessage { number, state, class, message, server, procedure, line })
}

/// The null of a column of type `t`.
pub open spec fn null_of(t: TypeInfo) -> ColumnValue {
    match t {
        TypeInfo::Int1 => ColumnValue::U8(None),
        TypeInfo::Bit => ColumnValue::Bit(None),
        TypeInfo::Int2 => ColumnValue::I16(None),
        TypeInfo::Int4 => ColumnValue::I32(None),
        TypeInfo::Int8 => ColumnValue::I64(None),
        TypeInfo::Flt4 => ColumnValue::F32(None),
        TypeInfo::Flt8 => ColumnValue::F64(None),
        TypeInfo::IntN(w) => null_int(w as int),
        TypeInfo::BitN => ColumnValue::Bit(None),
        TypeInfo::FltN(w) => if w == 4 { ColumnValue::F32(None) } else { ColumnValue::F64(None) },
        TypeInfo::NVarChar(_, _) => ColumnValue::String(None),
    }
}

/// Whether bit `k` of the null bitmap starting at `m` is set.
pub open spec fn null_bit(b: Seq<u8>, m: int, k: int) -> bool {
    (b[m + k / 8] >> ((k % 8) as u8)) & 1u8 == 1u8
}

/// The values of a null-bitmap row, of types `ts`, from `p` on; the bitmap
/// starts at `m`, and `k` columns have been read before.
pub open spec fn nbc_values_at(b: Seq<u8>, p: int, ts: Seq<TypeInfo>, m: int, k: int) -> Option<
    (Seq<ColumnValue>, int),
>
    decreases ts.len(),
{
    if ts.len() == 0 {
        Some((Seq::empty(), p))
    } else if null_bit(b, m, k) {
        match nbc_values_at(b, p, ts.drop_first(), m, k + 1) {
            Some((vs, e)) => Some((seq![null_of(ts[0])] + vs, e)),
            None => None,
        }
    } else {
        match row_value_at(b, p, ts[0]) {
            Some((v, q)) => match nbc_values_at(b, q, ts.drop_first(), m, k + 1) {
                Some((vs, e)) => Some((seq![v] + vs, e)),
                None => None,
            },
            None => None,
        }
    }
}

/// Length of the null bitmap of a row of `n` columns.
pub open spec fn bitmap_len(n: int) -> int {
    (n + 7) / 8
}

pub open spec fn done_at(b: Seq<u8>, p: int) -> Done {
    Done { status: u16_at(b, p), cur_cmd: u16_at(b, p + 2), rows: u64_at(b, p + 4) }
}

/// The token at `p`, and the position after it, given the types of the
/// current result set's columns, if one has begun.
pub open spec fn token_at(b: Seq<u8>, p: int, meta: Option<Seq<TypeInfo>>) -> Option<(TokenView, int)> {
    if p < 0 || p + 1 > b.len() {
        None
    } else {
        let tag = b[p];
        if tag == TOKEN_ROW {
            match meta {
                Some(ts) => match values_at(b, p + 1, ts) {
                    Some((vs, e)) => Some((TokenView::Row(vs), e)),
                    None => None,
                },
                None => None,
            }
        } else if tag == TOKEN_NBC_ROW {
            match meta {
                Some(ts) => if p + 1 + bitmap_len(ts.len() as int) > b.len() {
                    None
                } else {
                    match nbc_values_at(b, p + 1 + bitmap_len(ts.len() as int), ts, p + 1, 0) {
                        Some((vs, e)) => Some((TokenView::Row(vs), e)),
                        None => None,
                    }
                },
                None => None,
            }
        } else if tag == TOKEN_RETURN_STATUS {
            if p + 5 <= b.len() { Some((TokenView::ReturnStatus(u32_at(b, p + 1)), p + 5)) } else { None }
        } else if tag == TOKEN_DONE || tag == TOKEN_DONE_PROC || tag == TOKEN_DONE_IN_PROC {
            if p + 13 > b.len() {
                None
            } else {
                let d = done_at(b, p + 1);
                Some(
                    (
                        if tag == TOKEN_DONE {
                            TokenView::Done(d)
                        } else if tag == TOKEN_DONE_PROC {
                            TokenView::DoneProc(d)
                        } else {
                            TokenView::DoneInProc(d)
                        },
                        p + 13,
                    ),
                )
            }
        } else if p + 3 > b.len() {
            None
        } else {
            let n = u16_at(b, p + 1) as int;
            let q = p + 3;
            if tag == TOKEN_COLMETADATA {
                if n == 0xFFFF {
                    Some((TokenView::NewResultset(Seq::empty()), q))
                } else {
                    match columns_at(b, q, n as nat) {
                        Some((cs, e)) => Some((TokenView::NewResultset(cs), e)),
                        None => None,
                    }
                }
            } else if q + n > b.len() {
                None
            } else if tag == TOKEN_ORDER && n % 2 == 0 {
                Some((TokenView::Order(units_at(b, q, (n / 2) as nat)), q + n))
            } else if tag == TOKEN_ERROR || tag == TOKEN_INFO {
                match server_message_at(b, q, q + n) {
                    Some(m) => Some(
                        (if tag == TOKEN_ERROR { TokenView::Error(m) } else { TokenView::Info(m) }, q + n),
                    ),
                    None => None,
                }
            } else if tag == TOKEN_ENV_CHANGE {
                Some((TokenView::EnvChange(b.subrange(q, q + n)), q + n))
            } else {
                None
            }
        }
    }
}

/// The column types in force after token `t`.
pub open spec fn meta_after(meta: Option<Seq<TypeInfo>>, t: TokenView) -> Option<Seq<TypeInfo>> {
    match t {
        TokenView::NewResultset(cs) => Some(column_types(cs)),
        _ => meta,
    }
}

/// All tokens from `p` to the end of the message.
pub open spec fn tokens_at(b: Seq<u8>, p: int, meta: Option<Seq<TypeInfo>>) -> Option<Seq<TokenView>>
    decreases b.len() - p,
{
    if p >= b.len() {
        Some(Seq::empty())
    } else {
        match token_at(b, p, meta) {
            Some((t, q)) => if q <= p || q > b.len() {
                None
            } else {
                match tokens_at(b, q, meta_after(meta, t)) {
                    Some(ts) => Some(seq![t] + ts),
                    None => None,
                }
            },
            None => None,
        }
    }
}

pub open spec fn tokens_view(ts: Seq<ReceivedToken>) -> Seq<TokenView> {
    ts.map_values(|t: ReceivedToken| t@)
}

pub open spec fn types_wf(ts: Seq<TypeInfo>) -> bool {
    forall|i: int| 0 <= i < ts.len() ==> type_info_wf(#[trigger] ts[i])
}

fn types_of(cols: &Vec<ColumnMeta>) -> (r: Vec<TypeInfo>)
    ensures
        r@ == column_types(metas_view(cols@)),
{
    let mut r: Vec<TypeInfo> = Vec::new();
    let mut i: usize = 0;
    while i < cols.len()
        invariant
            i <= cols@.len(),
            r@ == column_types(metas_view(cols@.subrange(0, i as int))),
        decreases cols@.len() - i,
    {
        r.push(cols[i].type_info);
        proof {
            assert(column_types(metas_view(cols@.subrange(0, i + 1))) =~= column_types(
                metas_view(cols@.subrange(0, i as int)),
            ).push(cols@[i as int].type_info));
        }
        i += 1;
    }
    assert(cols@.subrange(0, i as int) =~= cols@);
    r
}

fn null_value(t: TypeInfo) -> (r: ColumnData)
    ensures
        r@ == null_of(t),
{
    match t {
        TypeInfo::Int1 => ColumnData::U8(None),
        TypeInfo::Bit => ColumnData::Bit(None),
        TypeInfo::Int2 => ColumnData::I16(None),
        TypeInfo::Int4 => ColumnData::I32(None),
        TypeInfo::Int8 => ColumnData::I64(None),
        TypeInfo::Flt4 => ColumnData::F32(None),
        TypeInfo::Flt8 => ColumnData::F64(None),
        TypeInfo::IntN(w) => null_of_width(w),
        TypeInfo::BitN => ColumnData::Bit(None),
        TypeInfo::FltN(w) => if w == 4 { ColumnData::F32(None) } else { ColumnData::F64(None) },
        TypeInfo::NVarChar(_, _) => ColumnData::String(None),
    }
}

/// Reads the values of a null-bitmap row, of types `ts`; the bitmap starts
/// at `m` and the values at `p`.
fn read_nbc_values(b: &[u8], p: usize, ts: &Vec<TypeInfo>, m: usize) -> (r: Result<(Vec<ColumnData>, usize), Error>)
    requires
        forall|i: int| 0 <= i < ts@.len() ==> type_info_wf(#[trigger] ts@[i]),
        m + bitmap_len(ts@.len() as int) <= b@.len(),
    ensures
        match nbc_values_at(b@, p as int, ts@, m as int, 0) {
            Some((vs, e)) => r matches Ok((v, q)) && values_view(v@) == vs && q == e,
            None => r == Err::<(Vec<ColumnData>, usize), Error>(Error::ProtocolViolation),
        },
{
    let mut vals: Vec<ColumnData> = Vec::new();
    let mut q = p;
    let mut i: usize = 0;
    assert(b.len() == b@.len());
    proof {
        assert(ts@.subrange(0, ts@.len() as int) =~= ts@);
        match nbc_values_at(b@, p as int, ts@, m as int, 0) {
            Some((vs, e)) => assert(values_view(vals@) + vs =~= vs),
            None => {},
        }
    }
    while i < ts.len()
        invariant
            i <= ts@.len(),
            b@.len() <= usize::MAX,
            m + bitmap_len(ts@.len() as int) <= b@.len(),
            forall|j: int| 0 <= j < ts@.len() ==> type_info_wf(#[trigger] ts@[j]),
            nbc_values_at(b@, p as int, ts@, m as int, 0) == match nbc_values_at(
                b@,
                q as int,
                ts@.subrange(i as int, ts@.len() as int),
                m as int,
                i as int,
            ) {
                Some((vs, e)) => Some((values_view(vals@) + vs, e)),
                None => None,
            },
        decreases ts@.len() - i,
    {
        let t = ts[i];
        let ghost rest = ts@.subrange(i as int, ts@.len() as int);
        proof {
            assert(rest[0] == t);
            assert(rest.drop_first() =~= ts@.subrange(i + 1, ts@.len() as int));
            let n = ts@.len() as int;
            let ii = i as int;
            assert(ii / 8 < (n + 7) / 8) by (nonlinear_arith)
                requires
                    0 <= ii < n,
            ;
        }
        let null = (b[m + i / 8] >> ((i % 8) as u8)) & 1u8 == 1u8;
        let v = if null {
            null_value(t)
        } else {
            assert(type_info_wf(ts@[i as int]));
            let (v, e) = read_row_value(b, q, t)?;
            q = e;
            v
        };
        proof {
            match nbc_values_at(b@, q as int, rest.drop_first(), m as int, i + 1) {
                Some((vs, f)) => {
                    assert(values_view(vals@.push(v)) =~= values_view(vals@) + seq![v@]);
                    assert(values_view(vals@) + (seq![v@] + vs) =~= values_view(vals@.push(v)) + vs);
                },
                None => {},
            }
        }
        vals.push(v);
        i += 1;
    }
    proof {
        assert(ts@.subrange(i as int, ts@.len() as int) =~= Seq::<TypeInfo>::empty());
        assert(values_view(vals@) + Seq::<ColumnValue>::empty() =~= values_view(vals@));
    }
    Ok((vals, q))
}

/// Reads the token at `p`, given the current result set's column types.
pub fn read_token(b: &[u8], p: usize, meta: &Option<Vec<TypeInfo>>) -> (r: Result<(ReceivedToken, usize), Error>)
    requires
        meta matches Some(ts) ==> types_wf(ts@),
    ensures
        match token_at(b@, p as int, match meta { Some(ts) => Some(ts@), None => None }) {
            Some((t, e)) => r matches Ok((k, q)) && k@ == t && q == e
                && (t matches TokenView::NewResultset(cs) ==> types_wf(column_types(cs))),
            None => r == Err::<(ReceivedToken, usize), Error>(Error::ProtocolViolation),
        },
{
    let len = b.len();
    if p >= len {
        return Err(Error::ProtocolViolation);
    }
    let tag = b[p];
    if tag == TOKEN_ROW {
        match meta {
            Some(ts) => {
                let (vs, e) = read_values(b, p + 1, ts)?;
                Ok((ReceivedToken::Row(vs), e))
            },
            None => Err(Error::ProtocolViolation),
        }
    } else if tag == TOKEN_NBC_ROW {
        match meta {
            Some(ts) => {
                let n = ts.len();
                let bm: usize = n / 8 + if n % 8 == 0 { 0 } else { 1 };
                proof {
                    let ni = n as int;
                    let bi = bm as int;
                    assert(bi == (ni + 7) / 8) by (nonlinear_arith)
                        requires
                            ni >= 0,
                            bi == ni / 8 + if ni % 8 == 0 { 0int } else { 1int },
                    ;
                }
                if bm >= len - p {
                    return Err(Error::ProtocolViolation);
                }
                let (vs, e) = read_nbc_values(b, p + 1 + bm, ts, p + 1)?;
                Ok((ReceivedToken::Row(vs), e))
            },
            None => Err(Error::ProtocolViolation),
        }
    } else if tag == TOKEN_RETURN_STATUS {
        if len - p >= 5 {
            Ok((ReceivedToken::ReturnStatus(read_u32_le(b, p + 1)), p + 5))
        } else {
            Err(Error::ProtocolViolation)
        }
    } else if tag == TOKEN_DONE || tag == TOKEN_DONE_PROC || tag == TOKEN_DONE_IN_PROC {
        if len - p < 13 {
            return Err(Error::ProtocolViolation);
        }
        let d = Done {
            status: read_u16_le(b, p + 1),
            cur_cmd: read_u16_le(b, p + 3),
            rows: read_u64_le(b, p + 5),
        };
        let t = if tag == TOKEN_DONE {
            ReceivedToken::Done(d)
        } else if tag == TOKEN_DONE_PROC {
            ReceivedToken::DoneProc(d)
        } else {
            ReceivedToken::DoneInProc(d)
        };
        Ok((t, p + 13))
    } else if len - p < 3 {
        Err(Error::ProtocolViolation)
    } else {
        let n = read_u16_le(b, p + 1) as usize;
        let q = p + 3;
        if tag == TOKEN_COLMETADATA {
            if n == 0xFFFF {
                let cs: Vec<ColumnMeta> = Vec::new();
                assert(metas_view(cs@) =~= Seq::<ColumnMetaView>::empty());
                Ok((ReceivedToken::NewResultset(cs), q))
            } else {
                let (cs, e) = read_columns(b, q, n as u16)?;
                proof {
                    assert forall|i: int| 0 <= i < column_types(metas_view(cs@)).len() implies type_info_wf(
                        #[trigger] column_types(metas_view(cs@))[i],
                    ) by {
                        assert(column_types(metas_view(cs@))[i] == metas_view(cs@)[i].type_info);
                    }
                }
                Ok((ReceivedToken::NewResultset(cs), e))
            }
        } else if n > len - q {
            Err(Error::ProtocolViolation)
        } else if tag == TOKEN_ORDER && n % 2 == 0 {
            Ok((ReceivedToken::Order(read_units(b, q, n / 2)), q + n))
        } else if tag == TOKEN_ERROR || tag == TOKEN_INFO {
            let m = read_server_message(b, q, q + n)?;
            if tag == TOKEN_ERROR {
                Ok((ReceivedToken::Error(m), q + n))
            } else {
                Ok((ReceivedToken::Info(m), q + n))
            }
        } else if tag == TOKEN_ENV_CHANGE {
            let mut data: Vec<u8> = Vec::new();
            let mut i: usize = q;
            while i < q + n
                invariant
                    q <= i <= q + n <= len,
                    len == b@.len(),
                    data@ == b@.subrange(q as int, i as int),
                decreases q + n - i,
            {
                data.push(b[i]);
                assert(b@.subrange(q as int, i + 1) =~= b@.subrange(q as int, i as int).push(b@[i as int]));
                i += 1;
            }
            Ok((ReceivedToken::EnvChange(data), q + n))
        } else {
            Err(Error::ProtocolViolation)
        }
    }
}

pub open spec fn meta_view(m: Option<Vec<TypeInfo>>) -> Option<Seq<TypeInfo>> {
    match m {
        Some(ts) => Some(ts@),
        None => None,
    }
}

/// Decodes a whole response message into its tokens, in wire order. A row
/// before any column metadata, or bytes that form no token, are a
/// protocol violation.
pub fn decode_message(b: &[u8]) -> (r: Result<Vec<ReceivedToken>, Error>)
    ensures
        match tokens_at(b@, 0, None) {
            Some(ts) => r matches Ok(v) && tokens_view(v@) == ts,
            None => r == Err::<Vec<ReceivedToken>, Error>(Error::ProtocolViolation),
        },
{
    let len = b.len();
    let mut out: Vec<ReceivedToken> = Vec::new();
    let mut meta: Option<Vec<TypeInfo>> = None;
    let mut p: usize = 0;
    proof {
        match tokens_at(b@, 0, None) {
            Some(ts) => assert(tokens_view(out@) + ts =~= ts),
            None => {},
        }
    }
    while p < len
        invariant
            len == b@.len(),
            p <= len,
            meta matches Some(ts) ==> types_wf(ts@),
            tokens_at(b@, 0, None) == match tokens_at(b@, p as int, meta_view(meta)) {
                Some(ts) => Some(tokens_view(out@) + ts),
                None => None,
            },
        decreases len - p,
    {
        let (t, q) = read_token(b, p, &meta)?;
        if q <= p || q > len {
            return Err(Error::ProtocolViolation);
        }
        let ghost tv = t@;
        let ghost old_meta = meta_view(meta);
        if let ReceivedToken::NewResultset(cs) = &t {
            meta = Some(types_of(cs));
        }
        proof {
            assert(meta_view(meta) == meta_after(old_meta, tv));
            match tokens_at(b@, q as int, meta_view(meta)) {
                Some(ts) => {
                    assert(tokens_view(out@.push(t)) =~= tokens_view(out@) + seq![tv]);
                    assert(tokens_view(out@) + (seq![tv] + ts) =~= tokens_view(out@.push(t)) + ts);
                },
                None => {},
            }
        }
        out.push(t);
        p = q;
    }
    proof {
        assert(tokens_view(out@) + Seq::<TokenView>::empty() =~= tokens_view(out@));
    }
    Ok(out)
}

} // verus!
