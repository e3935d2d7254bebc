//! Bulk insert: the column metadata query, the `INSERT BULK` statement
//! built from the updateable columns, and the rows sent against them.
use crate::buf::{buf_bytes, buf_new, buf_to_vec, le16, le32, le64, put_u16_le, put_u32_le, put_u64_le, put_u8};
use crate::client::{decimal, push_decimal};
use crate::column_data::{lemma_units_le_len, put_units, units_le, ColumnData, ColumnValue, PLP_NULL, NULL_LEN_U16};
use crate::error::Error;
use crate::result::{first_error, lemma_first_error_prefix};

use crate::token::{
    column_types, metas_view, tokens_view, values_view, ColumnMeta, ColumnMetaView, ReceivedToken, TokenView, TypeInfo,
    COLUMN_UPDATEABLE, TOKEN_DONE, TOKEN_ROW,
};
use bytes::BytesMut;
use vstd::prelude::*;

verus! {

/// The text of UTF-16 code units, unpaired surrogates replaced.
pub uninterp spec fn utf16_text(units: Seq<u16>) -> Seq<char>;

/// Relies on String::from_utf16_lossy: the text of the code units, which
/// depends on the code units alone.
#[verifier::external_body]
fn text_of_utf16(units: &[u16]) -> (r: String)
    ensures
        r@ == utf16_text(units@),
{
    String::from_utf16_lossy(units)
}

/// The statement that fetches a table's column metadata without rows.
pub open spec fn select_metadata_spec(table: Seq<char>) -> Seq<char> {
    "SELECT TOP 0 * FROM "@ + table
}

pub fn select_metadata_statement(table: &str) -> (r: String)
    ensures
        r@ == select_metadata_spec(table@),
{
    let mut s = String::new();
    s.append("SELECT TOP 0 * FROM ");
    s.append(table);
    proof {
        reveal_strlit("SELECT TOP 0 * FROM ");
    }
    assert(s@ =~= select_metadata_spec(table@));
    s
}

/// The columns of the last result set among the tokens.
pub open spec fn last_metadata(ts: Seq<TokenView>) -> Option<Seq<ColumnMetaView>>
    decreases ts.len(),
{
    if ts.len() == 0 {
        None
    } else {
        match ts.last() {
            TokenView::NewResultset(cs) => Some(cs),
            _ => last_metadata(ts.drop_last()),
        }
    }
}

pub open spec fn is_updateable(c: ColumnMetaView) -> bool {
    c.flags & COLUMN_UPDATEABLE != 0
}

/// The updateable columns, in order.
pub open spec fn updateable(cs: Seq<ColumnMetaView>) -> Seq<ColumnMetaView>
    decreases cs.len(),
{
    if cs.len() == 0 {
        Seq::empty()
    } else if is_updateable(cs.last()) {
        updateable(cs.drop_last()).push(cs.last())
    } else {
        updateable(cs.drop_last())
    }
}

/// The columns a bulk load writes: the updateable ones of the last result
/// set of the metadata query's response. A server error in the response
/// (an unknown table, say) fails the load with that error.
pub fn bulk_columns(tokens: Vec<ReceivedToken>) -> (r: Result<Vec<ColumnMeta>, Error>)
    ensures
        first_error(tokens_view(tokens@)) matches Some(e) ==> (r matches Err(x) && x@ == e),
        first_error(tokens_view(tokens@)) is None ==> match last_metadata(tokens_view(tokens@)) {
            Some(cs) => r matches Ok(v) && metas_view(v@) == updateable(cs),
            None => r matches Err(Error::Protocol(m)) && m@ == "expecting column metadata from query but not found"@,
        },
{
    let ghost ts = tokens_view(tokens@);
    let mut i: usize = 0;
    while i < tokens.len()
        invariant
            i <= tokens@.len(),
            ts == tokens_view(tokens@),
            first_error(ts.subrange(0, i as int)) is None,
        decreases tokens@.len() - i,
    {
        proof {
            assert(ts.subrange(0, i + 1).drop_last() =~= ts.subrange(0, i as int));
            assert(ts.subrange(0, i + 1).last() == tokens@[i as int]@);
        }
        if let ReceivedToken::Error(m) = &tokens[i] {
            proof {
                lemma_first_error_prefix(ts, i + 1);
            }
            return Err(Error::Server(m.copy()));
        }
        i += 1;
    }
    assert(ts.subrange(0, i as int) =~= ts);
    let mut rest = tokens;
    let mut found: Option<Vec<ColumnMeta>> = None;
    while found.is_none() && rest.len() > 0
        invariant
            found is None ==> last_metadata(ts) == last_metadata(tokens_view(rest@)),
            found matches Some(cs) ==> last_metadata(ts) == Some(metas_view(cs@)),
        decreases rest@.len(),
    {
        let ghost before = tokens_view(rest@);
        let t = rest.pop().unwrap();
        proof {
            assert(tokens_view(rest@) =~= before.drop_last());
            assert(before.last() == t@);
        }
        if let ReceivedToken::NewResultset(cs) = t {
            found = Some(cs);
        }
    }
    let cols = match found {
        Some(cs) => cs,
        None => {
            assert(tokens_view(rest@) =~= Seq::<TokenView>::empty());
            let m = String::from_str("expecting column metadata from query but not found");
            proof {
                reveal_strlit("expecting column metadata from query but not found");
            }
            return Err(Error::Protocol(m));
        },
    };
    let ghost all = metas_view(cols@);
    let mut left = cols;
    let mut out: Vec<ColumnMeta> = Vec::new();
    let ghost mut i: int = 0;
    while left.len() > 0
        invariant
            0 <= i <= all.len(),
            metas_view(left@) == all.subrange(i, all.len() as int),
            metas_view(out@) == updateable(all.subrange(0, i)),
        decreases left@.len(),
    {
        let ghost before = left@;
        let c = left.remove(0);
        proof {
            assert(metas_view(left@) =~= metas_view(before).drop_first());
            assert(metas_view(before)[0] == c@);
            assert(all.subrange(0, i + 1).drop_last() =~= all.subrange(0, i));
            assert(all.subrange(0, i + 1).last() == all[i]);
            assert(all[i] == c@);
        }
        if c.flags & COLUMN_UPDATEABLE != 0 {
            out.push(c);
            proof {
                assert(metas_view(out@) =~= metas_view(out@.drop_last()).push(c@));
            }
        }
        proof {
            assert(metas_view(left@) =~= all.subrange(i + 1, all.len() as int));
            i = i + 1;
        }
    }
    assert(all.subrange(0, i) =~= all);
    Ok(out)
}

/// How a column's type is declared in `INSERT BULK`.
pub open spec fn type_decl(t: TypeInfo) -> Seq<char> {
    match t {
        TypeInfo::Int1 => "tinyint"@,
        TypeInfo::Bit => "bit"@,
        TypeInfo::Int2 => "smallint"@,
        TypeInfo::Int4 => "int"@,
        TypeInfo::Int8 => "bigint"@,
        TypeInfo::Flt4 => "real"@,
        TypeInfo::Flt8 => "float"@,
        TypeInfo::IntN(w) => if w == 1 {
            "tinyint"@
        } else if w == 2 {
            "smallint"@
        } else if w == 4 {
            "int"@
        } else {
            "bigint"@
        },
        TypeInfo::BitN => "bit"@,
        TypeInfo::FltN(w) => if w == 4 { "real"@ } else { "float"@ },
        TypeInfo::NVarChar(max, _) => if max == NULL_LEN_U16 {
            "nvarchar(max)"@
        } else {
            "nvarchar("@ + decimal((max / 2) as nat) + ")"@
        },
    }
}

/// A column's declaration: its name and its type.
pub open spec fn column_decl(c: ColumnMetaView) -> Seq<char> {
    utf16_text(c.name) + " "@ + type_decl(c.type_info)
}

/// The declarations of the columns, joined with `, `.
pub open spec fn column_decls(cs: Seq<ColumnMetaView>) -> Seq<char>
    decreases cs.len(),
{
    if cs.len() == 0 {
        Seq::empty()
    } else if cs.len() == 1 {
        column_decl(cs[0])
    } else {
        column_decls(cs.drop_last()) + ", "@ + column_decl(cs.last())
    }
}

pub open spec fn insert_bulk_spec(table: Seq<char>, cs: Seq<ColumnMetaView>) -> Seq<char> {
    "INSERT BULK "@ + table + " ("@ + column_decls(cs) + ")"@
}

fn push_type_decl(s: &mut String, t: TypeInfo)
    ensures
        final(s)@ == old(s)@ + type_decl(t),
{
    proof {
        reveal_strlit("tinyint");
        reveal_strlit("bit");
        reveal_strlit("smallint");
        reveal_strlit("int");
        reveal_strlit("bigint");
        reveal_strlit("real");
        reveal_strlit("float");
        reveal_strlit("nvarchar(max)");
        reveal_strlit("nvarchar(");
        reveal_strlit(")");
    }
    match t {
        TypeInfo::Int1 => s.append("tinyint"),
        TypeInfo::Bit => s.append("bit"),
        TypeInfo::Int2 => s.append("smallint"),
        TypeInfo::Int4 => s.append("int"),
        TypeInfo::Int8 => s.append("bigint"),
        TypeInfo::Flt4 => s.append("real"),
        TypeInfo::Flt8 => s.append("float"),
        TypeInfo::IntN(w) => if w == 1 {
            s.append("tinyint")
        } else if w == 2 {
            s.append("smallint")
        } else if w == 4 {
            s.append("int")
        } else {
            s.append("bigint")
        },
        TypeInfo::BitN => s.append("bit"),
        TypeInfo::FltN(w) => if w == 4 {
            s.append("real")
        } else {
            s.append("float")
        },
        TypeInfo::NVarChar(max, _) => if max == NULL_LEN_U16 {
            s.append("nvarchar(max)")
        } else {
            s.append("nvarchar(");
            push_decimal(s, (max / 2) as usize);
            s.append(")");
            assert(final(s)@ =~= old(s)@ + type_decl(t));
        },
    }
}

/// The `INSERT BULK` statement that starts loading `cols` into `table`.
pub fn insert_bulk_statement(table: &str, cols: &Vec<ColumnMeta>) -> (r: String)
    ensures
        r@ == insert_bulk_spec(table@, metas_view(cols@)),
{
    proof {
        reveal_strlit("INSERT BULK ");
        reveal_strlit(" (");
        reveal_strlit(", ");
        reveal_strlit(" ");
        reveal_strlit(")");
    }
    let mut s = String::new();
    s.append("INSERT BULK ");
    s.append(table);
    s.append(" (");
    let ghost head = s@;
    let ghost cs = metas_view(cols@);
    let mut i: usize = 0;
    while i < cols.len()
        invariant
            i <= cols@.len(),
            cs == metas_view(cols@),
            s@ == head + column_decls(cs.subrange(0, i as int)),
        decreases cols@.len() - i,
    {
        if i > 0 {
            s.append(", ");
        }
        let name = text_of_utf16(cols[i].name.as_slice());
        s.append(name.as_str());
        s.append(" ");
        push_type_decl(&mut s, cols[i].type_info);
        proof {
            let sub = cs.subrange(0, i + 1);
            assert(sub.drop_last() =~= cs.subrange(0, i as int));
            assert(sub.last() == cols@[i as int]@);
            if i == 0 {
                assert(sub[0] == cols@[0]@);
            }
        }
        assert(s@ =~= head + column_decls(cs.subrange(0, i + 1)));
        i += 1;
    }
    assert(cs.subrange(0, i as int) =~= cs);
    s.append(")");
    assert(s@ =~= insert_bulk_spec(table@, metas_view(cols@)));
    s
}

/// A value in row format for a column of type `t`; `None` when the value
/// does not fit the column.
pub open spec fn row_value_bytes(v: ColumnValue, t: TypeInfo) -> Option<Seq<u8>> {
    match t {
        TypeInfo::Int1 => match v { ColumnValue::U8(Some(n)) => Some(seq![n]), _ => None },
        TypeInfo::Bit => match v {
            ColumnValue::Bit(Some(b)) => Some(seq![if b { 1u8 } else { 0u8 }]),
            _ => None,
        },
        TypeInfo::Int2 => match v { ColumnValue::I16(Some(n)) => Some(le16(n as u16)), _ => None },
        TypeInfo::Int4 => match v { ColumnValue::I32(Some(n)) => Some(le32(n as u32)), _ => None },
        TypeInfo::Int8 => match v { ColumnValue::I64(Some(n)) => Some(le64(n as u64)), _ => None },
        TypeInfo::Flt4 => match v { ColumnValue::F32(Some(n)) => Some(le32(n)), _ => None },
        TypeInfo::Flt8 => match v { ColumnValue::F64(Some(n)) => Some(le64(n)), _ => None },
        TypeInfo::IntN(w) => match v {
            ColumnValue::U8(None) if w == 1 => Some(seq![0u8]),
            ColumnValue::U8(Some(n)) if w == 1 => Some(seq![1u8, n]),
            ColumnValue::I16(None) if w == 2 => Some(seq![0u8]),
            ColumnValue::I16(Some(n)) if w == 2 => Some(seq![2u8] + le16(n as u16)),
            ColumnValue::I32(None) if w == 4 => Some(seq![0u8]),
            ColumnValue::I32(Some(n)) if w == 4 => Some(seq![4u8] + le32(n as u32)),
            ColumnValue::I64(None) if w == 8 => Some(seq![0u8]),
            ColumnValue::I64(Some(n)) if w == 8 => Some(seq![8u8] + le64(n as u64)),
            _ => None,
        },
        TypeInfo::BitN => match v {
            ColumnValue::Bit(None) => Some(seq![0u8]),
            ColumnValue::Bit(Some(b)) => Some(seq![1u8, if b { 1u8 } else { 0u8 }]),
            _ => None,
        },
        TypeInfo::FltN(w) => match v {
            ColumnValue::F32(None) if w == 4 => Some(seq![0u8]),
            ColumnValue::F32(Some(n)) if w == 4 => Some(seq![4u8] + le32(n)),
            ColumnValue::F64(None) if w == 8 => Some(seq![0u8]),
            ColumnValue::F64(Some(n)) if w == 8 => Some(seq![8u8] + le64(n)),
            _ => None,
        },
        TypeInfo::NVarChar(max, _) => match v {
            ColumnValue::String(None) => if max == NULL_LEN_U16 {
                Some(le64(PLP_NULL))
            } else {
                Some(le16(NULL_LEN_U16))
            },
            ColumnValue::String(Some(u)) => if max == NULL_LEN_U16 {
                if 2 * u.len() > u32::MAX {
                    None
                } else if u.len() == 0 {
                    Some(le64(0) + le32(0))
                } else {
                    Some(le64((2 * u.len()) as u64) + le32((2 * u.len()) as u32) + units_le(u) + le32(0))
                }
            } else if 2 * u.len() <= max {
                Some(le16((2 * u.len()) as u16) + units_le(u))
            } else {
                None
            },
            _ => None,
        },
    }
}

/// The values of a row in row format, for columns of types `ts`.
pub open spec fn row_values_bytes(vs: Seq<ColumnValue>, ts: Seq<TypeInfo>) -> Option<Seq<u8>>
    decreases vs.len(),
{
    if vs.len() != ts.len() {
        None
    } else if vs.len() == 0 {
        Some(Seq::empty())
    } else {
        match (row_values_bytes(vs.drop_last(), ts.drop_last()), row_value_bytes(vs.last(), ts.last())) {
            (Some(a), Some(b)) => Some(a + b),
            _ => None,
        }
    }
}

/// A row token for the given columns; `None` when the row does not match them.
pub open spec fn row_token(vs: Seq<ColumnValue>, cs: Seq<ColumnMetaView>) -> Option<Seq<u8>> {
    match row_values_bytes(vs, column_types(cs)) {
        Some(b) => Some(seq![TOKEN_ROW] + b),
        None => None,
    }
}

/// Whether a value fits a column of type `t`.
pub fn row_value_fits(v: &ColumnData, t: TypeInfo) -> (r: bool)
    ensures
        r == row_value_bytes(v@, t) is Some,
{
    match t {
        TypeInfo::Int1 => matches!(v, ColumnData::U8(Some(_))),
        TypeInfo::Bit => matches!(v, ColumnData::Bit(Some(_))),
        TypeInfo::Int2 => matches!(v, ColumnData::I16(Some(_))),
        TypeInfo::Int4 => matches!(v, ColumnData::I32(Some(_))),
        TypeInfo::Int8 => matches!(v, ColumnData::I64(Some(_))),
        TypeInfo::Flt4 => matches!(v, ColumnData::F32(Some(_))),
        TypeInfo::Flt8 => matches!(v, ColumnData::F64(Some(_))),
        TypeInfo::IntN(w) => match v {
            ColumnData::U8(_) => w == 1,
            ColumnData::I16(_) => w == 2,
            ColumnData::I32(_) => w == 4,
            ColumnData::I64(_) => w == 8,
            _ => false,
        },
        TypeInfo::BitN => matches!(v, ColumnData::Bit(_)),
        TypeInfo::FltN(w) => match v {
            ColumnData::F32(_) => w == 4,
            ColumnData::F64(_) => w == 8,
            _ => false,
        },
        TypeInfo::NVarChar(max, _) => match v {
            ColumnData::String(None) => true,
            ColumnData::String(Some(u)) => if max == NULL_LEN_U16 {
                u.len() <= 0x7FFF_FFFF
            } else {
                u.len() <= (max / 2) as usize
            },
            _ => false,
        },
    }
}

fn put_nullable_head(dst: &mut BytesMut, null: bool, w: u8)
    requires
        buf_bytes(*old(dst)).len() + 1 <= isize::MAX,
    ensures
        buf_bytes(*final(dst)) == buf_bytes(*old(dst)).push(if null { 0u8 } else { w }),
{
    put_u8(dst, if null { 0u8 } else { w });
}

/// Appends a value in row format for a column of type `t`.
pub fn put_row_value(dst: &mut BytesMut, v: &ColumnData, t: TypeInfo)
    requires
        row_value_bytes(v@, t) is Some,
        buf_bytes(*old(dst)).len() + row_value_bytes(v@, t)->0.len() <= isize::MAX,
    ensures
        buf_bytes(*final(dst)) == buf_bytes(*old(dst)) + row_value_bytes(v@, t)->0,
{
    let ghost start = buf_bytes(*dst);
    let nullable = match t {
        TypeInfo::IntN(_) | TypeInfo::BitN | TypeInfo::FltN(_) => true,
        _ => false,
    };
    let w: u8 = match t {
        TypeInfo::IntN(w) => w,
        TypeInfo::FltN(w) => w,
        _ => 1,
    };
    match v {
        ColumnData::Bit(o) => {
            if nullable {
                put_nullable_head(dst, o.is_none(), 1);
            }
            if let Some(b) = o {
                put_u8(dst, if *b { 1u8 } else { 0u8 });
            }
        },
        ColumnData::U8(o) => {
            if nullable {
                put_nullable_head(dst, o.is_none(), w);
            }
            if let Some(n) = o {
                put_u8(dst, *n);
            }
        },
        ColumnData::I16(o) => {
            if nullable {
                put_nullable_head(dst, o.is_none(), w);
            }
            if let Some(n) = o {
                put_u16_le(dst, *n as u16);
            }
        },
        ColumnData::I32(o) => {
            if nullable {
                put_nullable_head(dst, o.is_none(), w);
            }
            if let Some(n) = o {
                put_u32_le(dst, *n as u32);
            }
        },
        ColumnData::I64(o) => {
            if nullable {
                put_nullable_head(dst, o.is_none(), w);
            }
            if let Some(n) = o {
                put_u64_le(dst, *n as u64);
            }
        },
        ColumnData::F32(o) => {
            if nullable {
                put_nullable_head(dst, o.is_none(), w);
            }
            if let Some(n) = o {
                put_u32_le(dst, *n);
            }
        },
        ColumnData::F64(o) => {
            if nullable {
                put_nullable_head(dst, o.is_none(), w);
            }
            if let Some(n) = o {
                put_u64_le(dst, *n);
            }
        },
        ColumnData::String(o) => {
            let max = match t {
                TypeInfo::NVarChar(max, _) => max,
                _ => 0,
            };
            match o {
                None => if max == NULL_LEN_U16 {
                    put_u64_le(dst, PLP_NULL);
                } else {
                    put_u16_le(dst, NULL_LEN_U16);
                },
                Some(u) => {
                    proof {
                        lemma_units_le_len(u@);
                    }
                    if max == NULL_LEN_U16 {
                        if u.len() == 0 {
                            put_u64_le(dst, 0);
                            put_u32_le(dst, 0);
                        } else {
                            let m = (2 * u.len()) as u32;
                            put_u64_le(dst, m as u64);
                            put_u32_le(dst, m);
                            put_units(dst, u);
                            put_u32_le(dst, 0);
                        }
                    } else {
                        put_u16_le(dst, (2 * u.len()) as u16);
                        put_units(dst, u);
                    }
                },
            }
        },
        ColumnData::Guid(_) | ColumnData::Binary(_) | ColumnData::Numeric(..) => {},
    }
    assert(buf_bytes(*dst) =~= start + row_value_bytes(v@, t)->0);
}

proof fn lemma_row_prefix(vs: Seq<ColumnValue>, ts: Seq<TypeInfo>, i: int)
    requires
        vs.len() == ts.len(),
        0 <= i <= vs.len(),
        row_values_bytes(vs, ts) is Some,
    ensures
        row_values_bytes(vs.subrange(0, i), ts.subrange(0, i)) is Some,
        row_values_bytes(vs.subrange(0, i), ts.subrange(0, i))->0.len() <= row_values_bytes(vs, ts)->0.len(),
    decreases vs.len(),
{
    if i < vs.len() {
        assert(vs.drop_last().subrange(0, i) =~= vs.subrange(0, i));
        assert(ts.drop_last().subrange(0, i) =~= ts.subrange(0, i));
        lemma_row_prefix(vs.drop_last(), ts.drop_last(), i);
    } else {
        assert(vs.subrange(0, i) =~= vs);
        assert(ts.subrange(0, i) =~= ts);
    }
}

/// The bytes of the final `DONE` token that ends a bulk load.
pub open spec fn bulk_done_bytes() -> Seq<u8> {
    seq![TOKEN_DONE] + le16(0) + le16(0) + le64(0)
}

/// A bulk load in progress: the columns it writes and the encoded rows.
pub struct BulkLoadRequest {
    columns: Vec<ColumnMeta>,
    buf: BytesMut,
}

impl BulkLoadRequest {
    pub closed spec fn columns(&self) -> Seq<ColumnMetaView> {
        metas_view(self.columns@)
    }

    pub closed spec fn data(&self) -> Seq<u8> {
        buf_bytes(self.buf)
    }

    pub fn new(columns: Vec<ColumnMeta>) -> (r: Self)
        ensures
            r.columns() == metas_view(columns@),
            r.data() == Seq::<u8>::empty(),
    {
        BulkLoadRequest { columns, buf: buf_new() }
    }

    /// Appends one row token. A row whose arity or value types do not match
    /// the columns is refused with `BulkInput`, and nothing is appended.
    pub fn send(&mut self, row: &Vec<ColumnData>) -> (r: Result<(), Error>)
        requires
            row_token(values_view(row@), old(self).columns()) matches Some(b) ==> old(self).data().len()
                + b.len() <= isize::MAX,
        ensures
            final(self).columns() == old(self).columns(),
            match row_token(values_view(row@), old(self).columns()) {
                Some(b) => r is Ok && final(self).data() == old(self).data() + b,
                None => r == Err::<(), Error>(Error::BulkInput) && final(self).data() == old(self).data(),
            },
    {
        let ghost vs = values_view(row@);
        let ghost ts = column_types(metas_view(self.columns@));
        if row.len() != self.columns.len() {
            return Err(Error::BulkInput);
        }
        let mut i: usize = 0;
        while i < row.len()
            invariant
                i <= row@.len(),
                row@.len() == self.columns@.len(),
                vs == values_view(row@),
                ts == column_types(metas_view(self.columns@)),
                row_values_bytes(vs.subrange(0, i as int), ts.subrange(0, i as int)) is Some,
            decreases row@.len() - i,
        {
            proof {
                assert(vs.subrange(0, i + 1).drop_last() =~= vs.subrange(0, i as int));
                assert(ts.subrange(0, i + 1).drop_last() =~= ts.subrange(0, i as int));
                assert(vs.subrange(0, i + 1).last() == row@[i as int]@);
                assert(ts.subrange(0, i + 1).last() == self.columns@[i as int].type_info);
            }
            if !row_value_fits(&row[i], self.columns[i].type_info) {
                proof {
                    lemma_row_none(vs, ts, i as int);
                }
                return Err(Error::BulkInput);
            }
            i += 1;
        }
        proof {
            assert(vs.subrange(0, i as int) =~= vs);
            assert(ts.subrange(0, i as int) =~= ts);
        }
        let ghost start = buf_bytes(self.buf);
        put_u8(&mut self.buf, TOKEN_ROW);
        let mut k: usize = 0;
        while k < row.len()
            invariant
                k <= row@.len(),
                self.columns@ == old(self).columns@,
                row@.len() == self.columns@.len(),
                vs == values_view(row@),
                ts == column_types(metas_view(self.columns@)),
                row_values_bytes(vs, ts) is Some,
                start.len() + 1 + row_values_bytes(vs, ts)->0.len() <= isize::MAX,
                buf_bytes(self.buf) == start.push(TOKEN_ROW) + row_values_bytes(
                    vs.subrange(0, k as int),
                    ts.subrange(0, k as int),
                )->0,
            decreases row@.len() - k,
        {
            proof {
                lemma_row_prefix(vs, ts, k + 1);
                assert(vs.subrange(0, k + 1).drop_last() =~= vs.subrange(0, k as int));
                assert(ts.subrange(0, k + 1).drop_last() =~= ts.subrange(0, k as int));
                assert(vs.subrange(0, k + 1).last() == row@[k as int]@);
                assert(ts.subrange(0, k + 1).last() == self.columns@[k as int].type_info);
            }
            put_row_value(&mut self.buf, &row[k], self.columns[k].type_info);
            proof {
                let pre = row_values_bytes(vs.subrange(0, k as int), ts.subrange(0, k as int))->0;
                let v = row_value_bytes(row@[k as int]@, self.columns@[k as int].type_info)->0;
                assert(start.push(TOKEN_ROW) + pre + v =~= start.push(TOKEN_ROW) + (pre + v));
            }
            k += 1;
        }
        proof {
            assert(vs.subrange(0, k as int) =~= vs);
            assert(ts.subrange(0, k as int) =~= ts);
            assert(buf_bytes(self.buf) =~= start + row_token(vs, metas_view(self.columns@))->0);
        }
        Ok(())
    }

    /// Ends the load: appends the final `DONE` token and hands out all the
    /// bytes to send.
    pub fn finalize(self) -> (r: Vec<u8>)
        requires
            self.data().len() + 13 <= isize::MAX,
        ensures
            r@ == self.data() + bulk_done_bytes(),
    {
        let mut buf = self.buf;
        put_u8(&mut buf, TOKEN_DONE);
        put_u16_le(&mut buf, 0);
        put_u16_le(&mut buf, 0);
        put_u64_le(&mut buf, 0);
        assert(buf_bytes(buf) =~= buf_bytes(self.buf) + bulk_done_bytes());
        buf_to_vec(&buf)
    }
}

/// A value that does not fit its column spoils the whole row.
proof fn lemma_row_none(vs: Seq<ColumnValue>, ts: Seq<TypeInfo>, i: int)
    requires
        vs.len() == ts.len(),
        0 <= i < vs.len(),
        row_value_bytes(vs[i], ts[i]) is None,
    ensures
        row_values_bytes(vs, ts) is None,
    decreases vs.len(),
{
    if i < vs.len() - 1 {
        lemma_row_none(vs.drop_last(), ts.drop_last(), i);
    }
}

} // verus!
