//! The RPC request token: a procedure, option flags and parameters, after
//! the All-Headers block that binds the request to a transaction.
use crate::buf::{buf_bytes, le16, le32, put_slice, put_u16_le, put_u32_le, put_u8, u32_at, lemma_u32_at};
use crate::column_data::{
    encodable, encode_value, lemma_units_le_len, put_units, units_le, Collation, ColumnData,
};
use crate::error::Error;
use crate::text::{utf16_of, utf16_units};
use bytes::BytesMut;
use vstd::prelude::*;

verus! {

/// Length of the All-Headers block with its one transaction-descriptor header.
pub const ALL_HEADERS_LEN_TX: u32 = 22;

/// Header type of the transaction descriptor.
pub const TRANSACTION_DESCRIPTOR: u16 = 2;

/// Status flags of one RPC parameter.
#[derive(Debug, Clone, Copy, PartialEq, Eq, Structural)]
pub enum RpcStatus {
    ByRefValue,
    DefaultValue,
    Encrypted,
}

impl RpcStatus {
    /// The flag's bit in the parameter's status byte.
    pub fn bit(&self) -> (r: u8)
        ensures
            r == match self {
                RpcStatus::ByRefValue => 1u8,
                RpcStatus::DefaultValue => 2u8,
                RpcStatus::Encrypted => 8u8,
            },
    {
        match self {
            RpcStatus::ByRefValue => 1,
            RpcStatus::DefaultValue => 2,
            RpcStatus::Encrypted => 8,
        }
    }
}

/// Option flags of an RPC request.
#[derive(Debug, Clone, Copy, PartialEq, Eq, Structural)]
pub enum RpcOption {
    WithRecomp,
    NoMeta,
    ReuseMeta,
}

impl RpcOption {
    /// The option's bit in the request's option word.
    pub fn bit(&self) -> (r: u16)
        ensures
            r == match self {
                RpcOption::WithRecomp => 1u16,
                RpcOption::NoMeta => 2u16,
                RpcOption::ReuseMeta => 4u16,
            },
    {
        match self {
            RpcOption::WithRecomp => 1,
            RpcOption::NoMeta => 2,
            RpcOption::ReuseMeta => 4,
        }
    }
}

/// The well-known procedures that can be called by number.
#[derive(Debug, Clone, Copy, PartialEq, Eq, Structural)]
pub enum RpcProcId {
    CursorOpen,
    CursorFetch,
    CursorClose,
    ExecuteSQL,
    Prepare,
    Execute,
    PrepExec,
    Unprepare,
}

pub open spec fn proc_number(p: RpcProcId) -> u16 {
    match p {
        RpcProcId::CursorOpen => 2,
        RpcProcId::CursorFetch => 7,
        RpcProcId::CursorClose => 9,
        RpcProcId::ExecuteSQL => 10,
        RpcProcId::Prepare => 11,
        RpcProcId::Execute => 12,
        RpcProcId::PrepExec => 13,
        RpcProcId::Unprepare => 15,
    }
}

impl RpcProcId {
    /// The procedure's number on the wire.
    pub fn number(&self) -> (r: u16)
        ensures
            r == proc_number(*self),
    {
        match self {
            RpcProcId::CursorOpen => 2,
            RpcProcId::CursorFetch => 7,
            RpcProcId::CursorClose => 9,
            RpcProcId::ExecuteSQL => 10,
            RpcProcId::Prepare => 11,
            RpcProcId::Execute => 12,
            RpcProcId::PrepExec => 13,
            RpcProcId::Unprepare => 15,
        }
    }
}

/// The procedure an RPC request calls: by name or by number.
#[derive(Debug, Clone, PartialEq, Eq)]
pub enum RpcProcIdValue {
    Name(String),
    Id(RpcProcId),
}

impl RpcProcIdValue {
    pub fn from_id(id: RpcProcId) -> (r: Self)
        ensures
            r == RpcProcIdValue::Id(id),
    {
        RpcProcIdValue::Id(id)
    }

    pub fn from_name(name: String) -> (r: Self)
        ensures
            r == RpcProcIdValue::Name(name),
    {
        RpcProcIdValue::Name(name)
    }
}

/// One parameter of an RPC request. An empty name makes it positional.
#[derive(Debug, Clone, PartialEq, Eq)]
pub struct RpcParam {
    pub name: String,
    /// Bits of `RpcStatus`.
    pub flags: u8,
    pub value: ColumnData,
}

/// A request to call a procedure with parameters.
#[derive(Debug, Clone, PartialEq, Eq)]
pub struct TokenRpcRequest {
    pub proc_id: RpcProcIdValue,
    /// Bits of `RpcOption`.
    pub flags: u16,
    pub params: Vec<RpcParam>,
    pub transaction_desc: [u8; 8],
}

/// The All-Headers block: its total length, then one transaction-descriptor
/// header of 18 bytes with one outstanding request.
pub open spec fn all_headers(tx: Seq<u8>) -> Seq<u8> {
    le32(ALL_HEADERS_LEN_TX) + le32((ALL_HEADERS_LEN_TX - 4) as u32) + le16(TRANSACTION_DESCRIPTOR)
        + tx + le32(1)
}

/// A parameter's wire form: name length in code units, the name, the status
/// byte, then the value.
pub open spec fn encode_param(p: RpcParam, c: Collation) -> Seq<u8> {
    let name = utf16_of(p.name@);
    seq![name.len() as u8] + units_le(name) + seq![p.flags] + encode_value(p.value@, c)
}

/// Whether a parameter can be written: its name has at most 255 code units
/// and its value fits its format.
pub open spec fn param_ok(p: RpcParam) -> bool {
    utf16_of(p.name@).len() <= 255 && encodable(p.value@)
}

pub open spec fn encode_params(ps: Seq<RpcParam>, c: Collation) -> Seq<u8>
    decreases ps.len(),
{
    if ps.len() == 0 {
        Seq::empty()
    } else {
        encode_params(ps.drop_last(), c) + encode_param(ps.last(), c)
    }
}

pub open spec fn proc_bytes(p: RpcProcIdValue) -> Seq<u8> {
    match p {
        RpcProcIdValue::Id(id) => le32(0xFFFF | ((proc_number(id) as u32) << 16u32)),
        RpcProcIdValue::Name(n) => le16(utf16_of(n@).len() as u16) + units_le(utf16_of(n@)),
    }
}

pub open spec fn proc_ok(p: RpcProcIdValue) -> bool {
    match p {
        RpcProcIdValue::Id(_) => true,
        RpcProcIdValue::Name(n) => utf16_of(n@).len() <= u16::MAX,
    }
}

/// Whether a request can be written: a named procedure fits a `u16` length
/// and every parameter can be written.
pub open spec fn rpc_ok(r: TokenRpcRequest) -> bool {
    proc_ok(r.proc_id) && forall|i: int| 0 <= i < r.params@.len() ==> param_ok(#[trigger] r.params@[i])
}

/// A request's wire form.
pub open spec fn encode_rpc(r: TokenRpcRequest, c: Collation) -> Seq<u8> {
    all_headers(r.transaction_desc@) + proc_bytes(r.proc_id) + le16(r.flags) + encode_params(
        r.params@,
        c,
    )
}

fn put_all_headers(dst: &mut BytesMut, tx: &[u8; 8])
    requires
        buf_bytes(*old(dst)).len() + 22 <= isize::MAX,
    ensures
        buf_bytes(*final(dst)) == buf_bytes(*old(dst)) + all_headers(tx@),
{
    put_u32_le(dst, ALL_HEADERS_LEN_TX);
    put_u32_le(dst, ALL_HEADERS_LEN_TX - 4);
    put_u16_le(dst, TRANSACTION_DESCRIPTOR);
    put_slice(dst, tx.as_slice());
    put_u32_le(dst, 1);
    assert(buf_bytes(*dst) =~= buf_bytes(*old(dst)) + all_headers(tx@));
}

impl RpcParam {
    /// Appends the parameter: name length and name, status flags, value.
    pub fn encode(&self, dst: &mut BytesMut, collation: Collation) -> (r: Result<(), Error>)
        requires
            buf_bytes(*old(dst)).len() + encode_param(*self, collation).len() <= isize::MAX,
        ensures
            param_ok(*self) ==> r is Ok && buf_bytes(*final(dst)) == buf_bytes(*old(dst))
                + encode_param(*self, collation),
            !param_ok(*self) ==> r == Err::<(), Error>(Error::Conversion) && buf_bytes(*final(dst))
                == buf_bytes(*old(dst)),
    {
        let name = utf16_units(self.name.as_str());
        if name.len() > 255 || !self.value.is_encodable() {
            return Err(Error::Conversion);
        }
        proof {
            lemma_units_le_len(name@);
        }
        put_u8(dst, name.len() as u8);
        put_units(dst, &name);
        put_u8(dst, self.flags);
        let _ = self.value.encode(dst, collation);
        assert(buf_bytes(*dst) =~= buf_bytes(*old(dst)) + encode_param(*self, collation));
        Ok(())
    }
}

proof fn lemma_encode_params_prefix(ps: Seq<RpcParam>, i: int, c: Collation)
    requires
        0 <= i <= ps.len(),
    ensures
        encode_params(ps.subrange(0, i), c).len() <= encode_params(ps, c).len(),
    decreases ps.len(),
{
    if i < ps.len() {
        assert(ps.drop_last().subrange(0, i) =~= ps.subrange(0, i));
        lemma_encode_params_prefix(ps.drop_last(), i, c);
    } else {
        assert(ps.subrange(0, i) =~= ps);
    }
}

impl TokenRpcRequest {
    /// A request with no option flags set.
    pub fn new(proc_id: RpcProcIdValue, params: Vec<RpcParam>, transaction_desc: [u8; 8]) -> (r:
        Self)
        ensures
            r.proc_id == proc_id,
            r.flags == 0,
            r.params@ == params@,
            r.transaction_desc@ == transaction_desc@,
    {
        TokenRpcRequest { proc_id, flags: 0, params, transaction_desc }
    }

    /// Appends the request: All-Headers, procedure, option flags, then each
    /// parameter in order. A request that cannot be written is refused before
    /// anything is appended.
    pub fn encode(&self, dst: &mut BytesMut, collation: Collation) -> (r: Result<(), Error>)
        requires
            buf_bytes(*old(dst)).len() + encode_rpc(*self, collation).len() <= isize::MAX,
        ensures
            rpc_ok(*self) ==> r is Ok && buf_bytes(*final(dst)) == buf_bytes(*old(dst))
                + encode_rpc(*self, collation),
            !rpc_ok(*self) ==> r == Err::<(), Error>(Error::Conversion) && buf_bytes(*final(dst))
                == buf_bytes(*old(dst)),
    {
        let mut i: usize = 0;
        while i < self.params.len()
            invariant
                i <= self.params@.len(),
                forall|j: int| 0 <= j < i ==> param_ok(#[trigger] self.params@[j]),
            decreases self.params@.len() - i,
        {
            let p = &self.params[i];
            let name = utf16_units(p.name.as_str());
            if name.len() > 255 || !p.value.is_encodable() {
                return Err(Error::Conversion);
            }
            i += 1;
        }
        let proc_name = match &self.proc_id {
            RpcProcIdValue::Id(_) => Vec::new(),
            RpcProcIdValue::Name(n) => utf16_units(n.as_str()),
        };
        if proc_name.len() > 0xFFFF {
            return Err(Error::Conversion);
        }
        proof {
            lemma_units_le_len(proc_name@);
        }
        let ghost start = buf_bytes(*dst);
        put_all_headers(dst, &self.transaction_desc);
        match &self.proc_id {
            RpcProcIdValue::Id(id) => {
                put_u32_le(dst, 0xFFFF_u32 | ((id.number() as u32) << 16u32));
            },
            RpcProcIdValue::Name(_) => {
                put_u16_le(dst, proc_name.len() as u16);
                put_units(dst, &proc_name);
            },
        }
        put_u16_le(dst, self.flags);
        let ghost head = buf_bytes(*dst);
        assert(head =~= start + all_headers(self.transaction_desc@) + proc_bytes(self.proc_id)
            + le16(self.flags));
        let mut k: usize = 0;
        while k < self.params.len()
            invariant
                k <= self.params@.len(),
                rpc_ok(*self),
                head.len() + encode_params(self.params@, collation).len() <= isize::MAX,
                buf_bytes(*dst) == head + encode_params(self.params@.subrange(0, k as int), collation),
            decreases self.params@.len() - k,
        {
            proof {
                lemma_encode_params_prefix(self.params@, k + 1, collation);
                assert(self.params@.subrange(0, k + 1).drop_last() =~= self.params@.subrange(0, k as int));
            }
            let _ = self.params[k].encode(dst, collation);
            proof {
                assert(param_ok(self.params@[k as int]));
            }
            k += 1;
        }
        assert(self.params@.subrange(0, k as int) =~= self.params@);
        assert(buf_bytes(*dst) =~= start + encode_rpc(*self, collation));
        Ok(())
    }
}

/// A request carrying raw SQL text.
#[derive(Debug, Clone, PartialEq, Eq)]
pub struct BatchRequest {
    pub sql: String,
    pub transaction_desc: [u8; 8],
}

/// A batch's wire form: All-Headers, then the text as UTF-16LE with no
/// length prefix.
pub open spec fn encode_batch(r: BatchRequest) -> Seq<u8> {
    all_headers(r.transaction_desc@) + units_le(utf16_of(r.sql@))
}

impl BatchRequest {
    pub fn new(sql: String, transaction_desc: [u8; 8]) -> (r: Self)
        ensures
            r.sql@ == sql@,
            r.transaction_desc@ == transaction_desc@,
    {
        BatchRequest { sql, transaction_desc }
    }

    /// Appends the request.
    pub fn encode(&self, dst: &mut BytesMut)
        requires
            buf_bytes(*old(dst)).len() + encode_batch(*self).len() <= isize::MAX,
        ensures
            buf_bytes(*final(dst)) == buf_bytes(*old(dst)) + encode_batch(*self),
    {
        let text = utf16_units(self.sql.as_str());
        proof {
            lemma_units_le_len(text@);
        }
        put_all_headers(dst, &self.transaction_desc);
        put_units(dst, &text);
        assert(buf_bytes(*dst) =~= buf_bytes(*old(dst)) + encode_batch(*self));
    }
}

/// Every encoded request, RPC or batch, starts with four bytes that read,
/// little-endian, as the All-Headers length 22.
pub proof fn lemma_request_starts_with_headers_len(r: TokenRpcRequest, b: BatchRequest, c: Collation)
    ensures
        u32_at(encode_rpc(r, c), 0) == ALL_HEADERS_LEN_TX,
        u32_at(encode_batch(b), 0) == ALL_HEADERS_LEN_TX,
{
    let e = encode_rpc(r, c);
    assert(e.subrange(0, 4) =~= le32(ALL_HEADERS_LEN_TX));
    lemma_u32_at(e, 0, ALL_HEADERS_LEN_TX);
    let f = encode_batch(b);
    assert(f.subrange(0, 4) =~= le32(ALL_HEADERS_LEN_TX));
    lemma_u32_at(f, 0, ALL_HEADERS_LEN_TX);
}

/// Every parameter in an encoded request starts with a length byte equal to
/// the number of UTF-16 code units of its name, and exactly those code
/// units follow it: the parameter section is the parameters' encodings in
/// order, and each one is laid out so.
pub proof fn lemma_param_name_length(r: TokenRpcRequest, c: Collation, i: int)
    requires
        rpc_ok(r),
        0 <= i < r.params@.len(),
    ensures
        ({
            let p = r.params@[i];
            let name = utf16_of(p.name@);
            let e = encode_param(p, c);
            let pre = all_headers(r.transaction_desc@) + proc_bytes(r.proc_id) + le16(r.flags)
                + encode_params(r.params@.subrange(0, i), c);
            &&& encode_rpc(r, c).subrange(pre.len() as int, (pre.len() + e.len()) as int) == e
            &&& e[0] as nat == name.len()
            &&& e.subrange(1, 1 + 2 * name.len() as int) == units_le(name)
        }),
{
    let p = r.params@[i];
    assert(param_ok(p));
    let name = utf16_of(p.name@);
    let e = encode_param(p, c);
    lemma_units_le_len(name);
    assert(e.subrange(1, 1 + 2 * name.len() as int) =~= units_le(name));
    lemma_params_split(r.params@, i, c);
    let pre = all_headers(r.transaction_desc@) + proc_bytes(r.proc_id) + le16(r.flags)
        + encode_params(r.params@.subrange(0, i), c);
    let whole = encode_rpc(r, c);
    assert(whole.subrange(pre.len() as int, (pre.len() + e.len()) as int) =~= e);
}

/// The encoding of a parameter list holds, after the encodings of the first
/// `i` parameters, that of parameter `i`.
proof fn lemma_params_split(ps: Seq<RpcParam>, i: int, c: Collation)
    requires
        0 <= i < ps.len(),
    ensures
        encode_params(ps, c).subrange(
            encode_params(ps.subrange(0, i), c).len() as int,
            (encode_params(ps.subrange(0, i), c).len() + encode_param(ps[i], c).len()) as int,
        ) == encode_param(ps[i], c),
        encode_params(ps.subrange(0, i), c).len() + encode_param(ps[i], c).len()
            <= encode_params(ps, c).len(),
    decreases ps.len(),
{
    let a = encode_params(ps.subrange(0, i), c);
    let e = encode_param(ps[i], c);
    if i == ps.len() - 1 {
        assert(ps.drop_last() =~= ps.subrange(0, i));
        assert(encode_params(ps, c).subrange(a.len() as int, (a.len() + e.len()) as int) =~= e);
    } else {
        assert(ps.drop_last().subrange(0, i) =~= ps.subrange(0, i));
        lemma_params_split(ps.drop_last(), i, c);
        let whole = encode_params(ps, c);
        let front = encode_params(ps.drop_last(), c);
        assert(whole.subrange(a.len() as int, (a.len() + e.len()) as int) =~= front.subrange(
            a.len() as int,
            (a.len() + e.len()) as int,
        ));
    }
}

} // verus!
