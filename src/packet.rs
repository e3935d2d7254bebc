//! The packet framer: a message is cut into packets of at most the
//! negotiated size, each behind an 8-byte header.
use crate::buf::{buf_bytes, put_u8};
use crate::column_data::Collation;
use crate::error::Error;
use bytes::BytesMut;
use vstd::prelude::*;

verus! {

/// Length of a packet header.
pub const HEADER_LEN: u32 = 8;

/// Header type of a batch request.
pub const PACKET_BATCH: u8 = 1;

/// Header type of an RPC request.
pub const PACKET_RPC: u8 = 3;

/// Header type of a bulk-load data message.
pub const PACKET_BULK_LOAD: u8 = 7;

/// Status bit: this packet ends the message.
pub const STATUS_END_OF_MESSAGE: u8 = 0x01;

/// Status bit: the packet is to be ignored.
pub const STATUS_IGNORE: u8 = 0x02;

/// Status bit: reset the connection before the request.
pub const STATUS_RESET_CONNECTION: u8 = 0x08;

/// The header in front of every packet.
#[derive(Debug, Clone, Copy, PartialEq, Eq, Structural)]
pub struct PacketHeader {
    pub ty: u8,
    pub status: u8,
    /// Length of the packet, header included.
    pub length: u16,
    pub spid: u16,
    pub id: u8,
    pub window: u8,
}

/// The eight header bytes; length and spid are big-endian.
pub open spec fn header_bytes(h: PacketHeader) -> Seq<u8> {
    seq![h.ty, h.status, (h.length >> 8u16) as u8, h.length as u8, (h.spid >> 8u16) as u8,
        h.spid as u8, h.id, h.window]
}

impl PacketHeader {
    pub fn batch(id: u8) -> (r: Self)
        ensures
            r == (PacketHeader { ty: PACKET_BATCH, status: 0, length: 0, spid: 0, id, window: 0 }),
    {
        PacketHeader { ty: PACKET_BATCH, status: 0, length: 0, spid: 0, id, window: 0 }
    }

    pub fn rpc(id: u8) -> (r: Self)
        ensures
            r == (PacketHeader { ty: PACKET_RPC, status: 0, length: 0, spid: 0, id, window: 0 }),
    {
        PacketHeader { ty: PACKET_RPC, status: 0, length: 0, spid: 0, id, window: 0 }
    }

    /// Whether this packet ends its message.
    pub fn is_end_of_message(&self) -> (r: bool)
        ensures
            r == (self.status & STATUS_END_OF_MESSAGE != 0),
    {
        self.status & STATUS_END_OF_MESSAGE != 0
    }

    /// Appends the eight header bytes.
    pub fn encode(&self, dst: &mut BytesMut)
        requires
            buf_bytes(*old(dst)).len() + 8 <= isize::MAX,
        ensures
            buf_bytes(*final(dst)) == buf_bytes(*old(dst)) + header_bytes(*self),
    {
        put_u8(dst, self.ty);
        put_u8(dst, self.status);
        put_u8(dst, (self.length >> 8u16) as u8);
        put_u8(dst, self.length as u8);
        put_u8(dst, (self.spid >> 8u16) as u8);
        put_u8(dst, self.spid as u8);
        put_u8(dst, self.id);
        put_u8(dst, self.window);
        assert(buf_bytes(*dst) =~= buf_bytes(*old(dst)) + header_bytes(*self));
    }

    /// Reads a header from its eight bytes.
    pub fn decode(b: &[u8]) -> (r: Option<Self>)
        ensures
            b@.len() < 8 ==> r is None,
            b@.len() >= 8 ==> (r matches Some(h) && header_bytes(h) == b@.subrange(0, 8)),
    {
        if b.len() < 8 {
            return None;
        }
        let h = PacketHeader {
            ty: b[0],
            status: b[1],
            length: ((b[2] as u16) << 8u16) | (b[3] as u16),
            spid: ((b[4] as u16) << 8u16) | (b[5] as u16),
            id: b[6],
            window: b[7],
        };
        let (b2, b3, b4, b5) = (b[2], b[3], b[4], b[5]);
        assert((((((b2 as u16) << 8u16) | (b3 as u16)) >> 8u16) as u8) == b2 && ((((b2 as u16)
            << 8u16) | (b3 as u16)) as u8) == b3) by (bit_vector);
        assert((((((b4 as u16) << 8u16) | (b5 as u16)) >> 8u16) as u8) == b4 && ((((b4 as u16)
            << 8u16) | (b5 as u16)) as u8) == b5) by (bit_vector);
        assert(header_bytes(h) =~= b@.subrange(0, 8));
        Some(h)
    }
}

/// What a session keeps between requests.
#[derive(Debug, Clone, Copy, PartialEq, Eq)]
pub struct Context {
    pub packet_id: u8,
    pub transaction_desc: [u8; 8],
    pub packet_size: u32,
    pub collation: Collation,
    /// Set by a caller that abandons a response before its end: the next
    /// message then resets the connection. A caller that reads every
    /// response whole before handing out its results, as the client around
    /// this library does, never leaves a response in flight and never sets it.
    pub dirty: bool,
}

impl Context {
    pub fn new(packet_size: u32, collation: Collation) -> (r: Self)
        ensures
            r.packet_id == 0,
            r.transaction_desc@ == seq![0u8, 0u8, 0u8, 0u8, 0u8, 0u8, 0u8, 0u8],
            r.packet_size == packet_size,
            r.collation == collation,
            !r.dirty,
    {
        let r = Context {
            packet_id: 0,
            transaction_desc: [0u8; 8],
            packet_size,
            collation,
            dirty: false,
        };
        assert(r.transaction_desc@ =~= seq![0u8, 0u8, 0u8, 0u8, 0u8, 0u8, 0u8, 0u8]);
        r
    }

    /// Hands out the current packet id and moves on to the next, modulo 256.
    pub fn next_packet_id(&mut self) -> (r: u8)
        ensures
            r == old(self).packet_id,
            final(self).packet_id == (old(self).packet_id + 1) % 256,
            final(self).transaction_desc == old(self).transaction_desc,
            final(self).packet_size == old(self).packet_size,
            final(self).collation == old(self).collation,
            final(self).dirty == old(self).dirty,
    {
        let id = self.packet_id;
        self.packet_id = if id == 255 { 0 } else { id + 1 };
        id
    }
}

/// Number of packets a payload of `len` bytes takes with `c` payload bytes
/// per packet: one at least.
pub open spec fn packet_count(len: nat, c: nat) -> nat {
    if len == 0 || c == 0 {
        1
    } else {
        ((len + c - 1) as int / c as int) as nat
    }
}

/// The header of packet `k` of a message of `n` packets of type `ty`,
/// starting at packet id `start`.
pub open spec fn packet_header(ty: u8, start: u8, k: nat, n: nat, chunk: nat, reset: bool) -> PacketHeader {
    PacketHeader {
        ty,
        status: (if k + 1 == n { STATUS_END_OF_MESSAGE } else { 0u8 }) | (if reset && k == 0 {
            STATUS_RESET_CONNECTION
        } else {
            0u8
        }),
        length: (chunk + 8) as u16,
        spid: 0,
        id: ((start + k) % 256) as u8,
        window: 0,
    }
}

/// The packets of one message carry the ids `start, start + 1, ...` modulo
/// 256: the first has `start`, and each next one the id after its
/// predecessor's, so that 255 is followed by 0.
pub proof fn lemma_packet_ids_consecutive(
    ty: u8,
    start: u8,
    k: nat,
    n: nat,
    c1: nat,
    c2: nat,
    reset: bool,
)
    ensures
        packet_header(ty, start, 0, n, c1, reset).id == start,
        packet_header(ty, start, k + 1, n, c2, reset).id == (packet_header(
            ty,
            start,
            k,
            n,
            c1,
            reset,
        ).id + 1) % 256,
{
    let a = start as int + k;
    assert(((a + 1) % 256) == ((a % 256) + 1) % 256) by (nonlinear_arith);
}

/// One packet: its header and its part of the payload.
#[derive(Debug, Clone, PartialEq, Eq)]
pub struct Packet {
    pub header: PacketHeader,
    pub payload: Vec<u8>,
}

/// Cuts `payload` into packets of at most `packet_size` bytes, header
/// included. Packet ids run on from the context's, one per packet, modulo
/// 256; only the last packet has end-of-message set, and the first has
/// reset-connection set when the session is dirty, which it no longer is.
pub fn split_message(ctx: &mut Context, ty: u8, payload: &[u8]) -> (r: Vec<Packet>)
    requires
        HEADER_LEN < old(ctx).packet_size <= 0xFFFF,
    ensures
        ({
            let c = (old(ctx).packet_size - HEADER_LEN) as nat;
            let n = packet_count(payload@.len(), c);
            let start = old(ctx).packet_id;
            &&& r@.len() == n
            &&& forall|k: int|
                0 <= k < n ==> {
                    let lo = k * c;
                    let hi = if lo + c <= payload@.len() { lo + c } else { payload@.len() as int };
                    &&& (#[trigger] r@[k]).payload@ == payload@.subrange(lo, hi)
                    &&& r@[k].header == packet_header(
                        ty,
                        start,
                        k as nat,
                        n,
                        (hi - lo) as nat,
                        old(ctx).dirty,
                    )
                }
            &&& final(ctx).packet_id == (start + n) % 256
            &&& !final(ctx).dirty
            &&& final(ctx).transaction_desc == old(ctx).transaction_desc
            &&& final(ctx).packet_size == old(ctx).packet_size
            &&& final(ctx).collation == old(ctx).collation
        }),
{
    let c: usize = (ctx.packet_size - HEADER_LEN) as usize;
    let len = payload.len();
    let ghost start = ctx.packet_id;
    let ghost n = packet_count(len as nat, c as nat);
    let reset = ctx.dirty;
    let mut r: Vec<Packet> = Vec::new();
    let mut pos: usize = 0;
    let mut k: usize = 0;
    proof {
        if len > 0 {
            let l = len as int;
            let ci = c as int;
            assert((l + ci - 1) / ci >= 1 && (l + ci - 1) / ci <= l) by (nonlinear_arith)
                requires
                    l > 0,
                    ci > 0,
            ;
        }
    }
    loop
        invariant
            c == old(ctx).packet_size - HEADER_LEN,
            0 < c < 0x10000,
            len == payload@.len(),
            start == old(ctx).packet_id,
            reset == old(ctx).dirty,
            n == packet_count(len as nat, c as nat),
            k < n,
            pos == k * c,
            pos <= len,
            len > 0 ==> pos < len,
            n <= len + 1,
            r@.len() == k,
            ctx.packet_id == (start + k) % 256,
            ctx.transaction_desc == old(ctx).transaction_desc,
            ctx.packet_size == old(ctx).packet_size,
            ctx.collation == old(ctx).collation,
            forall|j: int|
                0 <= j < k ==> {
                    let lo = j * c;
                    let hi = if lo + c <= len { lo + c } else { len as int };
                    &&& (#[trigger] r@[j]).payload@ == payload@.subrange(lo, hi)
                    &&& r@[j].header == packet_header(ty, start, j as nat, n, (hi - lo) as nat, reset)
                },
        decreases n - k,
    {
        let hi: usize = if c <= len - pos { pos + c } else { len };
        let last = hi == len;
        proof {
            let ki = k as int;
            let ci = c as int;
            let l = len as int;
            if l > 0 {
                if last {
                    assert(ki + 1 == (l + ci - 1) / ci) by (nonlinear_arith)
                        requires
                            ki * ci < l,
                            l <= ki * ci + ci,
                            ci > 0,
                    ;
                } else {
                    assert(ki + 1 < (l + ci - 1) / ci) by (nonlinear_arith)
                        requires
                            ki * ci + ci < l,
                            ci > 0,
                    ;
                }
            }
        }
        let mut chunk: Vec<u8> = Vec::new();
        let mut i: usize = pos;
        while i < hi
            invariant
                pos <= i <= hi <= len,
                len == payload@.len(),
                chunk@ == payload@.subrange(pos as int, i as int),
            decreases hi - i,
        {
            chunk.push(payload[i]);
            assert(payload@.subrange(pos as int, i + 1) =~= payload@.subrange(pos as int, i as int).push(payload@[i as int]));
            i += 1;
        }
        let status: u8 = (if last { STATUS_END_OF_MESSAGE } else { 0u8 }) | (if reset && k == 0 {
            STATUS_RESET_CONNECTION
        } else {
            0u8
        });
        let id = ctx.next_packet_id();
        let header = PacketHeader {
            ty,
            status,
            length: (hi - pos + 8) as u16,
            spid: 0,
            id,
            window: 0,
        };
        r.push(Packet { header, payload: chunk });
        if last {
            ctx.dirty = false;
            return r;
        }
        proof {
            assert((k + 1) * c == k * c + c) by (nonlinear_arith);
        }
        pos = hi;
        k += 1;
    }
}

/// Length of the payload behind a packet header: its length less the
/// header's. A length shorter than the header is a protocol violation.
pub fn payload_length(h: &PacketHeader) -> (r: Result<usize, Error>)
    ensures
        h.length >= HEADER_LEN ==> r == Ok::<usize, Error>((h.length - HEADER_LEN) as usize),
        h.length < HEADER_LEN ==> r == Err::<usize, Error>(Error::ProtocolViolation),
{
    if (h.length as u32) < HEADER_LEN {
        Err(Error::ProtocolViolation)
    } else {
        Ok((h.length as u32 - HEADER_LEN) as usize)
    }
}

/// Environment-change type: a transaction began.
pub const ENV_BEGIN_TRANSACTION: u8 = 8;
/// Environment-change type: a transaction was committed.
pub const ENV_COMMIT_TRANSACTION: u8 = 9;
/// Environment-change type: a transaction was rolled back.
pub const ENV_ROLLBACK_TRANSACTION: u8 = 10;

/// The transaction descriptor after an environment change whose body is
/// `data`: a begun transaction's new descriptor (eight bytes behind its
/// length byte), zero after a commit or rollback, else unchanged.
pub open spec fn descriptor_after(tx: Seq<u8>, data: Seq<u8>) -> Seq<u8> {
    if data.len() >= 10 && data[0] == ENV_BEGIN_TRANSACTION && data[1] == 8 {
        data.subrange(2, 10)
    } else if data.len() >= 2 && (data[0] == ENV_COMMIT_TRANSACTION || data[0]
        == ENV_ROLLBACK_TRANSACTION) && data[1] == 0 {
        seq![0u8, 0u8, 0u8, 0u8, 0u8, 0u8, 0u8, 0u8]
    } else {
        tx
    }
}

impl Context {
    /// Applies the body of an environment-change token to the session.
    pub fn apply_env_change(&mut self, data: &Vec<u8>)
        ensures
            final(self).transaction_desc@ == descriptor_after(old(self).transaction_desc@, data@),
            final(self).packet_id == old(self).packet_id,
            final(self).packet_size == old(self).packet_size,
            final(self).collation == old(self).collation,
            final(self).dirty == old(self).dirty,
    {
        let n = data.len();
        if n >= 10 && data[0] == ENV_BEGIN_TRANSACTION && data[1] == 8 {
            let mut tx = [0u8; 8];
            let mut i: usize = 0;
            while i < 8
                invariant
                    i <= 8,
                    n == data@.len(),
                    n >= 10,
                    tx@.len() == 8,
                    forall|j: int| 0 <= j < i ==> tx@[j] == data@[j + 2],
                decreases 8 - i,
            {
                tx.set(i, data[i + 2]);
                i += 1;
            }
            assert(tx@ =~= data@.subrange(2, 10));
            self.transaction_desc = tx;
        } else if n >= 2 && (data[0] == ENV_COMMIT_TRANSACTION || data[0] == ENV_ROLLBACK_TRANSACTION)
            && data[1] == 0 {
            let tx = [0u8; 8];
            assert(tx@ =~= seq![0u8, 0u8, 0u8, 0u8, 0u8, 0u8, 0u8, 0u8]);
            self.transaction_desc = tx;
        }
    }
}

} // verus!
