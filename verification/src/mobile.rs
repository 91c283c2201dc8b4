//! The embedded (mobile) record format: a fixed 78-byte ARPi provenance
//! header in front of each value, stamped with a monotonic write counter and
//! checked against the BLAKE3 hash of the value.
//!
//! Header layout (offset, size, field):
//!  0  4  magic `ARPi`
//!  4  8  write counter, little-endian
//! 12  8  timestamp in microseconds, little-endian
//! 20  1  tier (0 critical, 1 personal, 2 noise)
//! 21  3  reserved
//! 24 32  BLAKE3 hash of the value
//! 56 22  node id, zero-padded

use vstd::prelude::*;
use vstd::slice::{slice_subrange, slice_to_vec};

use crate::text::bytes_eq;

verus! {

/// The ARPi provenance header.
#[derive(Debug, Clone, Copy)]
pub struct ArpiHeader {
    pub magic: [u8; 4],
    pub write_counter: u64,
    pub timestamp_us: u64,
    pub tier: u8,
    pub reserved: [u8; 3],
    pub blake3_hash: [u8; 32],
    pub node_id: [u8; 22],
}

/// The four magic bytes `ARPi`.
pub open spec fn arpi_magic() -> Seq<u8> {
    seq![0x41u8, 0x52u8, 0x50u8, 0x69u8]
}

/// The eight little-endian bytes of `v`.
pub open spec fn u64_le(v: u64) -> Seq<u8> {
    seq![
        (v & 0xff) as u8,
        ((v >> 8u64) & 0xff) as u8,
        ((v >> 16u64) & 0xff) as u8,
        ((v >> 24u64) & 0xff) as u8,
        ((v >> 32u64) & 0xff) as u8,
        ((v >> 40u64) & 0xff) as u8,
        ((v >> 48u64) & 0xff) as u8,
        ((v >> 56u64) & 0xff) as u8,
    ]
}

/// The little-endian number in the eight bytes of `b` from `off`.
pub open spec fn le_u64_at(b: Seq<u8>, off: int) -> u64 {
    (b[off] as u64) | ((b[off + 1] as u64) << 8u64) | ((b[off + 2] as u64) << 16u64) | ((b[off + 3] as u64)
        << 24u64) | ((b[off + 4] as u64) << 32u64) | ((b[off + 5] as u64) << 40u64) | ((b[off + 6] as u64)
        << 48u64) | ((b[off + 7] as u64) << 56u64)
}

/// The 78 bytes of a header.
pub open spec fn header_bytes(h: ArpiHeader) -> Seq<u8> {
    h.magic@ + u64_le(h.write_counter) + u64_le(h.timestamp_us) + seq![h.tier] + h.reserved@
        + h.blake3_hash@ + h.node_id@
}

/// Whether `b` starts with a complete header carrying the magic bytes.
pub open spec fn frames_header(b: Seq<u8>) -> bool {
    b.len() >= 78 && b.take(4) == arpi_magic()
}

proof fn lemma_u64_bytes_round_trip(v: u64)
    ensures
        le_u64_at(u64_le(v), 0) == v,
{
    let b0 = (v & 0xff) as u8;
    let b1 = ((v >> 8u64) & 0xff) as u8;
    let b2 = ((v >> 16u64) & 0xff) as u8;
    let b3 = ((v >> 24u64) & 0xff) as u8;
    let b4 = ((v >> 32u64) & 0xff) as u8;
    let b5 = ((v >> 40u64) & 0xff) as u8;
    let b6 = ((v >> 48u64) & 0xff) as u8;
    let b7 = ((v >> 56u64) & 0xff) as u8;
    assert((b0 as u64) | ((b1 as u64) << 8u64) | ((b2 as u64) << 16u64) | ((b3 as u64) << 24u64) | ((b4 as u64)
        << 32u64) | ((b5 as u64) << 40u64) | ((b6 as u64) << 48u64) | ((b7 as u64) << 56u64) == v)
        by (bit_vector)
        requires
            b0 == (v & 0xff) as u8,
            b1 == ((v >> 8u64) & 0xff) as u8,
            b2 == ((v >> 16u64) & 0xff) as u8,
            b3 == ((v >> 24u64) & 0xff) as u8,
            b4 == ((v >> 32u64) & 0xff) as u8,
            b5 == ((v >> 40u64) & 0xff) as u8,
            b6 == ((v >> 48u64) & 0xff) as u8,
            b7 == ((v >> 56u64) & 0xff) as u8,
    ;
}

proof fn lemma_bytes_u64_round_trip(b: Seq<u8>, off: int)
    requires
        0 <= off,
        off + 8 <= b.len(),
    ensures
        u64_le(le_u64_at(b, off)) == b.subrange(off, off + 8),
{
    let b0 = b[off];
    let b1 = b[off + 1];
    let b2 = b[off + 2];
    let b3 = b[off + 3];
    let b4 = b[off + 4];
    let b5 = b[off + 5];
    let b6 = b[off + 6];
    let b7 = b[off + 7];
    let v = le_u64_at(b, off);
    assert(v == (b0 as u64) | ((b1 as u64) << 8u64) | ((b2 as u64) << 16u64) | ((b3 as u64) << 24u64) | ((b4
        as u64) << 32u64) | ((b5 as u64) << 40u64) | ((b6 as u64) << 48u64) | ((b7 as u64) << 56u64));
    assert({
        &&& (v & 0xff) as u8 == b0
        &&& ((v >> 8u64) & 0xff) as u8 == b1
        &&& ((v >> 16u64) & 0xff) as u8 == b2
        &&& ((v >> 24u64) & 0xff) as u8 == b3
        &&& ((v >> 32u64) & 0xff) as u8 == b4
        &&& ((v >> 40u64) & 0xff) as u8 == b5
        &&& ((v >> 48u64) & 0xff) as u8 == b6
        &&& ((v >> 56u64) & 0xff) as u8 == b7
    }) by (bit_vector)
        requires
            v == (b0 as u64) | ((b1 as u64) << 8u64) | ((b2 as u64) << 16u64) | ((b3 as u64) << 24u64) | ((b4
                as u64) << 32u64) | ((b5 as u64) << 40u64) | ((b6 as u64) << 48u64) | ((b7 as u64) << 56u64),
    ;
    assert(u64_le(v) =~= b.subrange(off, off + 8));
}

/// Reads the little-endian number in the eight bytes of `b` from `off`.
fn read_u64_le(b: &[u8], off: usize) -> (v: u64)
    requires
        off + 8 <= b@.len(),
    ensures
        v == le_u64_at(b@, off as int),
{
    (b[off] as u64) | ((b[off + 1] as u64) << 8u64) | ((b[off + 2] as u64) << 16u64) | ((b[off + 3] as u64)
        << 24u64) | ((b[off + 4] as u64) << 32u64) | ((b[off + 5] as u64) << 40u64) | ((b[off + 6] as u64)
        << 48u64) | ((b[off + 7] as u64) << 56u64)
}

/// The BLAKE3 digest of `data`.
pub uninterp spec fn blake3_digest(data: Seq<u8>) -> Seq<u8>;

/// Calls `blake3::Hasher::new`, `update` and `finalize`. Claimed: the 32 bytes
/// are the digest that `blake3_digest` names for `data`.
#[verifier::external_body]
fn blake3_hash(data: &[u8]) -> (h: [u8; 32])
    ensures
        h@ == blake3_digest(data@),
{
    let mut hasher = blake3::Hasher::new();
    hasher.update(data);
    hasher.finalize().into()
}

/// Copies `src` into `out` from `off`.
fn put_bytes(out: &mut [u8; 78], off: usize, src: &[u8])
    requires
        off + src@.len() <= 78,
    ensures
        final(out)@ == old(out)@.take(off as int) + src@ + old(out)@.skip(off + src@.len()),
{
    let n = src.len();
    let mut i: usize = 0;
    while i < n
        invariant
            n == src@.len(),
            off + n <= 78,
            i <= n,
            out@.len() == 78,
            forall|j: int| 0 <= j < off ==> out@[j] == old(out)@[j],
            forall|j: int| off + n <= j < 78 ==> out@[j] == old(out)@[j],
            forall|j: int| 0 <= j < i ==> out@[off + j] == src@[j],
        decreases n - i,
    {
        out[off + i] = src[i];
        i = i + 1;
    }
    assert(out@ =~= old(out)@.take(off as int) + src@ + old(out)@.skip(off + src@.len()));
}

/// The eight little-endian bytes of `v` (how the write counter is stored).
pub fn u64_le_bytes(v: u64) -> (b: [u8; 8])
    ensures
        b@ == u64_le(v),
{
    let b = [
        (v & 0xff) as u8,
        ((v >> 8u64) & 0xff) as u8,
        ((v >> 16u64) & 0xff) as u8,
        ((v >> 24u64) & 0xff) as u8,
        ((v >> 32u64) & 0xff) as u8,
        ((v >> 40u64) & 0xff) as u8,
        ((v >> 48u64) & 0xff) as u8,
        ((v >> 56u64) & 0xff) as u8,
    ];
    assert(b@ =~= u64_le(v));
    b
}

/// The `N` bytes of `b` from `off`, as an array.
fn array_at<const N: usize>(b: &[u8], off: usize) -> (a: [u8; N])
    requires
        off + N <= b@.len(),
    ensures
        a@ == b@.subrange(off as int, off + N),
{
    let mut a = [0u8; N];
    let len = b.len();
    let mut i: usize = 0;
    while i < N
        invariant
            len == b@.len(),
            off + N <= b@.len(),
            i <= N,
            a@.len() == N,
            forall|j: int| 0 <= j < i ==> a@[j] == b@[off + j],
        decreases N - i,
    {
        a[i] = b[off + i];
        i = i + 1;
    }
    assert(a@ =~= b@.subrange(off as int, off + N));
    a
}

impl ArpiHeader {
    /// Size of the header in bytes.
    pub const SIZE: usize = 78;

    /// Reads a header from the first 78 bytes; `None` when there are fewer or
    /// the magic bytes are wrong.
    pub fn from_bytes(bytes: &[u8]) -> (r: Option<ArpiHeader>)
        ensures
            r is Some <==> frames_header(bytes@),
            r matches Some(h) ==> header_bytes(h) == bytes@.take(78),
    {
        if bytes.len() < 78 {
            return None;
        }
        if !(bytes[0] == 0x41 && bytes[1] == 0x52 && bytes[2] == 0x50 && bytes[3] == 0x69) {
            assert(bytes@.take(4) != arpi_magic()) by {
                if bytes@.take(4) == arpi_magic() {
                    assert(bytes@.take(4)[0] == bytes@[0]);
                    assert(bytes@.take(4)[1] == bytes@[1]);
                    assert(bytes@.take(4)[2] == bytes@[2]);
                    assert(bytes@.take(4)[3] == bytes@[3]);
                }
            }
            return None;
        }
        assert(bytes@.take(4) =~= arpi_magic());
        let write_counter = read_u64_le(bytes, 4);
        let timestamp_us = read_u64_le(bytes, 12);
        let tier = bytes[20];
        let reserved: [u8; 3] = array_at(bytes, 21);
        let blake3_hash: [u8; 32] = array_at(bytes, 24);
        let node_id: [u8; 22] = array_at(bytes, 56);
        let magic: [u8; 4] = [0x41, 0x52, 0x50, 0x69];
        let h = ArpiHeader { magic, write_counter, timestamp_us, tier, reserved, blake3_hash, node_id };
        proof {
            lemma_bytes_u64_round_trip(bytes@, 4);
            lemma_bytes_u64_round_trip(bytes@, 12);
            assert(magic@ =~= bytes@.subrange(0, 4));
            assert(header_bytes(h) =~= bytes@.take(78));
        }
        Some(h)
    }

    /// The 78 bytes of the header.
    pub fn to_bytes(&self) -> (b: [u8; 78])
        ensures
            b@ == header_bytes(*self),
    {
        let mut out = [0u8; 78];
        put_bytes(&mut out, 0, self.magic.as_slice());
        let wc = u64_le_bytes(self.write_counter);
        put_bytes(&mut out, 4, wc.as_slice());
        let ts = u64_le_bytes(self.timestamp_us);
        put_bytes(&mut out, 12, ts.as_slice());
        out[20] = self.tier;
        put_bytes(&mut out, 21, self.reserved.as_slice());
        put_bytes(&mut out, 24, self.blake3_hash.as_slice());
        put_bytes(&mut out, 56, self.node_id.as_slice());
        assert(out@ =~= header_bytes(*self));
        out
    }
}

/// Reading back a header that `to_bytes` wrote gives the same header: the
/// bytes carry the magic, and a header with the same bytes is this one.
pub proof fn lemma_header_round_trip(h: ArpiHeader, read: ArpiHeader)
    requires
        h.magic@ == arpi_magic(),
        header_bytes(read) == header_bytes(h).take(78),
    ensures
        frames_header(header_bytes(h)),
        read == h,
{
    let b = header_bytes(h);
    let c = header_bytes(read);
    assert(b.take(78) =~= b);
    assert(b.take(4) =~= h.magic@);
    assert(c.subrange(0, 4) =~= read.magic@);
    assert(b.subrange(0, 4) =~= h.magic@);
    assert(c.subrange(4, 12) =~= u64_le(read.write_counter));
    assert(b.subrange(4, 12) =~= u64_le(h.write_counter));
    assert(c.subrange(12, 20) =~= u64_le(read.timestamp_us));
    assert(b.subrange(12, 20) =~= u64_le(h.timestamp_us));
    assert(c.subrange(21, 24) =~= read.reserved@);
    assert(b.subrange(21, 24) =~= h.reserved@);
    assert(c.subrange(24, 56) =~= read.blake3_hash@);
    assert(b.subrange(24, 56) =~= h.blake3_hash@);
    assert(c.subrange(56, 78) =~= read.node_id@);
    assert(b.subrange(56, 78) =~= h.node_id@);
    assert(c[20] == read.tier);
    assert(b[20] == h.tier);
    lemma_u64_bytes_round_trip(read.write_counter);
    lemma_u64_bytes_round_trip(h.write_counter);
    lemma_u64_bytes_round_trip(read.timestamp_us);
    lemma_u64_bytes_round_trip(h.timestamp_us);
    assert(read.magic =~= h.magic);
    assert(read.reserved =~= h.reserved);
    assert(read.blake3_hash =~= h.blake3_hash);
    assert(read.node_id =~= h.node_id);
}

/// A stored record: the header followed by the value.
pub fn pack_record(arpi: &[u8; 78], value: &[u8]) -> (r: Vec<u8>)
    ensures
        r@ == arpi@ + value@,
{
    let mut buf = slice_to_vec(arpi.as_slice());
    let mut rest = slice_to_vec(value);
    buf.append(&mut rest);
    buf
}

/// The value of a stored record: what follows the header, or `None` when the
/// record is shorter than a header.
pub fn unpack_value(record: &[u8]) -> (r: Option<&[u8]>)
    ensures
        record@.len() < 78 ==> r is None,
        record@.len() >= 78 ==> (r matches Some(v) && v@ == record@.skip(78)),
{
    if record.len() < 78 {
        return None;
    }
    let v = slice_subrange(record, 78, record.len());
    assert(v@ =~= record@.skip(78));
    Some(v)
}

/// Unpacking a packed record gives back its value.
pub proof fn lemma_unpack_packed(arpi: Seq<u8>, value: Seq<u8>)
    requires
        arpi.len() == 78,
    ensures
        (arpi + value).len() >= 78,
        (arpi + value).skip(78) == value,
{
    assert((arpi + value).skip(78) =~= value);
}

/// The record stored for `value` under the header `arpi` once the write
/// counter is set to `counter`.
pub open spec fn stamped_record(arpi: Seq<u8>, counter: u64, value: Seq<u8>) -> Seq<u8> {
    arpi.take(4) + u64_le(counter) + arpi.subrange(12, 78) + value
}

/// Checks a provenance header against `value` (it must frame a header whose
/// hash is the BLAKE3 digest of `value`), stamps it with the next write
/// counter and returns that counter with the record to store.
pub fn stamp_record(write_counter: u64, value: &[u8], arpi_raw: &[u8]) -> (r: Option<(u64, Vec<u8>)>)
    requires
        write_counter < u64::MAX,
    ensures
        r is Some <==> frames_header(arpi_raw@) && arpi_raw@.subrange(24, 56) == blake3_digest(value@),
        r matches Some((c, rec)) ==> c == write_counter + 1 && rec@ == stamped_record(arpi_raw@, c, value@),
{
    if arpi_raw.len() < ArpiHeader::SIZE {
        return None;
    }
    let header = match ArpiHeader::from_bytes(arpi_raw) {
        Some(h) => h,
        None => {
            return None;
        },
    };
    proof {
        assert(header.blake3_hash@ =~= arpi_raw@.subrange(24, 56)) by {
            assert(header_bytes(header).subrange(24, 56) =~= header.blake3_hash@);
            assert(arpi_raw@.take(78).subrange(24, 56) =~= arpi_raw@.subrange(24, 56));
        }
    }
    let computed = blake3_hash(value);
    if !bytes_eq(computed.as_slice(), header.blake3_hash.as_slice()) {
        return None;
    }
    let counter = write_counter + 1;
    let mut stamped = header;
    stamped.write_counter = counter;
    let header_out = stamped.to_bytes();
    let record = pack_record(&header_out, value);
    proof {
        let hb = header_bytes(header);
        assert(hb =~= arpi_raw@.take(78));
        assert(header_bytes(stamped) =~= arpi_raw@.take(4) + u64_le(counter) + arpi_raw@.subrange(12, 78)) by {
            assert(hb.subrange(0, 4) =~= header.magic@);
            assert(arpi_raw@.take(4) =~= hb.subrange(0, 4));
            assert(arpi_raw@.subrange(12, 78) =~= hb.subrange(12, 78));
            assert(stamped.magic == header.magic && stamped.timestamp_us == header.timestamp_us && stamped.tier
                == header.tier && stamped.reserved == header.reserved && stamped.blake3_hash == header.blake3_hash
                && stamped.node_id == header.node_id);
            assert(hb.subrange(12, 78) =~= u64_le(header.timestamp_us) + seq![header.tier] + header.reserved@
                + header.blake3_hash@ + header.node_id@);
        }
        assert(record@ =~= stamped_record(arpi_raw@, counter, value@));
    }
    Some((counter, record))
}

/// The write counter restored from its stored bytes: eight little-endian
/// bytes, anything else (or nothing) counts as 0.
pub fn counter_from_stored(stored: Option<&[u8]>) -> (c: u64)
    ensures
        c == (match stored {
            Some(b) => if b@.len() == 8 {
                le_u64_at(b@, 0)
            } else {
                0
            },
            None => 0,
        }),
{
    match stored {
        Some(b) => if b.len() == 8 {
            read_u64_le(b, 0)
        } else {
            0
        },
        None => 0,
    }
}

/// A stored write counter restores to the same counter.
pub proof fn lemma_counter_round_trip(c: u64)
    ensures
        le_u64_at(u64_le(c), 0) == c,
        u64_le(c).len() == 8,
{
    lemma_u64_bytes_round_trip(c);
}

/// What an insert stores, a query reads back: the value of a record stamped
/// from a well-framed header is the value that was stamped.
pub proof fn lemma_stamped_value_reads_back(arpi: Seq<u8>, counter: u64, value: Seq<u8>)
    requires
        frames_header(arpi),
    ensures
        stamped_record(arpi, counter, value).len() >= 78,
        stamped_record(arpi, counter, value).skip(78) == value,
{
    let head = arpi.take(4) + u64_le(counter) + arpi.subrange(12, 78);
    assert(head.len() == 78);
    assert(stamped_record(arpi, counter, value) == head + value);
    lemma_unpack_packed(head, value);
}

/// What an insert stores is the header it was given, with the write counter
/// replaced, followed by the value: every other header field is kept.
pub proof fn lemma_stamped_header(arpi: Seq<u8>, h: ArpiHeader, counter: u64, value: Seq<u8>)
    requires
        frames_header(arpi),
        header_bytes(h) == arpi.take(78),
    ensures
        stamped_record(arpi, counter, value) == header_bytes(ArpiHeader { write_counter: counter, ..h }) + value,
{
    let hb = header_bytes(h);
    let stamped = ArpiHeader { write_counter: counter, ..h };
    assert(arpi.take(4) =~= hb.subrange(0, 4));
    assert(arpi.subrange(12, 78) =~= hb.subrange(12, 78));
    assert(hb.subrange(0, 4) =~= h.magic@);
    assert(hb.subrange(12, 78) =~= u64_le(h.timestamp_us) + seq![h.tier] + h.reserved@ + h.blake3_hash@
        + h.node_id@);
    assert(header_bytes(stamped) =~= arpi.take(4) + u64_le(counter) + arpi.subrange(12, 78));
    assert(stamped_record(arpi, counter, value) =~= header_bytes(stamped) + value);
}

} // verus!
