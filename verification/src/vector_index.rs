//! The verified side of the vector index: where an id sits among the
//! index's ids, and the index's file format.
//!
//! The file format: a little-endian `u32` entry count,
//! then for each entry the length of its id's UTF-8 bytes, those bytes, the
//! number of coordinates, and each coordinate's 32-bit pattern, all
//! little-endian. Reading refuses a file that ends early or an id that is not
//! UTF-8, and ignores bytes after the last entry. The coordinates are carried
//! as bit patterns; what they mean as numbers is the caller's business.

use vstd::prelude::*;
use vstd::slice::slice_subrange;
use vstd::slice::slice_to_vec;
use vstd::utf8::{decode_utf8, encode_utf8, valid_utf8};

use crate::text::{text_eq, utf8_to_string};

verus! {

broadcast use vstd::string::group_string_axioms;

/// The slot of `id` among `ids`: its first position, if it is there.
pub fn position_of(ids: &[String], id: &str) -> (r: Option<usize>)
    ensures
        match r {
            Some(i) => i < ids@.len() && ids@[i as int]@ == id@ && forall|j: int| 0 <= j < i ==> ids@[j]@ != id@,
            None => forall|j: int| 0 <= j < ids@.len() ==> ids@[j]@ != id@,
        },
{
    let mut i: usize = 0;
    while i < ids.len()
        invariant
            i <= ids@.len(),
            forall|j: int| 0 <= j < i ==> ids@[j]@ != id@,
        decreases ids@.len() - i,
    {
        if text_eq(ids[i].as_str(), id) {
            return Some(i);
        }
        i = i + 1;
    }
    None
}

/// One entry of the index: an id and its coordinates' bit patterns.
pub open spec fn entry_view(e: (String, Vec<u32>)) -> (Seq<char>, Seq<u32>) {
    (e.0@, e.1@)
}

/// The entries of the index as values.
pub open spec fn entries_view(v: Seq<(String, Vec<u32>)>) -> Seq<(Seq<char>, Seq<u32>)> {
    v.map_values(|e: (String, Vec<u32>)| entry_view(e))
}

/// The four little-endian bytes of `v`.
pub open spec fn u32_le(v: u32) -> Seq<u8> {
    seq![(v & 0xff) as u8, ((v >> 8u32) & 0xff) as u8, ((v >> 16u32) & 0xff) as u8, ((v >> 24u32) & 0xff) as u8]
}

/// The little-endian number in the four bytes of `b` from `off`.
pub open spec fn le_u32_at(b: Seq<u8>, off: int) -> u32 {
    (b[off] as u32) | ((b[off + 1] as u32) << 8u32) | ((b[off + 2] as u32) << 16u32) | ((b[off + 3] as u32) << 24u32)
}

/// The bytes of a run of coordinates.
pub open spec fn coords_bytes(cs: Seq<u32>) -> Seq<u8>
    decreases cs.len(),
{
    if cs.len() == 0 {
        Seq::empty()
    } else {
        coords_bytes(cs.drop_last()) + u32_le(cs.last())
    }
}

/// The bytes of one entry; the lengths are written as `u32`, truncated.
pub open spec fn entry_bytes(e: (Seq<char>, Seq<u32>)) -> Seq<u8> {
    let ib = encode_utf8(e.0);
    u32_le(ib.len() as u32) + ib + u32_le(e.1.len() as u32) + coords_bytes(e.1)
}

/// The bytes of a run of entries.
pub open spec fn entries_bytes(es: Seq<(Seq<char>, Seq<u32>)>) -> Seq<u8>
    decreases es.len(),
{
    if es.len() == 0 {
        Seq::empty()
    } else {
        entries_bytes(es.drop_last()) + entry_bytes(es.last())
    }
}

/// The bytes of a whole index file.
pub open spec fn index_bytes(es: Seq<(Seq<char>, Seq<u32>)>) -> Seq<u8> {
    u32_le(es.len() as u32) + entries_bytes(es)
}

/// The `n` coordinates stored from `pos`.
pub open spec fn coords_at(b: Seq<u8>, pos: int, n: int) -> Seq<u32> {
    Seq::new(n as nat, |i: int| le_u32_at(b, pos + 4 * i))
}

/// Reads one entry at `pos`: the entry and where the next one starts, or
/// `None` when the bytes end early or the id is not UTF-8.
pub open spec fn parse_entry(b: Seq<u8>, pos: int) -> Option<((Seq<char>, Seq<u32>), int)> {
    if pos + 4 > b.len() {
        None
    } else {
        let p1 = pos + 4;
        let idl = le_u32_at(b, pos) as int;
        if p1 + idl > b.len() {
            None
        } else {
            let idb = b.subrange(p1, p1 + idl);
            let p2 = p1 + idl;
            if !valid_utf8(idb) || p2 + 4 > b.len() {
                None
            } else {
                let vl = le_u32_at(b, p2) as int;
                let p3 = p2 + 4;
                if p3 + 4 * vl > b.len() {
                    None
                } else {
                    Some(((decode_utf8(idb), coords_at(b, p3, vl)), p3 + 4 * vl))
                }
            }
        }
    }
}

/// Reads `n` entries from `pos`: the entries and where the bytes after them
/// start, or `None` when one of them cannot be read.
pub open spec fn parse_entries(b: Seq<u8>, pos: int, n: nat) -> Option<(Seq<(Seq<char>, Seq<u32>)>, int)>
    decreases n,
{
    if n == 0 {
        Some((Seq::empty(), pos))
    } else {
        match parse_entries(b, pos, (n - 1) as nat) {
            None => None,
            Some((es, p)) => match parse_entry(b, p) {
                None => None,
                Some((e, q)) => Some((es.push(e), q)),
            },
        }
    }
}

/// Reads an index file.
pub open spec fn parse_index(b: Seq<u8>) -> Option<Seq<(Seq<char>, Seq<u32>)>> {
    if b.len() < 4 {
        None
    } else {
        match parse_entries(b, 4, le_u32_at(b, 0) as nat) {
            Some((es, _)) => Some(es),
            None => None,
        }
    }
}

fn push_u32(out: &mut Vec<u8>, v: u32)
    ensures
        final(out)@ == old(out)@ + u32_le(v),
{
    out.push((v & 0xff) as u8);
    out.push(((v >> 8u32) & 0xff) as u8);
    out.push(((v >> 16u32) & 0xff) as u8);
    out.push(((v >> 24u32) & 0xff) as u8);
    assert(final(out)@ =~= old(out)@ + u32_le(v));
}

fn read_u32(b: &[u8], off: usize) -> (v: u32)
    requires
        off + 4 <= b@.len(),
    ensures
        v == le_u32_at(b@, off as int),
{
    (b[off] as u32) | ((b[off + 1] as u32) << 8u32) | ((b[off + 2] as u32) << 16u32) | ((b[off + 3] as u32) << 24u32)
}

/// Writes an index file. A length that does not fit in 32 bits is written
/// truncated, as the format has no room for it.
pub fn encode_index(entries: &[(String, Vec<u32>)]) -> (b: Vec<u8>)
    ensures
        b@ == index_bytes(entries_view(entries@)),
{
    let ghost es = entries_view(entries@);
    let mut out: Vec<u8> = Vec::new();
    #[verifier::truncate]
    let count = entries.len() as u32;
    push_u32(&mut out, count);
    let mut i: usize = 0;
    while i < entries.len()
        invariant
            es == entries_view(entries@),
            i <= entries@.len(),
            out@ == u32_le(es.len() as u32) + entries_bytes(es.take(i as int)),
        decreases entries@.len() - i,
    {
        let ghost before = out@;
        let id_bytes = entries[i].0.as_str().as_bytes();
        #[verifier::truncate]
        let id_len = id_bytes.len() as u32;
        push_u32(&mut out, id_len);
        let mut idv = slice_to_vec(id_bytes);
        out.append(&mut idv);
        let cs = &entries[i].1;
        #[verifier::truncate]
        let n = cs.len() as u32;
        push_u32(&mut out, n);
        let ghost mid = out@;
        let mut j: usize = 0;
        while j < cs.len()
            invariant
                j <= cs@.len(),
                out@ == mid + coords_bytes(cs@.take(j as int)),
            decreases cs@.len() - j,
        {
            assert(cs@.take(j + 1).drop_last() =~= cs@.take(j as int));
            push_u32(&mut out, cs[j]);
            j = j + 1;
            assert(out@ =~= mid + coords_bytes(cs@.take(j as int)));
        }
        proof {
            assert(cs@.take(cs@.len() as int) =~= cs@);
            assert(es[i as int] == (entries@[i as int].0@, cs@));
            assert(es.take(i + 1).drop_last() =~= es.take(i as int));
            assert(out@ =~= before + entry_bytes(es[i as int]));
        }
        i = i + 1;
    }
    assert(es.take(es.len() as int) =~= es);
    out
}

/// Reads the coordinates of an entry.
fn read_coords(b: &[u8], pos: usize, n: usize) -> (cs: Vec<u32>)
    requires
        pos + 4 * n <= b@.len(),
    ensures
        cs@ == coords_at(b@, pos as int, n as int),
{
    let mut cs: Vec<u32> = Vec::new();
    let blen = b.len();
    let mut j: usize = 0;
    while j < n
        invariant
            blen == b@.len(),
            pos + 4 * n <= b@.len(),
            j <= n,
            cs@ == coords_at(b@, pos as int, j as int),
        decreases n - j,
    {
        assert(4 * j + 4 <= 4 * n) by (nonlinear_arith)
            requires
                j < n,
        ;
        let v = read_u32(b, pos + 4 * j);
        cs.push(v);
        j = j + 1;
        assert(cs@ =~= coords_at(b@, pos as int, j as int));
    }
    cs
}

/// Reads one entry at `pos`.
fn decode_entry(b: &[u8], pos: usize) -> (r: Option<((String, Vec<u32>), usize)>)
    requires
        pos <= b@.len(),
    ensures
        match parse_entry(b@, pos as int) {
            Some((e, q)) => r matches Some((x, q2)) && entry_view(x) == e && q2 == q,
            None => r is None,
        },
{
    if b.len() - pos < 4 {
        return None;
    }
    let idl = read_u32(b, pos) as usize;
    let p1 = pos + 4;
    if b.len() - p1 < idl {
        return None;
    }
    let p2 = p1 + idl;
    let idb = slice_subrange(b, p1, p2);
    let id = match utf8_to_string(slice_to_vec(idb)) {
        Some(s) => s,
        None => {
            return None;
        },
    };
    if b.len() - p2 < 4 {
        return None;
    }
    let vl = read_u32(b, p2) as usize;
    let p3 = p2 + 4;
    if (b.len() - p3) / 4 < vl {
        proof {
            let room = (b@.len() - p3) as int;
            assert(room < 4 * vl) by (nonlinear_arith)
                requires
                    room >= 0,
                    room / 4 < vl,
            ;
        }
        return None;
    }
    proof {
        let room = (b@.len() - p3) as int;
        assert(4 * vl <= room) by (nonlinear_arith)
            requires
                room >= 0,
                vl <= room / 4,
        ;
    }
    let cs = read_coords(b, p3, vl);
    Some(((id, cs), p3 + 4 * vl))
}

/// Once some entries cannot be read, no longer run of them can.
proof fn lemma_parse_failure_persists(b: Seq<u8>, pos: int, k: nat, n: nat)
    requires
        k <= n,
        parse_entries(b, pos, k) is None,
    ensures
        parse_entries(b, pos, n) is None,
    decreases n - k,
{
    if k < n {
        lemma_parse_failure_persists(b, pos, k, (n - 1) as nat);
    }
}

/// Reads an index file: its entries, or `None` when it is not a complete
/// index.
pub fn decode_index(b: &[u8]) -> (r: Option<Vec<(String, Vec<u32>)>>)
    ensures
        match parse_index(b@) {
            Some(es) => r matches Some(v) && entries_view(v@) == es,
            None => r is None,
        },
{
    if b.len() < 4 {
        return None;
    }
    let n = read_u32(b, 0);
    let mut out: Vec<(String, Vec<u32>)> = Vec::new();
    let mut pos: usize = 4;
    let mut k: u32 = 0;
    assert(entries_view(out@) =~= Seq::<(Seq<char>, Seq<u32>)>::empty());
    while k < n
        invariant
            b@.len() >= 4,
            n == le_u32_at(b@, 0),
            k <= n,
            pos <= b@.len(),
            parse_entries(b@, 4, k as nat) == Some((entries_view(out@), pos as int)),
        decreases n - k,
    {
        match decode_entry(b, pos) {
            None => {
                proof {
                    assert(parse_entries(b@, 4, (k + 1) as nat) is None);
                    lemma_parse_failure_persists(b@, 4, (k + 1) as nat, n as nat);
                }
                return None;
            },
            Some((e, q)) => {
                let ghost before = entries_view(out@);
                out.push(e);
                assert(entries_view(out@) =~= before.push(entry_view(e)));
                pos = q;
            },
        }
        k = k + 1;
    }
    Some(out)
}

proof fn lemma_u32_le_round_trip(v: u32)
    ensures
        le_u32_at(u32_le(v), 0) == v,
{
    let b0 = (v & 0xff) as u8;
    let b1 = ((v >> 8u32) & 0xff) as u8;
    let b2 = ((v >> 16u32) & 0xff) as u8;
    let b3 = ((v >> 24u32) & 0xff) as u8;
    assert((b0 as u32) | ((b1 as u32) << 8u32) | ((b2 as u32) << 16u32) | ((b3 as u32) << 24u32) == v)
        by (bit_vector)
        requires
            b0 == (v & 0xff) as u8,
            b1 == ((v >> 8u32) & 0xff) as u8,
            b2 == ((v >> 16u32) & 0xff) as u8,
            b3 == ((v >> 24u32) & 0xff) as u8,
    ;
}

/// Four bytes that hold `u32_le(v)` read back as `v`.
proof fn lemma_read_u32_of(b: Seq<u8>, off: int, v: u32)
    requires
        0 <= off,
        off + 4 <= b.len(),
        b.subrange(off, off + 4) == u32_le(v),
    ensures
        le_u32_at(b, off) == v,
{
    let w = u32_le(v);
    assert(b[off] == b.subrange(off, off + 4)[0]);
    assert(b[off + 1] == b.subrange(off, off + 4)[1]);
    assert(b[off + 2] == b.subrange(off, off + 4)[2]);
    assert(b[off + 3] == b.subrange(off, off + 4)[3]);
    assert(le_u32_at(b, off) == le_u32_at(w, 0));
    lemma_u32_le_round_trip(v);
}

proof fn lemma_coords_bytes_len(cs: Seq<u32>)
    ensures
        coords_bytes(cs).len() == 4 * cs.len(),
    decreases cs.len(),
{
    if cs.len() > 0 {
        lemma_coords_bytes_len(cs.drop_last());
    }
}

proof fn lemma_coords_bytes_at(cs: Seq<u32>, i: int)
    requires
        0 <= i < cs.len(),
    ensures
        4 * i + 4 <= coords_bytes(cs).len(),
        coords_bytes(cs).subrange(4 * i, 4 * i + 4) == u32_le(cs[i]),
    decreases cs.len(),
{
    let init = cs.drop_last();
    lemma_coords_bytes_len(cs);
    lemma_coords_bytes_len(init);
    if i == cs.len() - 1 {
        assert(coords_bytes(cs).subrange(4 * i, 4 * i + 4) =~= u32_le(cs[i]));
    } else {
        lemma_coords_bytes_at(init, i);
        assert(coords_bytes(cs).subrange(4 * i, 4 * i + 4) =~= coords_bytes(init).subrange(4 * i, 4 * i + 4));
    }
}

/// Coordinates written at `p` read back.
proof fn lemma_coords_read(b: Seq<u8>, p: int, cs: Seq<u32>)
    requires
        0 <= p,
        p + 4 * cs.len() <= b.len(),
        b.subrange(p, p + 4 * cs.len()) == coords_bytes(cs),
    ensures
        coords_at(b, p, cs.len() as int) == cs,
{
    lemma_coords_bytes_len(cs);
    assert forall|i: int| 0 <= i < cs.len() implies #[trigger] coords_at(b, p, cs.len() as int)[i] == cs[i] by {
        lemma_coords_bytes_at(cs, i);
        assert(b.subrange(p + 4 * i, p + 4 * i + 4) =~= coords_bytes(cs).subrange(4 * i, 4 * i + 4));
        lemma_read_u32_of(b, p + 4 * i, cs[i]);
    }
    assert(coords_at(b, p, cs.len() as int) =~= cs);
}

/// Whether the lengths of an entry fit the format's 32-bit fields.
pub open spec fn entry_fits(e: (Seq<char>, Seq<u32>)) -> bool {
    encode_utf8(e.0).len() <= u32::MAX && e.1.len() <= u32::MAX
}

/// An entry written at `pos` reads back, and the next one starts right after.
proof fn lemma_entry_read(b: Seq<u8>, pos: int, e: (Seq<char>, Seq<u32>))
    requires
        0 <= pos,
        entry_fits(e),
        pos + entry_bytes(e).len() <= b.len(),
        b.subrange(pos, pos + entry_bytes(e).len()) == entry_bytes(e),
    ensures
        parse_entry(b, pos) == Some((e, pos + entry_bytes(e).len())),
{
    let ib = encode_utf8(e.0);
    let cs = e.1;
    let eb = entry_bytes(e);
    let l = ib.len() as int;
    let n = cs.len() as int;
    lemma_coords_bytes_len(cs);
    assert(eb.len() == 4 + l + 4 + 4 * n);
    let p1 = pos + 4;
    let p2 = p1 + l;
    let p3 = p2 + 4;
    assert(b.subrange(pos, p1) =~= eb.subrange(0, 4));
    assert(eb.subrange(0, 4) =~= u32_le(l as u32));
    lemma_read_u32_of(b, pos, l as u32);
    assert(b.subrange(p1, p2) =~= ib) by {
        assert(b.subrange(p1, p2) =~= eb.subrange(4, 4 + l));
    }
    vstd::utf8::encode_utf8_valid_utf8(e.0);
    vstd::utf8::encode_utf8_decode_utf8(e.0);
    assert(b.subrange(p2, p3) =~= u32_le(n as u32)) by {
        assert(b.subrange(p2, p3) =~= eb.subrange(4 + l, 8 + l));
    }
    lemma_read_u32_of(b, p2, n as u32);
    assert(b.subrange(p3, p3 + 4 * n) =~= coords_bytes(cs)) by {
        assert(b.subrange(p3, p3 + 4 * n) =~= eb.subrange(8 + l, 8 + l + 4 * n));
    }
    lemma_coords_read(b, p3, cs);
}

/// The bytes of the first `j` entries begin the bytes of all of them.
proof fn lemma_entries_prefix(es: Seq<(Seq<char>, Seq<u32>)>, j: int)
    requires
        0 <= j <= es.len(),
    ensures
        entries_bytes(es.take(j)).len() <= entries_bytes(es).len(),
        entries_bytes(es).subrange(0, entries_bytes(es.take(j)).len() as int) == entries_bytes(es.take(j)),
    decreases es.len(),
{
    if j == es.len() {
        assert(es.take(j) =~= es);
        assert(entries_bytes(es).subrange(0, entries_bytes(es).len() as int) =~= entries_bytes(es));
    } else {
        let init = es.drop_last();
        assert(es.take(j) =~= init.take(j));
        lemma_entries_prefix(init, j);
        let pre = entries_bytes(init.take(j));
        assert(entries_bytes(es).subrange(0, pre.len() as int) =~= entries_bytes(init).subrange(0, pre.len() as int));
    }
}

/// Reading `k` entries of a written index gives the first `k` entries.
proof fn lemma_entries_read(es: Seq<(Seq<char>, Seq<u32>)>, k: nat)
    requires
        k <= es.len(),
        forall|i: int| 0 <= i < es.len() ==> entry_fits(#[trigger] es[i]),
    ensures
        parse_entries(index_bytes(es), 4, k) == Some((es.take(k as int), 4 + entries_bytes(es.take(k as int)).len() as int)),
    decreases k,
{
    let b = index_bytes(es);
    if k == 0 {
        assert(es.take(0) =~= Seq::<(Seq<char>, Seq<u32>)>::empty());
    } else {
        let j = (k - 1) as int;
        lemma_entries_read(es, (k - 1) as nat);
        let a = entries_bytes(es.take(j)).len() as int;
        let e = es[j];
        let eb = entry_bytes(e);
        assert(es.take(k as int).drop_last() =~= es.take(j));
        assert(entries_bytes(es.take(k as int)) == entries_bytes(es.take(j)) + eb);
        lemma_entries_prefix(es, k as int);
        let all = entries_bytes(es);
        assert(all.subrange(a, a + eb.len()) =~= eb) by {
            assert(all.subrange(a, a + eb.len()) =~= entries_bytes(es.take(k as int)).subrange(a, a + eb.len()));
        }
        assert(b.subrange(4 + a, 4 + a + eb.len()) =~= all.subrange(a, a + eb.len()));
        lemma_entry_read(b, 4 + a, e);
        assert(es.take(j).push(e) =~= es.take(k as int));
    }
}

/// What is written reads back: an index file made by `encode_index` reads as
/// the same entries, when the number of entries, each id's UTF-8 length and
/// each coordinate count fit in 32 bits.
pub proof fn lemma_index_round_trip(es: Seq<(Seq<char>, Seq<u32>)>)
    requires
        es.len() <= u32::MAX,
        forall|i: int| 0 <= i < es.len() ==> entry_fits(#[trigger] es[i]),
    ensures
        parse_index(index_bytes(es)) == Some(es),
{
    let b = index_bytes(es);
    assert(b.subrange(0, 4) =~= u32_le(es.len() as u32));
    lemma_read_u32_of(b, 0, es.len() as u32);
    lemma_entries_read(es, es.len());
    assert(es.take(es.len() as int) =~= es);
}

} // verus!
