use vstd::prelude::*;

use crate::index::seq_sorted;

verus! {

/// The four big-endian bytes of a 32-bit id: the fixed-width component of
/// a persisted index key.
pub open spec fn be_bytes_of(x: u32) -> Seq<u8> {
    seq![(x >> 24) as u8, (x >> 16) as u8, (x >> 8) as u8, x as u8]
}

/// The id read back from four big-endian bytes.
pub open spec fn be_val_of(s: Seq<u8>) -> u32
    recommends
        s.len() == 4,
{
    ((s[0] as u32) << 24) | ((s[1] as u32) << 16) | ((s[2] as u32) << 8) | (s[3] as u32)
}

/// An index record's persisted key: the owner id, then the sequence id,
/// both fixed-width big-endian.
pub open spec fn record_key_of(owner_id: u32, sequence_id: u32) -> Seq<u8> {
    be_bytes_of(owner_id) + be_bytes_of(sequence_id)
}

/// Byte-wise lexicographic order — how an ordered key-value store
/// compares keys.
pub open spec fn bytes_lt(a: Seq<u8>, b: Seq<u8>) -> bool
    decreases a.len(),
{
    if b.len() == 0 {
        false
    } else if a.len() == 0 {
        true
    } else if a[0] < b[0] {
        true
    } else if a[0] > b[0] {
        false
    } else {
        bytes_lt(a.drop_first(), b.drop_first())
    }
}

/// Encode an id as its four big-endian bytes.
pub fn encode_u32(x: u32) -> (r: Vec<u8>)
    ensures
        r@ == be_bytes_of(x),
{
    let mut r: Vec<u8> = Vec::new();
    r.push((x >> 24) as u8);
    r.push((x >> 16) as u8);
    r.push((x >> 8) as u8);
    r.push(x as u8);
    proof {
        assert(r@ =~= be_bytes_of(x));
    }
    r
}

/// Build the persisted key of one index record.
pub fn encode_record_key(owner_id: u32, sequence_id: u32) -> (r: Vec<u8>)
    ensures
        r@ == record_key_of(owner_id, sequence_id),
{
    let mut r = encode_u32(owner_id);
    let mut tail = encode_u32(sequence_id);
    r.append(&mut tail);
    proof {
        assert(r@ =~= record_key_of(owner_id, sequence_id));
    }
    r
}

/// Read the sequence id back from the tail of a persisted record key.
pub fn decode_sequence_id(key: &Vec<u8>) -> (r: u32)
    requires
        key@.len() == 8,
    ensures
        r == be_val_of(key@.subrange(4, 8)),
{
    let r = ((key[4] as u32) << 24) | ((key[5] as u32) << 16) | ((key[6] as u32) << 8) | (
    key[7] as u32);
    proof {
        let t = key@.subrange(4, 8);
        assert(t[0] == key@[4] && t[1] == key@[5] && t[2] == key@[6] && t[3] == key@[7]);
    }
    r
}

/// Encoding an id and reading it back returns the id.
pub proof fn lemma_key_round_trip(x: u32)
    ensures
        be_val_of(be_bytes_of(x)) == x,
{
    let s = be_bytes_of(x);
    assert(s[0] == (x >> 24) as u8 && s[1] == (x >> 16) as u8 && s[2] == (x >> 8) as u8 && s[3]
        == x as u8);
    assert(((((x >> 24) as u8) as u32) << 24) | ((((x >> 16) as u8) as u32) << 16) | ((((x >> 8)
        as u8) as u32) << 8) | ((x as u8) as u32) == x) by (bit_vector);
}

/// Big-endian bytes compare exactly as the ids they encode.
pub proof fn lemma_be_bytes_order(x: u32, y: u32)
    ensures
        bytes_lt(be_bytes_of(x), be_bytes_of(y)) <==> x < y,
{
    let a = be_bytes_of(x);
    let b = be_bytes_of(y);
    let a1 = a.drop_first();
    let b1 = b.drop_first();
    let a2 = a1.drop_first();
    let b2 = b1.drop_first();
    let a3 = a2.drop_first();
    let b3 = b2.drop_first();
    assert(a1 =~= seq![(x >> 16) as u8, (x >> 8) as u8, x as u8]);
    assert(b1 =~= seq![(y >> 16) as u8, (y >> 8) as u8, y as u8]);
    assert(a2 =~= seq![(x >> 8) as u8, x as u8]);
    assert(b2 =~= seq![(y >> 8) as u8, y as u8]);
    assert(a3 =~= seq![x as u8]);
    assert(b3 =~= seq![y as u8]);
    assert(a3.drop_first() =~= Seq::<u8>::empty());
    assert(b3.drop_first() =~= Seq::<u8>::empty());
    assert(bytes_lt(a, b) == (a[0] < b[0] || (a[0] == b[0] && bytes_lt(a1, b1))));
    assert(bytes_lt(a1, b1) == (a1[0] < b1[0] || (a1[0] == b1[0] && bytes_lt(a2, b2))));
    assert(bytes_lt(a2, b2) == (a2[0] < b2[0] || (a2[0] == b2[0] && bytes_lt(a3, b3))));
    assert(!bytes_lt(a3.drop_first(), b3.drop_first()));
    assert(bytes_lt(a3, b3) == (a3[0] < b3[0]));
    assert((((x >> 24) as u8) < ((y >> 24) as u8) || (((x >> 24) as u8) == ((y >> 24) as u8)
        && (((x >> 16) as u8) < ((y >> 16) as u8) || (((x >> 16) as u8) == ((y >> 16) as u8)
            && (((x >> 8) as u8) < ((y >> 8) as u8) || (((x >> 8) as u8) == ((y >> 8) as u8)
                && ((x as u8) < (y as u8)))))))) <==> x < y) by (bit_vector);
}

/// Lexicographic order over keys made of equal-width parts decides on the
/// first part, then on the second.
pub proof fn lemma_bytes_lt_concat(a1: Seq<u8>, a2: Seq<u8>, b1: Seq<u8>, b2: Seq<u8>)
    requires
        a1.len() == b1.len(),
    ensures
        bytes_lt(a1 + a2, b1 + b2) <==> (bytes_lt(a1, b1) || (a1 == b1 && bytes_lt(a2, b2))),
    decreases a1.len(),
{
    if a1.len() == 0 {
        assert(a1 + a2 =~= a2);
        assert(b1 + b2 =~= b2);
        assert(a1 =~= b1);
    } else {
        lemma_bytes_lt_concat(a1.drop_first(), a2, b1.drop_first(), b2);
        assert((a1 + a2).drop_first() =~= a1.drop_first() + a2);
        assert((b1 + b2).drop_first() =~= b1.drop_first() + b2);
        assert((a1 + a2)[0] == a1[0] && (b1 + b2)[0] == b1[0]);
        assert((a1 + a2).len() > 0 && (b1 + b2).len() > 0);
        if a1[0] == b1[0] {
            if a1.drop_first() == b1.drop_first() {
                assert forall|k: int| 0 <= k < a1.len() implies a1[k] == b1[k] by {
                    if k > 0 {
                        assert(a1.drop_first()[k - 1] == a1[k]);
                        assert(b1.drop_first()[k - 1] == b1[k]);
                    }
                }
                assert(a1 =~= b1);
            }
            if a1 == b1 {
                assert(a1.drop_first() == b1.drop_first());
            }
        }
    }
}

/// The layout contract: persisted keys compare byte-wise exactly as the
/// `(owner_id, sequence_id)` pairs they encode, so per-owner range scans
/// and global monotonic ordering both fall out of plain lexicographic key
/// order.
pub proof fn lemma_record_key_order(o1: u32, s1: u32, o2: u32, s2: u32)
    ensures
        bytes_lt(record_key_of(o1, s1), record_key_of(o2, s2)) <==> (o1 < o2 || (o1 == o2 && s1
            < s2)),
{
    lemma_bytes_lt_concat(be_bytes_of(o1), be_bytes_of(s1), be_bytes_of(o2), be_bytes_of(s2));
    lemma_be_bytes_order(o1, o2);
    lemma_be_bytes_order(s1, s2);
    if be_bytes_of(o1) == be_bytes_of(o2) {
        lemma_key_round_trip(o1);
        lemma_key_round_trip(o2);
        assert(o1 == o2);
    }
}

/// In a well-formed index, the persisted keys of one owner's records
/// ascend byte-wise with logical position: a key-order range scan replays
/// the index order.
pub proof fn lemma_index_keys_ascend(s: Seq<(u32, u32, Seq<u8>)>, i: int, j: int)
    requires
        seq_sorted(s),
        0 <= i < j < s.len(),
        s[i].0 == s[j].0,
    ensures
        bytes_lt(record_key_of(s[i].0, s[i].1), record_key_of(s[j].0, s[j].1)),
{
    lemma_record_key_order(s[i].0, s[i].1, s[j].0, s[j].1);
}

} // verus!
