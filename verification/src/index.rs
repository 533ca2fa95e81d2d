use vstd::prelude::*;

use crate::bytes::{bytes_eq, clone_bytes};

verus! {

/// One record of the ordered index: an immutable pointer from an owner's
/// sequence position to a blob identifier. Never updated, only deleted.
pub struct IndexRecord {
    pub owner_id: u32,
    pub sequence_id: u32,
    pub blob: Vec<u8>,
}

/// Sequence ids are globally unique and strictly increasing in issuance
/// order, so the record list is strictly sorted by sequence id.
pub open spec fn seq_sorted(s: Seq<(u32, u32, Seq<u8>)>) -> bool {
    forall|i: int, j: int| 0 <= i < j < s.len() ==> s[i].1 < s[j].1
}

/// Whether a record with this key exists.
pub open spec fn has_record(s: Seq<(u32, u32, Seq<u8>)>, owner: u32, seq_id: u32) -> bool {
    exists|i: int| 0 <= i < s.len() && s[i].0 == owner && s[i].1 == seq_id
}

/// The position of the record with this key, when one exists.
pub open spec fn record_at(s: Seq<(u32, u32, Seq<u8>)>, owner: u32, seq_id: u32) -> int {
    choose|i: int| 0 <= i < s.len() && s[i].0 == owner && s[i].1 == seq_id
}

/// Whether some record references this blob identifier.
pub open spec fn references(s: Seq<(u32, u32, Seq<u8>)>, blob: Seq<u8>) -> bool {
    exists|i: int| 0 <= i < s.len() && s[i].2 == blob
}

/// The `(sequence_id, blob)` pairs of one owner, oldest first, in index
/// order.
pub open spec fn owner_pairs(s: Seq<(u32, u32, Seq<u8>)>, owner: u32) -> Seq<(u32, Seq<u8>)>
    decreases s.len(),
{
    if s.len() == 0 {
        Seq::empty()
    } else {
        let rest = owner_pairs(s.drop_last(), owner);
        if s.last().0 == owner {
            rest.push((s.last().1, s.last().2))
        } else {
            rest
        }
    }
}

/// A sequence read back to front.
pub open spec fn rev_of<A>(s: Seq<A>) -> Seq<A> {
    Seq::new(s.len(), |i: int| s[s.len() - 1 - i])
}

/// One page of a directional listing: skip the first `anchor` entries in
/// the requested direction, then take up to `n`. An anchor beyond the end
/// yields an empty page, not an error.
pub open spec fn page_of(op: Seq<(u32, Seq<u8>)>, anchor: int, is_desc: bool, n: int) -> Seq<
    (u32, Seq<u8>),
> {
    let ds = if is_desc {
        rev_of(op)
    } else {
        op
    };
    if anchor < 0 || anchor >= ds.len() || n <= 0 {
        Seq::empty()
    } else if anchor + n <= ds.len() {
        ds.subrange(anchor, anchor + n)
    } else {
        ds.subrange(anchor, ds.len() as int)
    }
}

/// The mathematical value of a vector of `(sequence_id, blob)` pairs.
pub open spec fn pairs_view(rv: Seq<(u32, Vec<u8>)>) -> Seq<(u32, Seq<u8>)> {
    Seq::new(rv.len(), |i: int| (rv[i].0, rv[i].1@))
}

/// The per-owner ordered index, kept sorted by globally increasing
/// sequence id; within one owner this is exactly ascending insertion
/// order.
pub struct OrderedIndex {
    pub records: Vec<IndexRecord>,
}

impl View for OrderedIndex {
    type V = Seq<(u32, u32, Seq<u8>)>;

    open spec fn view(&self) -> Seq<(u32, u32, Seq<u8>)> {
        Seq::new(
            self.records@.len(),
            |i: int|
                (self.records@[i].owner_id, self.records@[i].sequence_id, self.records@[i].blob@),
        )
    }
}

impl OrderedIndex {
    pub open spec fn wf(self) -> bool {
        seq_sorted(self@)
    }

    /// An empty index.
    pub fn new() -> (r: OrderedIndex)
        ensures
            r@ =~= Seq::<(u32, u32, Seq<u8>)>::empty(),
            r.wf(),
    {
        OrderedIndex { records: Vec::new() }
    }

    /// Stage the insert of a fresh record. The sequence id comes from the
    /// global counter, so it exceeds every id already present and the
    /// record lands at the end of the order.
    pub fn insert(&mut self, owner_id: u32, sequence_id: u32, blob: Vec<u8>)
        requires
            old(self).wf(),
            forall|i: int| 0 <= i < old(self)@.len() ==> #[trigger] old(self)@[i].1 < sequence_id,
        ensures
            final(self)@ == old(self)@.push((owner_id, sequence_id, blob@)),
            final(self).wf(),
    {
        let ghost pre = self@;
        let ghost b = blob@;
        self.records.push(IndexRecord { owner_id, sequence_id, blob });
        proof {
            assert(self@ =~= pre.push((owner_id, sequence_id, b)));
        }
    }

    /// Remove the record at `(owner_id, sequence_id)` and hand back its
    /// blob identifier; an absent key removes nothing.
    pub fn take(&mut self, owner_id: u32, sequence_id: u32) -> (r: Option<Vec<u8>>)
        requires
            old(self).wf(),
        ensures
            r is Some <==> has_record(old(self)@, owner_id, sequence_id),
            r matches Some(v) ==> {
                let i = record_at(old(self)@, owner_id, sequence_id);
                &&& v@ == old(self)@[i].2
                &&& final(self)@ == old(self)@.remove(i)
            },
            r is None ==> final(self)@ == old(self)@,
            final(self).wf(),
    {
        let ghost pre = self@;
        let mut i: usize = 0;
        while i < self.records.len()
            invariant
                i <= self.records@.len(),
                self@ == pre,
                pre == old(self)@,
                self.wf(),
                forall|j: int|
                    0 <= j < i ==> !(self@[j].0 == owner_id && #[trigger] self@[j].1
                        == sequence_id),
            decreases self.records@.len() - i,
        {
            if self.records[i].owner_id == owner_id && self.records[i].sequence_id == sequence_id {
                proof {
                    assert(pre[i as int].0 == owner_id && pre[i as int].1 == sequence_id);
                    assert(has_record(pre, owner_id, sequence_id));
                    let c = record_at(pre, owner_id, sequence_id);
                    if c != i as int {
                        assert(pre[c].1 == pre[i as int].1);
                        assert(false);
                    }
                    lemma_sorted_remove(pre, i as int);
                }
                let rec = self.records.remove(i);
                proof {
                    assert(self@ =~= pre.remove(i as int));
                }
                return Some(rec.blob);
            }
            i += 1;
        }
        proof {
            if has_record(pre, owner_id, sequence_id) {
                let w = choose|w: int|
                    0 <= w < pre.len() && pre[w].0 == owner_id && pre[w].1 == sequence_id;
                assert(false);
            }
        }
        None
    }

    /// Whether any record still references this blob identifier: the full
    /// scan that reference-counted deletion relies on.
    pub fn has_reference(&self, blob: &Vec<u8>) -> (r: bool)
        ensures
            r == references(self@, blob@),
    {
        let mut i: usize = 0;
        while i < self.records.len()
            invariant
                i <= self.records@.len(),
                forall|j: int| 0 <= j < i ==> #[trigger] self@[j].2 != blob@,
            decreases self.records@.len() - i,
        {
            if bytes_eq(&self.records[i].blob, blob) {
                proof {
                    assert(self@[i as int].2 == blob@);
                }
                return true;
            }
            i += 1;
        }
        proof {
            if references(self@, blob@) {
                let w = choose|w: int| 0 <= w < self@.len() && self@[w].2 == blob@;
                assert(false);
            }
        }
        false
    }

    /// One page of one owner's gallery: oldest-first when ascending,
    /// newest-first when descending, skipping the first `anchor` records
    /// in that direction and returning at most `n` pairs.
    pub fn list(&self, owner_id: u32, anchor: usize, is_desc: bool, n: usize) -> (r: Vec<
        (u32, Vec<u8>),
    >)
        ensures
            pairs_view(r@) == page_of(owner_pairs(self@, owner_id), anchor as int, is_desc, n as int),
    {
        let mut asc: Vec<(u32, Vec<u8>)> = Vec::new();
        let mut i: usize = 0;
        while i < self.records.len()
            invariant
                i <= self.records@.len(),
                pairs_view(asc@) == owner_pairs(self@.take(i as int), owner_id),
            decreases self.records@.len() - i,
        {
            let ghost prev = asc@;
            proof {
                assert(self@.take(i + 1).drop_last() =~= self@.take(i as int));
                assert(self@.take(i + 1).last() == self@[i as int]);
            }
            if self.records[i].owner_id == owner_id {
                asc.push((self.records[i].sequence_id, clone_bytes(&self.records[i].blob)));
                proof {
                    let op0 = owner_pairs(self@.take(i as int), owner_id);
                    assert(owner_pairs(self@.take(i + 1), owner_id) == op0.push(
                        (self@[i as int].1, self@[i as int].2),
                    ));
                    assert(pairs_view(asc@) =~~= owner_pairs(self@.take(i + 1), owner_id));
                }
            } else {
                proof {
                    assert(owner_pairs(self@.take(i + 1), owner_id) == owner_pairs(
                        self@.take(i as int),
                        owner_id,
                    ));
                    assert(pairs_view(asc@) =~~= owner_pairs(self@.take(i + 1), owner_id));
                }
            }
            i += 1;
        }
        proof {
            assert(self@.take(self@.len() as int) =~= self@);
        }
        let ghost op = owner_pairs(self@, owner_id);
        let ghost ds = if is_desc {
            rev_of(op)
        } else {
            op
        };
        let total = asc.len();
        let mut out: Vec<(u32, Vec<u8>)> = Vec::new();
        let mut k: usize = anchor;
        proof {
            if anchor <= total {
                assert(pairs_view(out@) =~~= ds.subrange(anchor as int, anchor as int));
            }
        }
        while k < total && out.len() < n
            invariant
                asc@.len() == total,
                total == ds.len(),
                pairs_view(asc@) == op,
                ds == (if is_desc {
                    rev_of(op)
                } else {
                    op
                }),
                anchor <= k,
                k <= total || k == anchor,
                out@.len() == k - anchor,
                out@.len() <= n,
                k <= total ==> pairs_view(out@) == ds.subrange(anchor as int, k as int),
                anchor > total ==> out@.len() == 0,
            decreases total - k,
        {
            let idx = if is_desc {
                total - 1 - k
            } else {
                k
            };
            proof {
                if is_desc {
                    assert(ds[k as int] == op[op.len() - 1 - k as int]);
                }
                assert(ds[k as int] == op[idx as int]);
                assert(op[idx as int] == pairs_view(asc@)[idx as int]);
            }
            out.push((asc[idx].0, clone_bytes(&asc[idx].1)));
            k += 1;
            proof {
                assert(pairs_view(out@) =~~= ds.subrange(anchor as int, k as int));
            }
        }
        proof {
            let pg = page_of(op, anchor as int, is_desc, n as int);
            if anchor >= ds.len() || n == 0 {
                assert(out@.len() == 0);
                assert(pairs_view(out@) =~~= pg);
            } else if out@.len() == n {
                assert(pg == ds.subrange(anchor as int, anchor + n as int));
                assert(pairs_view(out@) =~~= pg);
            } else {
                assert(k == total);
                assert(pg == ds.subrange(anchor as int, ds.len() as int));
                assert(pairs_view(out@) =~~= pg);
            }
        }
        out
    }
}

/// Removing any record keeps the index strictly sorted.
pub proof fn lemma_sorted_remove(s: Seq<(u32, u32, Seq<u8>)>, i: int)
    requires
        0 <= i < s.len(),
        seq_sorted(s),
    ensures
        seq_sorted(s.remove(i)),
{
    let t = s.remove(i);
    assert forall|a: int, b: int| 0 <= a < b < t.len() implies t[a].1 < t[b].1 by {
        if b < i {
            assert(t[a] == s[a] && t[b] == s[b]);
        } else if a >= i {
            assert(t[a] == s[a + 1] && t[b] == s[b + 1]);
        } else {
            assert(t[a] == s[a] && t[b] == s[b + 1]);
        }
    }
}

} // verus!
