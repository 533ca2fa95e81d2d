use vstd::prelude::*;

use crate::auth::{may_act_on, Role};
use crate::blobs::{add_blob, blob_index, lemma_removed_not_contained, no_dups, remove_blob};
use crate::errors::UploadError;
use crate::index::{
    has_record, lemma_sorted_remove, owner_pairs, page_of, record_at, references, rev_of,
    seq_sorted,
};
use crate::store::{
    accept_item, delete_spec, ingest_spec, item_accepted, item_name, lemma_accept_preserves_wf,
    lemma_delete_preserves_wf, wf_state, Notification, StoreView,
};

verus! {

/// Uploading identical byte content twice — by the same or by different
/// owners — accepts both uploads under one and the same identifier,
/// stores the content physically once, and leaves two distinct index
/// records (distinct sequence ids) referencing that one blob.
pub proof fn lemma_dedup_two_uploads(st: StoreView, o1: u32, o2: u32, data: Seq<u8>)
    requires
        wf_state(st),
        item_accepted(data),
        st.counter + 2 <= u32::MAX,
    ensures
        ({
            let name = item_name(data);
            let id1 = (st.counter + 1) as u32;
            let id2 = (st.counter + 2) as u32;
            let r1 = ingest_spec(st, o1, seq![data]);
            let r2 = ingest_spec(r1.0, o2, seq![data]);
            &&& r1.1 == seq![name]
            &&& r2.1 == seq![name]
            &&& r2.0.index == st.index.push((o1, id1, name)).push((o2, id2, name))
            &&& id1 != id2
            &&& r2.0.blobs == add_blob(st.blobs, name)
            &&& no_dups(r2.0.blobs)
            &&& r2.0.blobs.contains(name)
            &&& wf_state(r2.0)
        }),
{
    let name = item_name(data);
    let items = seq![data];
    assert(items.drop_last() =~= Seq::<Seq<u8>>::empty());
    assert(items.last() == data);
    let r1 = ingest_spec(st, o1, items);
    assert(ingest_spec(st, o1, items.drop_last()) == (st, Seq::<Seq<u8>>::empty()));
    assert(r1.0 == accept_item(st, o1, data));
    assert(r1.1 =~= seq![name]);
    lemma_accept_preserves_wf(st, o1, data);
    let b1 = add_blob(st.blobs, name);
    if !st.blobs.contains(name) {
        assert(b1[st.blobs.len() as int] == name);
    }
    assert(b1.contains(name));
    let r2 = ingest_spec(r1.0, o2, items);
    assert(ingest_spec(r1.0, o2, items.drop_last()) == (r1.0, Seq::<Seq<u8>>::empty()));
    assert(r2.0 == accept_item(r1.0, o2, data));
    assert(r2.1 =~= seq![name]);
    lemma_accept_preserves_wf(r1.0, o2, data);
    assert(add_blob(b1, name) == b1);
    assert((st.counter + 1) as u32 == st.counter + 1);
    assert((st.counter + 2) as u32 == st.counter + 2);
}

/// Deleting one of two index records sharing a blob identifier leaves the
/// blob present; deleting the second — the last reference — removes it.
/// Both deletions succeed, and neither owes a notification since each is
/// made by the record's own owner.
pub proof fn lemma_shared_blob_deletion(st: StoreView, i1: int, i2: int)
    requires
        wf_state(st),
        0 <= i1 < st.index.len(),
        0 <= i2 < st.index.len(),
        i1 != i2,
        st.index[i1].2 == st.index[i2].2,
        forall|v: int|
            0 <= v < st.index.len() && #[trigger] st.index[v].2 == st.index[i1].2 ==> v == i1 || v
                == i2,
    ensures
        ({
            let name = st.index[i1].2;
            let d1 = delete_spec(st, st.index[i1].0, st.index[i1].1, st.index[i1].0, Role::Standard);
            let d2 = delete_spec(
                d1.state,
                st.index[i2].0,
                st.index[i2].1,
                st.index[i2].0,
                Role::Standard,
            );
            &&& d1.outcome == Ok::<(Option<Seq<u8>>, Option<Notification>), UploadError>(
                (None, None),
            )
            &&& d1.state.blobs.contains(name)
            &&& d2.outcome == Ok::<(Option<Seq<u8>>, Option<Notification>), UploadError>(
                (Some(name), None),
            )
            &&& !d2.state.blobs.contains(name)
        }),
{
    let o1 = st.index[i1].0;
    let s1 = st.index[i1].1;
    let o2 = st.index[i2].0;
    let s2 = st.index[i2].1;
    let name = st.index[i1].2;
    assert(may_act_on(o1, Role::Standard, o1));
    assert(has_record(st.index, o1, s1));
    let c1 = record_at(st.index, o1, s1);
    assert(0 <= c1 < st.index.len() && st.index[c1].0 == o1 && st.index[c1].1 == s1);
    if c1 != i1 {
        assert(st.index[c1].1 == st.index[i1].1);
        assert(false);
    }
    let index1 = st.index.remove(i1);
    let j2 = if i2 < i1 {
        i2
    } else {
        i2 - 1
    };
    assert(index1[j2] == st.index[i2]);
    assert(references(index1, name));
    let d1 = delete_spec(st, o1, s1, o1, Role::Standard);
    assert(d1.state.index == index1);
    assert(d1.state.blobs == st.blobs);
    assert(st.blobs.contains(st.index[i1].2));
    lemma_delete_preserves_wf(st, o1, s1);
    assert(wf_state(d1.state));
    lemma_sorted_remove(st.index, i1);

    assert(has_record(index1, o2, s2));
    let c2 = record_at(index1, o2, s2);
    assert(0 <= c2 < index1.len() && index1[c2].0 == o2 && index1[c2].1 == s2);
    if c2 != j2 {
        assert(index1[c2].1 == index1[j2].1);
        assert(false);
    }
    let index2 = index1.remove(j2);
    assert(!references(index2, name)) by {
        if references(index2, name) {
            let w = choose|w: int| 0 <= w < index2.len() && index2[w].2 == name;
            let u = if w < j2 {
                w
            } else {
                w + 1
            };
            assert(index1[u] == index2[w]);
            assert(u != j2);
            let v = if u < i1 {
                u
            } else {
                u + 1
            };
            assert(st.index[v] == index1[u]);
            assert(v != i1);
            assert(st.index[v].2 == name);
            assert(v == i2);
            assert(u == j2);
            assert(false);
        }
    }
    let d2 = delete_spec(d1.state, o2, s2, o2, Role::Standard);
    assert(d2.state.index == index2);
    assert(d2.state.blobs == remove_blob(st.blobs, name));
    let bi = blob_index(st.blobs, name);
    assert(0 <= bi < st.blobs.len() && st.blobs[bi] == name);
    lemma_removed_not_contained(st.blobs, bi);
}

/// One pair of an owner's pair sequence stems from a record of that
/// owner.
pub open spec fn pair_has_origin(s: Seq<(u32, u32, Seq<u8>)>, owner: u32, a: int) -> bool {
    exists|v: int|
        0 <= v < s.len() && #[trigger] s[v].1 == owner_pairs(s, owner)[a].0 && s[v].0 == owner
}

/// Every entry of one owner's pair sequence comes from one of the owner's
/// records, and the pairs are strictly ascending by sequence id.
pub proof fn lemma_owner_pairs_sorted(s: Seq<(u32, u32, Seq<u8>)>, owner: u32)
    requires
        seq_sorted(s),
    ensures
        forall|a: int| 0 <= a < owner_pairs(s, owner).len() ==> #[trigger] pair_has_origin(s, owner, a),
        forall|a: int, b: int|
            0 <= a < b < owner_pairs(s, owner).len() ==> owner_pairs(s, owner)[a].0 < owner_pairs(
                s,
                owner,
            )[b].0,
    decreases s.len(),
{
    let op = owner_pairs(s, owner);
    if s.len() > 0 {
        let t = s.drop_last();
        assert(seq_sorted(t)) by {
            assert forall|i: int, j: int| 0 <= i < j < t.len() implies t[i].1 < t[j].1 by {
                assert(t[i] == s[i] && t[j] == s[j]);
            }
        }
        lemma_owner_pairs_sorted(t, owner);
        let opt = owner_pairs(t, owner);
        assert forall|a: int|
            0 <= a < op.len() implies #[trigger] pair_has_origin(s, owner, a) by {
            if a < opt.len() {
                assert(pair_has_origin(t, owner, a));
                let v = choose|v: int|
                    0 <= v < t.len() && #[trigger] t[v].1 == owner_pairs(t, owner)[a].0 && t[v].0
                        == owner;
                assert(op[a] == opt[a]);
                assert(s[v] == t[v]);
                assert(s[v].1 == op[a].0 && s[v].0 == owner);
            } else {
                assert(s.last().0 == owner && op[a].0 == s.last().1);
                assert(s[s.len() - 1].1 == op[a].0 && s[s.len() - 1].0 == owner);
            }
        }
        assert forall|a: int, b: int| 0 <= a < b < op.len() implies op[a].0 < op[b].0 by {
            if b < opt.len() {
                assert(op[a] == opt[a] && op[b] == opt[b]);
            } else {
                assert(s.last().0 == owner);
                assert(op[b].0 == s.last().1);
                assert(op[a] == opt[a]);
                assert(pair_has_origin(t, owner, a));
                let v = choose|v: int|
                    0 <= v < t.len() && #[trigger] t[v].1 == owner_pairs(t, owner)[a].0 && t[v].0
                        == owner;
                assert(s[v].1 < s[s.len() - 1].1);
            }
        }
    }
}

/// Two consecutive descending gallery pages of one owner are disjoint,
/// and their concatenation is exactly the `2 * n` newest records, with
/// strictly descending sequence ids — no gaps, no duplicates.
pub proof fn lemma_descending_pages(s: Seq<(u32, u32, Seq<u8>)>, owner: u32, n: int)
    requires
        seq_sorted(s),
        n > 0,
        owner_pairs(s, owner).len() >= 2 * n,
    ensures
        ({
            let op = owner_pairs(s, owner);
            let p1 = page_of(op, 0, true, n);
            let p2 = page_of(op, n, true, n);
            let both = p1 + p2;
            &&& p1.len() == n && p2.len() == n
            &&& both == rev_of(op).subrange(0, 2 * n)
            &&& forall|a: int, b: int| 0 <= a < b < both.len() ==> both[a].0 > both[b].0
            &&& forall|a: int, b: int|
                0 <= a < p1.len() && 0 <= b < p2.len() ==> #[trigger] p1[a].0 != #[trigger] p2[b].0
        }),
{
    let op = owner_pairs(s, owner);
    let ds = rev_of(op);
    lemma_owner_pairs_sorted(s, owner);
    let p1 = page_of(op, 0, true, n);
    let p2 = page_of(op, n, true, n);
    assert(p1 == ds.subrange(0, n));
    assert(p2 == ds.subrange(n, 2 * n));
    let both = p1 + p2;
    assert(both =~= ds.subrange(0, 2 * n));
    assert forall|a: int, b: int| 0 <= a < b < both.len() implies both[a].0 > both[b].0 by {
        assert(both[a] == ds[a] && both[b] == ds[b]);
        assert(ds[a] == op[op.len() - 1 - a] && ds[b] == op[op.len() - 1 - b]);
    }
    assert forall|a: int, b: int|
        0 <= a < p1.len() && 0 <= b < p2.len() implies #[trigger] p1[a].0 != #[trigger] p2[b].0 by {
        assert(both[a] == p1[a] && both[n + b] == p2[b]);
        assert(both[a].0 > both[n + b].0);
    }
}

/// An unauthorized deletion attempt — by a requester who is neither the
/// owner nor elevated — fails with `Unauthorized` and mutates neither the
/// index nor the blob store.
pub proof fn lemma_unauthorized_delete_no_mutation(
    st: StoreView,
    owner_id: u32,
    sequence_id: u32,
    requester: u32,
    role: Role,
)
    requires
        !may_act_on(requester, role, owner_id),
    ensures
        delete_spec(st, owner_id, sequence_id, requester, role).state == st,
        delete_spec(st, owner_id, sequence_id, requester, role).outcome == Err::<
            (Option<Seq<u8>>, Option<Notification>),
            UploadError,
        >(UploadError::Unauthorized),
{
}

/// A deletion attempt on a nonexistent record fails with `NotFound` and
/// mutates neither the index nor the blob store.
pub proof fn lemma_missing_delete_no_mutation(
    st: StoreView,
    owner_id: u32,
    sequence_id: u32,
    requester: u32,
    role: Role,
)
    requires
        may_act_on(requester, role, owner_id),
        !has_record(st.index, owner_id, sequence_id),
    ensures
        delete_spec(st, owner_id, sequence_id, requester, role).state == st,
        delete_spec(st, owner_id, sequence_id, requester, role).outcome == Err::<
            (Option<Seq<u8>>, Option<Notification>),
            UploadError,
        >(UploadError::NotFound),
{
}

/// Two racing deletions both reaching the physical-delete step for the
/// same blob: whichever runs first removes the bytes, the other finds the
/// blob already gone and is a tolerated no-op — neither is an error.
pub proof fn lemma_double_blob_delete(b: Seq<Seq<u8>>, name: Seq<u8>)
    requires
        no_dups(b),
        b.contains(name),
    ensures
        ({
            let b1 = remove_blob(b, name);
            &&& !b1.contains(name)
            &&& remove_blob(b1, name) == b1
        }),
{
    let bi = blob_index(b, name);
    assert(0 <= bi < b.len() && b[bi] == name);
    lemma_removed_not_contained(b, bi);
}

} // verus!
