use vstd::prelude::*;

use crate::auth::{may_act_on, Role};
use crate::blobs::{add_blob, no_dups, remove_blob, BlobSet};
use crate::bytes::clone_bytes;
use crate::errors::UploadError;
use crate::formats::{is_supported, kind_of};
use crate::hasher::{blob_identifier, blob_name_of, MAX_DIGEST_INPUT};
use crate::index::{
    has_record, owner_pairs, page_of, pairs_view, record_at, references, seq_sorted, OrderedIndex,
};

verus! {

/// Records per gallery page.
pub const PAGE_SIZE: usize = 12;

/// Process-wide monotonic sequence id generator: every drawn id is unique
/// and strictly increasing across all owners, giving a total order over
/// the whole system.
pub struct SequenceCounter {
    pub value: u32,
}

impl SequenceCounter {
    pub fn new() -> (r: SequenceCounter)
        ensures
            r.value == 0,
    {
        SequenceCounter { value: 0 }
    }

    /// Draw the next id: the increment-then-read primitive.
    pub fn draw(&mut self) -> (r: u32)
        requires
            old(self).value < u32::MAX,
        ensures
            r == old(self).value + 1,
            final(self).value == r,
    {
        self.value = self.value + 1;
        self.value
    }
}

/// The mathematical state of the subsystem: the ordered index, the set of
/// physically present blobs, and the sequence counter.
#[verifier::ext_equal]
pub struct StoreView {
    pub index: Seq<(u32, u32, Seq<u8>)>,
    pub blobs: Seq<Seq<u8>>,
    pub counter: u32,
}

/// The three invariants the subsystem keeps:
/// sequence ids are strictly increasing in index order and never exceed
/// the counter; and a blob physically exists if and only if at least one
/// index record references its identifier.
pub open spec fn wf_state(st: StoreView) -> bool {
    &&& seq_sorted(st.index)
    &&& forall|i: int| 0 <= i < st.index.len() ==> #[trigger] st.index[i].1 <= st.counter
    &&& no_dups(st.blobs)
    &&& forall|i: int| 0 <= i < st.index.len() ==> st.blobs.contains(#[trigger] st.index[i].2)
    &&& forall|b: Seq<u8>| #[trigger] st.blobs.contains(b) ==> references(st.index, b)
}

/// Whether ingest accepts a payload: a supported format is detected.
pub open spec fn item_accepted(data: Seq<u8>) -> bool {
    kind_of(data) is Some && is_supported(kind_of(data)->Some_0)
}

/// The identifier an accepted payload is stored under.
pub open spec fn item_name(data: Seq<u8>) -> Seq<u8> {
    blob_name_of(data, kind_of(data)->Some_0)
}

/// The state after committing one accepted payload: a fresh sequence id,
/// one new index record, and the blob written (a no-op if the identical
/// content is already stored).
pub open spec fn accept_item(st: StoreView, owner_id: u32, data: Seq<u8>) -> StoreView {
    StoreView {
        index: st.index.push((owner_id, (st.counter + 1) as u32, item_name(data))),
        blobs: add_blob(st.blobs, item_name(data)),
        counter: (st.counter + 1) as u32,
    }
}

/// The state and accepted identifier list after a batch upload: payloads
/// are taken in order; one whose format is undetectable or unsupported is
/// skipped and the batch continues.
pub open spec fn ingest_spec(st: StoreView, owner_id: u32, items: Seq<Seq<u8>>) -> (
    StoreView,
    Seq<Seq<u8>>,
)
    decreases items.len(),
{
    if items.len() == 0 {
        (st, Seq::empty())
    } else {
        let r = ingest_spec(st, owner_id, items.drop_last());
        let data = items.last();
        if item_accepted(data) {
            (accept_item(r.0, owner_id, data), r.1.push(item_name(data)))
        } else {
            r
        }
    }
}

/// The mathematical value of a vector of byte payloads.
pub open spec fn bytes_view(s: Seq<Vec<u8>>) -> Seq<Seq<u8>> {
    Seq::new(s.len(), |i: int| s[i]@)
}

/// Committing one accepted payload preserves the state invariants and
/// advances the counter by one.
pub proof fn lemma_accept_preserves_wf(st: StoreView, owner_id: u32, data: Seq<u8>)
    requires
        wf_state(st),
        st.counter < u32::MAX,
    ensures
        wf_state(accept_item(st, owner_id, data)),
{
    let st1 = accept_item(st, owner_id, data);
    let name = item_name(data);
    let id = (st.counter + 1) as u32;
    assert forall|i: int, j: int| 0 <= i < j < st1.index.len() implies st1.index[i].1
        < st1.index[j].1 by {
        if j < st.index.len() {
            assert(st.index[i].1 < st.index[j].1);
        } else {
            assert(st1.index[j] == (owner_id, id, name));
            assert(st.index[i].1 <= st.counter);
        }
    }
    assert forall|i: int, j: int| 0 <= i < j < st1.blobs.len() implies st1.blobs[i]
        != st1.blobs[j] by {
        if j < st.blobs.len() {
        } else if st.blobs.contains(name) {
        } else {
            assert(st1.blobs[j] == name);
            if st1.blobs[i] == name {
                assert(st.blobs[i] == name);
                assert(st.blobs.contains(name));
            }
        }
    }
    assert forall|i: int| 0 <= i < st1.index.len() implies st1.blobs.contains(
        #[trigger] st1.index[i].2,
    ) by {
        if i < st.index.len() {
            let b = st.index[i].2;
            let w = choose|w: int| 0 <= w < st.blobs.len() && st.blobs[w] == b;
            assert(st1.blobs[w] == b);
        } else {
            if st.blobs.contains(name) {
                let w = choose|w: int| 0 <= w < st.blobs.len() && st.blobs[w] == name;
                assert(st1.blobs[w] == name);
            } else {
                assert(st1.blobs[st.blobs.len() as int] == name);
            }
        }
    }
    assert forall|b: Seq<u8>| #[trigger] st1.blobs.contains(b) implies references(
        st1.index,
        b,
    ) by {
        if b == name {
            assert(st1.index[st.index.len() as int].2 == name);
        } else {
            let w = choose|w: int| 0 <= w < st1.blobs.len() && st1.blobs[w] == b;
            assert(st.blobs[w] == b);
            assert(st.blobs.contains(b));
            let v = choose|v: int| 0 <= v < st.index.len() && st.index[v].2 == b;
            assert(st1.index[v].2 == b);
        }
    }
}

/// A batch preserves the invariants; the counter grows by at most one per
/// payload, and no more identifiers are accepted than payloads handed in.
pub proof fn lemma_ingest_wf(st: StoreView, owner_id: u32, items: Seq<Seq<u8>>)
    requires
        wf_state(st),
        st.counter + items.len() <= u32::MAX,
    ensures
        ({
            let r = ingest_spec(st, owner_id, items);
            &&& wf_state(r.0)
            &&& st.counter <= r.0.counter <= st.counter + items.len()
            &&& r.1.len() <= items.len()
        }),
    decreases items.len(),
{
    if items.len() > 0 {
        lemma_ingest_wf(st, owner_id, items.drop_last());
        let r = ingest_spec(st, owner_id, items.drop_last());
        if item_accepted(items.last()) {
            lemma_accept_preserves_wf(r.0, owner_id, items.last());
        }
    }
}

/// A deletion notification owed to the record's owner when someone else
/// (an elevated role) deleted the record: who acted, and which sequence id
/// was deleted.
#[derive(Debug, Clone, Copy, PartialEq, Eq, Structural)]
pub struct Notification {
    pub target: u32,
    pub actor: u32,
    pub subject: u32,
}

/// The side effects a successful deletion asks of the caller: the blob to
/// physically delete, when the removed record was its last reference, and
/// the notification to emit, when the requester was not the owner.
#[derive(Debug)]
pub struct DeleteOutcome {
    pub removed_blob: Option<Vec<u8>>,
    pub notification: Option<Notification>,
}

/// The mathematical value of a delete outcome.
pub open spec fn outcome_view(out: DeleteOutcome) -> (Option<Seq<u8>>, Option<Notification>) {
    (
        match out.removed_blob {
            Some(v) => Some(v@),
            None => None,
        },
        out.notification,
    )
}

/// The state and result of a deletion request: authorization first, then
/// index removal, then the reference scan that decides whether the blob
/// itself goes.
#[verifier::ext_equal]
pub struct DeleteStep {
    pub state: StoreView,
    pub outcome: Result<(Option<Seq<u8>>, Option<Notification>), UploadError>,
}

pub open spec fn delete_spec(
    st: StoreView,
    owner_id: u32,
    sequence_id: u32,
    requester: u32,
    role: Role,
) -> DeleteStep {
    if !may_act_on(requester, role, owner_id) {
        DeleteStep { state: st, outcome: Err(UploadError::Unauthorized) }
    } else if !has_record(st.index, owner_id, sequence_id) {
        DeleteStep { state: st, outcome: Err(UploadError::NotFound) }
    } else {
        let i = record_at(st.index, owner_id, sequence_id);
        let name = st.index[i].2;
        let index1 = st.index.remove(i);
        let keep = references(index1, name);
        DeleteStep {
            state: StoreView {
                index: index1,
                blobs: if keep {
                    st.blobs
                } else {
                    remove_blob(st.blobs, name)
                },
                counter: st.counter,
            },
            outcome: Ok(
                (
                    if keep {
                        None
                    } else {
                        Some(name)
                    },
                    if requester != owner_id {
                        Some(Notification { target: owner_id, actor: requester, subject: sequence_id })
                    } else {
                        None
                    },
                ),
            ),
        }
    }
}

/// Removing one record, and the blob it referenced when no reference is
/// left, preserves the state invariants.
pub proof fn lemma_delete_preserves_wf(st: StoreView, owner_id: u32, sequence_id: u32)
    requires
        wf_state(st),
        has_record(st.index, owner_id, sequence_id),
    ensures
        ({
            let i = record_at(st.index, owner_id, sequence_id);
            let name = st.index[i].2;
            let index1 = st.index.remove(i);
            let keep = references(index1, name);
            wf_state(
                StoreView {
                    index: index1,
                    blobs: if keep {
                        st.blobs
                    } else {
                        remove_blob(st.blobs, name)
                    },
                    counter: st.counter,
                },
            )
        }),
{
    let i = record_at(st.index, owner_id, sequence_id);
    assert(0 <= i < st.index.len());
    let name = st.index[i].2;
    let index1 = st.index.remove(i);
    let keep = references(index1, name);
    let blobs1 = if keep {
        st.blobs
    } else {
        remove_blob(st.blobs, name)
    };
    crate::index::lemma_sorted_remove(st.index, i);
    assert forall|j: int| 0 <= j < index1.len() implies #[trigger] index1[j].1 <= st.counter by {
        if j < i {
            assert(index1[j] == st.index[j]);
        } else {
            assert(index1[j] == st.index[j + 1]);
        }
    }
    let bi = crate::blobs::blob_index(st.blobs, name);
    if !keep {
        assert(st.blobs.contains(name));
        assert(0 <= bi < st.blobs.len() && st.blobs[bi] == name);
        crate::blobs::lemma_removed_not_contained(st.blobs, bi);
        assert(blobs1 == st.blobs.remove(bi));
    }
    assert(no_dups(blobs1));
    assert forall|j: int| 0 <= j < index1.len() implies blobs1.contains(
        #[trigger] index1[j].2,
    ) by {
        let b = if j < i {
            st.index[j].2
        } else {
            st.index[j + 1].2
        };
        assert(index1[j].2 == b);
        assert(st.blobs.contains(b));
        if keep {
        } else {
            assert(b != name) by {
                if b == name {
                    assert(index1[j].2 == name);
                    assert(references(index1, name));
                }
            }
            let w = choose|w: int| 0 <= w < st.blobs.len() && st.blobs[w] == b;
            assert(w != bi);
            if w < bi {
                assert(blobs1[w] == st.blobs[w]);
            } else {
                assert(blobs1[w - 1] == st.blobs[w]);
            }
        }
    }
    assert forall|b: Seq<u8>| #[trigger] blobs1.contains(b) implies references(index1, b) by {
        let w = choose|w: int| 0 <= w < blobs1.len() && blobs1[w] == b;
        if keep {
            assert(st.blobs.contains(b));
        } else {
            if w < bi {
                assert(st.blobs[w] == b);
            } else {
                assert(st.blobs[w + 1] == b);
            }
            assert(st.blobs.contains(b));
        }
        if b == name {
            assert(keep) by {
                if !keep {
                    assert(!blobs1.contains(name));
                }
            }
        } else {
            let v = choose|v: int| 0 <= v < st.index.len() && st.index[v].2 == b;
            assert(v != i);
            if v < i {
                assert(index1[v].2 == b);
            } else {
                assert(index1[v - 1].2 == b);
            }
        }
    }
}

/// The whole subsystem: index, blob store model, and sequence counter,
/// kept consistent by every operation.
pub struct Store {
    pub index: OrderedIndex,
    pub blobs: BlobSet,
    pub counter: SequenceCounter,
}

impl View for Store {
    type V = StoreView;

    open spec fn view(&self) -> StoreView {
        StoreView { index: self.index@, blobs: self.blobs@, counter: self.counter.value }
    }
}

impl Store {
    pub open spec fn wf(self) -> bool {
        wf_state(self@)
    }

    /// An empty subsystem: no records, no blobs, no id drawn yet.
    pub fn new() -> (r: Store)
        ensures
            r@.index == Seq::<(u32, u32, Seq<u8>)>::empty(),
            r@.blobs == Seq::<Seq<u8>>::empty(),
            r@.counter == 0,
            r.wf(),
    {
        let r = Store { index: OrderedIndex::new(), blobs: BlobSet::new(), counter: SequenceCounter::new() };
        proof {
            assert(r@.index =~= Seq::<(u32, u32, Seq<u8>)>::empty());
            assert(r@.blobs =~= Seq::<Seq<u8>>::empty());
        }
        r
    }

    /// Batch upload for one owner: each payload is format-checked, hashed,
    /// given the next sequence id, and staged as a blob write plus an
    /// index insert; rejected payloads are skipped without aborting the
    /// batch. Returns the accepted identifiers in original input order —
    /// exactly the records the batch committed.
    pub fn ingest(&mut self, owner_id: u32, payloads: &Vec<Vec<u8>>) -> (r: Vec<Vec<u8>>)
        requires
            old(self).wf(),
            old(self)@.counter + payloads@.len() <= u32::MAX,
            forall|i: int|
                0 <= i < payloads@.len() ==> #[trigger] payloads@[i]@.len() < MAX_DIGEST_INPUT,
        ensures
            final(self)@ == ingest_spec(old(self)@, owner_id, bytes_view(payloads@)).0,
            bytes_view(r@) == ingest_spec(old(self)@, owner_id, bytes_view(payloads@)).1,
            final(self).wf(),
    {
        let ghost st0 = self@;
        let ghost items = bytes_view(payloads@);
        let mut imgs: Vec<Vec<u8>> = Vec::new();
        let mut i: usize = 0;
        proof {
            assert(bytes_view(imgs@) =~= Seq::<Seq<u8>>::empty());
            assert(items.take(0) =~= Seq::<Seq<u8>>::empty());
        }
        while i < payloads.len()
            invariant
                i <= payloads@.len(),
                st0 == old(self)@,
                items == bytes_view(payloads@),
                wf_state(st0),
                st0.counter + payloads@.len() <= u32::MAX,
                forall|j: int|
                    0 <= j < payloads@.len() ==> #[trigger] payloads@[j]@.len() < MAX_DIGEST_INPUT,
                self@ == ingest_spec(st0, owner_id, items.take(i as int)).0,
                bytes_view(imgs@) == ingest_spec(st0, owner_id, items.take(i as int)).1,
            decreases payloads@.len() - i,
        {
            let ghost pre = self@;
            let ghost acc = bytes_view(imgs@);
            proof {
                assert(items.take(i + 1).drop_last() =~= items.take(i as int));
                assert(items.take(i + 1).last() == items[i as int]);
                assert(items.take(i as int).len() <= items.len());
                lemma_ingest_wf(st0, owner_id, items.take(i as int));
            }
            let data = &payloads[i];
            match crate::formats::detect_format(data) {
                Some(kind) => {
                    if crate::formats::supported(kind) {
                        let name = blob_identifier(data, kind);
                        let id = self.counter.draw();
                        self.blobs.add(clone_bytes(&name));
                        self.index.insert(owner_id, id, clone_bytes(&name));
                        imgs.push(name);
                        proof {
                            assert(item_accepted(items[i as int]));
                            assert(self@ =~~= accept_item(pre, owner_id, items[i as int]));
                            assert(self@ == ingest_spec(st0, owner_id, items.take(i + 1)).0);
                            assert(bytes_view(imgs@) =~~= acc.push(item_name(items[i as int])));
                            assert(bytes_view(imgs@) == ingest_spec(st0, owner_id, items.take(i + 1)).1);
                        }
                    } else {
                        proof {
                            assert(!item_accepted(items[i as int]));
                            assert(ingest_spec(st0, owner_id, items.take(i + 1)) == ingest_spec(
                                st0,
                                owner_id,
                                items.take(i as int),
                            ));
                        }
                    }
                }
                None => {
                    proof {
                        assert(!item_accepted(items[i as int]));
                        assert(ingest_spec(st0, owner_id, items.take(i + 1)) == ingest_spec(
                            st0,
                            owner_id,
                            items.take(i as int),
                        ));
                    }
                }
            }
            i += 1;
        }
        proof {
            assert(items.take(items.len() as int) =~= items);
            lemma_ingest_wf(st0, owner_id, items);
        }
        imgs
    }

    /// Reference-counted deletion. Authorize the requester; remove the
    /// index record, failing with `NotFound` and no mutation when it does
    /// not exist; scan every remaining record for the removed identifier
    /// and, when none is left, delete the blob; owe the owner a
    /// notification when someone else deleted the record.
    pub fn delete(
        &mut self,
        owner_id: u32,
        sequence_id: u32,
        requester: u32,
        role: Role,
    ) -> (r: Result<DeleteOutcome, UploadError>)
        requires
            old(self).wf(),
        ensures
            final(self)@ == delete_spec(old(self)@, owner_id, sequence_id, requester, role).state,
            ({
                let spec_r = delete_spec(old(self)@, owner_id, sequence_id, requester, role).outcome;
                match r {
                    Ok(out) => spec_r is Ok && outcome_view(out) == spec_r->Ok_0,
                    Err(e) => spec_r == Err::<(Option<Seq<u8>>, Option<Notification>), UploadError>(e),
                }
            }),
            final(self).wf(),
    {
        let ghost st0 = self@;
        if let Err(e) = crate::auth::authorize(requester, role, owner_id) {
            return Err(e);
        }
        match self.index.take(owner_id, sequence_id) {
            Some(name) => {
                proof {
                    lemma_delete_preserves_wf(st0, owner_id, sequence_id);
                }
                let removed_blob = if self.index.has_reference(&name) {
                    None
                } else {
                    self.blobs.remove(&name);
                    Some(name)
                };
                let notification = if requester != owner_id {
                    Some(Notification { target: owner_id, actor: requester, subject: sequence_id })
                } else {
                    None
                };
                proof {
                    assert(self@ =~~= delete_spec(st0, owner_id, sequence_id, requester, role).state);
                }
                Ok(DeleteOutcome { removed_blob, notification })
            }
            None => Err(UploadError::NotFound),
        }
    }

    /// One gallery page for `owner_id`, readable by the owner or an
    /// elevated role: newest-first by default, oldest-first when
    /// ascending, skipping `anchor` records, `PAGE_SIZE` records at most.
    pub fn gallery(
        &self,
        viewer: u32,
        viewer_role: Role,
        owner_id: u32,
        anchor: usize,
        is_desc: bool,
    ) -> (r: Result<Vec<(u32, Vec<u8>)>, UploadError>)
        ensures
            r is Ok <==> may_act_on(viewer, viewer_role, owner_id),
            r matches Ok(v) ==> pairs_view(v@) == page_of(
                owner_pairs(self@.index, owner_id),
                anchor as int,
                is_desc,
                PAGE_SIZE as int,
            ),
            r matches Err(e) ==> e == UploadError::Unauthorized,
    {
        if let Err(e) = crate::auth::authorize(viewer, viewer_role, owner_id) {
            return Err(e);
        }
        Ok(self.index.list(owner_id, anchor, is_desc, PAGE_SIZE))
    }
}

} // verus!
