use vstd::prelude::*;

use crate::bytes::bytes_eq;

verus! {

/// No name occurs twice: the set-shaped well-formedness of the blob store
/// model.
pub open spec fn no_dups(s: Seq<Seq<u8>>) -> bool {
    forall|i: int, j: int| 0 <= i < j < s.len() ==> s[i] != s[j]
}

/// The position of `name` in `s`, when present.
pub open spec fn blob_index(s: Seq<Seq<u8>>, name: Seq<u8>) -> int {
    choose|i: int| 0 <= i < s.len() && s[i] == name
}

/// The blob store after a physical delete of `name`: the delete is
/// tolerated, not an error, when the blob is already gone.
pub open spec fn remove_blob(s: Seq<Seq<u8>>, name: Seq<u8>) -> Seq<Seq<u8>> {
    if s.contains(name) {
        s.remove(blob_index(s, name))
    } else {
        s
    }
}

/// The blob store after a write of `name`: content addressing makes the
/// write a no-op when the blob already exists.
pub open spec fn add_blob(s: Seq<Seq<u8>>, name: Seq<u8>) -> Seq<Seq<u8>> {
    if s.contains(name) {
        s
    } else {
        s.push(name)
    }
}

/// Model of the physical blob store: the set of blob identifiers whose
/// bytes currently exist, as the storage path suffix of each.
pub struct BlobSet {
    pub names: Vec<Vec<u8>>,
}

impl View for BlobSet {
    type V = Seq<Seq<u8>>;

    open spec fn view(&self) -> Seq<Seq<u8>> {
        Seq::new(self.names@.len(), |i: int| self.names@[i]@)
    }
}

impl BlobSet {
    pub open spec fn wf(self) -> bool {
        no_dups(self@)
    }

    /// An empty blob store.
    pub fn new() -> (r: BlobSet)
        ensures
            r@ =~= Seq::<Seq<u8>>::empty(),
            r.wf(),
    {
        BlobSet { names: Vec::new() }
    }

    /// Whether a blob with this identifier exists.
    pub fn contains(&self, name: &Vec<u8>) -> (r: bool)
        ensures
            r == self@.contains(name@),
    {
        let mut i: usize = 0;
        while i < self.names.len()
            invariant
                i <= self.names@.len(),
                forall|j: int| 0 <= j < i ==> self@[j] != name@,
            decreases self.names@.len() - i,
        {
            if bytes_eq(&self.names[i], name) {
                proof {
                    assert(self@[i as int] == name@);
                }
                return true;
            }
            i += 1;
        }
        proof {
            assert(forall|j: int| 0 <= j < self@.len() ==> self@[j] != name@);
        }
        false
    }

    /// Stage a blob write. A store may no-op when bytes already exist at
    /// that path; the result says whether the blob is new.
    pub fn add(&mut self, name: Vec<u8>) -> (r: bool)
        requires
            old(self).wf(),
        ensures
            final(self)@ == add_blob(old(self)@, name@),
            r == !old(self)@.contains(name@),
            final(self).wf(),
    {
        let ghost pre = self@;
        if self.contains(&name) {
            false
        } else {
            self.names.push(name);
            proof {
                assert(self@ =~= pre.push(name@));
                assert(self@ == add_blob(pre, name@));
            }
            true
        }
    }

    /// Physical delete of a blob: removes it when present; an absent blob
    /// is a tolerated no-op, never an error. The result says whether this
    /// call removed the bytes.
    pub fn remove(&mut self, name: &Vec<u8>) -> (r: bool)
        requires
            old(self).wf(),
        ensures
            final(self)@ == remove_blob(old(self)@, name@),
            r == old(self)@.contains(name@),
            !final(self)@.contains(name@),
            final(self).wf(),
    {
        let ghost pre = self@;
        let mut i: usize = 0;
        while i < self.names.len()
            invariant
                i <= self.names@.len(),
                self@ == pre,
                pre == old(self)@,
                self.wf(),
                forall|j: int| 0 <= j < i ==> self@[j] != name@,
            decreases self.names@.len() - i,
        {
            if bytes_eq(&self.names[i], name) {
                proof {
                    assert(pre[i as int] == name@);
                    assert(pre.contains(name@));
                    let c = blob_index(pre, name@);
                    if c != i as int {
                        assert(pre[c] == pre[i as int]);
                        assert(false);
                    }
                }
                self.names.remove(i);
                proof {
                    assert(self@ =~= pre.remove(i as int));
                    lemma_removed_not_contained(pre, i as int);
                }
                return true;
            }
            i += 1;
        }
        proof {
            assert(forall|j: int| 0 <= j < pre.len() ==> pre[j] != name@);
            if pre.contains(name@) {
                let w = choose|w: int| 0 <= w < pre.len() && pre[w] == name@;
                assert(false);
            }
        }
        false
    }
}

/// Removing one occurrence of a value that occurs nowhere else leaves a
/// sequence that does not contain it.
pub proof fn lemma_removed_not_contained(s: Seq<Seq<u8>>, i: int)
    requires
        0 <= i < s.len(),
        no_dups(s),
    ensures
        !s.remove(i).contains(s[i]),
        no_dups(s.remove(i)),
{
    let t = s.remove(i);
    assert forall|j: int| 0 <= j < t.len() implies t[j] != s[i] by {
        if j < i {
            assert(t[j] == s[j]);
        } else {
            assert(t[j] == s[j + 1]);
        }
    }
    if t.contains(s[i]) {
        let w = choose|w: int| 0 <= w < t.len() && t[w] == s[i];
        assert(false);
    }
    assert forall|a: int, b: int| 0 <= a < b < t.len() implies t[a] != t[b] by {
        if b < i {
            assert(t[a] == s[a] && t[b] == s[b]);
        } else if a >= i {
            assert(t[a] == s[a + 1] && t[b] == s[b + 1]);
        } else {
            assert(t[a] == s[a] && t[b] == s[b + 1]);
        }
    }
}

} // verus!
