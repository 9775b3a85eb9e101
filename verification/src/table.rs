//! The pending-request table: every outstanding request's identifier, the
//! method it was issued for, and its single-use completion handle; and the
//! monotonic identifier allocator.
//!
//! The handle type is a parameter: the table never invokes a handle, it
//! only stores each one and gives it back exactly once.

use vstd::prelude::*;

verus! {

/// Why a table operation was refused.
#[derive(Clone, Copy, PartialEq, Eq, Structural, Debug)]
pub enum TableError {
    /// `register` saw an identifier that is still outstanding.
    DuplicateIdentifier,
    /// `complete` saw an identifier with no outstanding entry.
    UnknownIdentifier,
}

/// One outstanding request.
pub struct PendingEntry<T> {
    pub id: u64,
    pub method: String,
    pub handle: T,
}

/// No identifier occurs twice.
pub open spec fn distinct_ids<T>(s: Seq<PendingEntry<T>>) -> bool {
    forall|i: int, j: int| 0 <= i < j < s.len() ==> s[i].id != s[j].id
}

/// Some entry carries `id`.
pub open spec fn has_id<T>(s: Seq<PendingEntry<T>>, id: u64) -> bool {
    exists|i: int| 0 <= i < s.len() && (#[trigger] s[i]).id == id
}

pub struct PendingTable<T> {
    entries: Vec<PendingEntry<T>>,
    next_id: u64,
}

impl<T> PendingTable<T> {
    /// The outstanding entries, in registration order.
    pub closed spec fn entries_seq(self) -> Seq<PendingEntry<T>> {
        self.entries@
    }

    /// The identifier the next allocation returns.
    pub closed spec fn next_id_spec(self) -> u64 {
        self.next_id
    }

    pub open spec fn contains_id(self, id: u64) -> bool {
        has_id(self.entries_seq(), id)
    }

    pub open spec fn wf(self) -> bool {
        distinct_ids(self.entries_seq())
    }

    pub fn new() -> (r: Self)
        ensures
            r.wf(),
            r.entries_seq() == Seq::<PendingEntry<T>>::empty(),
            r.next_id_spec() == 1u64,
    {
        let entries: Vec<PendingEntry<T>> = Vec::new();
        proof {
            assert(entries@ =~= Seq::<PendingEntry<T>>::empty());
        }
        PendingTable { entries, next_id: 1 }
    }

    /// How many requests are outstanding.
    pub fn pending_count(&self) -> (r: usize)
        ensures
            r == self.entries_seq().len(),
    {
        self.entries.len()
    }

    /// Returns a fresh identifier.  The counter is monotonic and wraps only
    /// after the whole range is spent; reuse after a wrap is caught by
    /// `register` as a `DuplicateIdentifier`.
    pub fn allocate(&mut self) -> (r: u64)
        ensures
            r == old(self).next_id_spec(),
            final(self).next_id_spec() as int == (if old(self).next_id_spec() < u64::MAX {
                old(self).next_id_spec() as int + 1
            } else {
                0
            }),
            final(self).entries_seq() == old(self).entries_seq(),
    {
        let id = self.next_id;
        self.next_id = if self.next_id < u64::MAX {
            self.next_id + 1
        } else {
            0
        };
        id
    }

    /// Records an outstanding request under `id`; refuses an identifier
    /// that is already outstanding.
    pub fn register(&mut self, id: u64, method: String, handle: T) -> (r: Result<(), TableError>)
        requires
            old(self).wf(),
        ensures
            final(self).wf(),
            final(self).next_id_spec() == old(self).next_id_spec(),
            match r {
                Ok(()) => !old(self).contains_id(id) && final(self).entries_seq() == old(
                    self,
                ).entries_seq().push(PendingEntry { id, method, handle }),
                Err(e) => e == TableError::DuplicateIdentifier && old(self).contains_id(id)
                    && final(self).entries_seq() == old(self).entries_seq(),
            },
    {
        let mut k: usize = 0;
        let n = self.entries.len();
        while k < n
            invariant
                *self == *old(self),
                distinct_ids(self.entries@),
                k <= n == self.entries@.len(),
                forall|i: int| 0 <= i < k ==> (#[trigger] self.entries@[i]).id != id,
            decreases n - k,
        {
            if self.entries[k].id == id {
                return Err(TableError::DuplicateIdentifier);
            }
            k += 1;
        }
        proof {
            assert(!has_id(self.entries@, id));
        }
        self.entries.push(PendingEntry { id, method, handle });
        proof {
            assert(distinct_ids(self.entries@));
        }
        Ok(())
    }

    /// Takes the entry outstanding under `id` out of the table; refuses an
    /// identifier with no entry.
    pub fn complete(&mut self, id: u64) -> (r: Result<PendingEntry<T>, TableError>)
        requires
            old(self).wf(),
        ensures
            final(self).wf(),
            final(self).next_id_spec() == old(self).next_id_spec(),
            match r {
                Ok(e) => e.id == id && !final(self).contains_id(id) && (exists|i: int|
                    {
                        &&& 0 <= i < old(self).entries_seq().len()
                        &&& old(self).entries_seq()[i] == e
                        &&& final(self).entries_seq() == old(self).entries_seq().remove(i)
                    }),
                Err(e) => e == TableError::UnknownIdentifier && !old(self).contains_id(id)
                    && final(self).entries_seq() == old(self).entries_seq(),
            },
    {
        let mut k: usize = 0;
        let n = self.entries.len();
        while k < n
            invariant
                *self == *old(self),
                distinct_ids(self.entries@),
                k <= n == self.entries@.len(),
                forall|i: int| 0 <= i < k ==> (#[trigger] self.entries@[i]).id != id,
            decreases n - k,
        {
            if self.entries[k].id == id {
                let ghost pre = self.entries@;
                let e = self.entries.remove(k);
                proof {
                    assert(e.id == id);
                    let post = pre.remove(k as int);
                    pre.remove_ensures(k as int);
                    assert(self.entries@ =~= post);
                    assert forall|i: int, j: int|
                        0 <= i < j < post.len() implies post[i].id != post[j].id by {
                        if j < k {
                            assert(post[i] == pre[i]);
                            assert(post[j] == pre[j]);
                        } else if i < k {
                            assert(post[i] == pre[i]);
                            assert(post[j] == pre[j + 1]);
                        } else {
                            assert(post[i] == pre[i + 1]);
                            assert(post[j] == pre[j + 1]);
                        }
                    }
                    assert(!has_id(post, id)) by {
                        if has_id(post, id) {
                            let w = choose|i: int|
                                0 <= i < post.len() && (#[trigger] post[i]).id == id;
                            if w < k {
                                assert(post[w] == pre[w]);
                            } else {
                                assert(post[w] == pre[w + 1]);
                            }
                        }
                    }
                    assert(old(self).entries_seq()[k as int] == e);
                }
                return Ok(e);
            }
            k += 1;
        }
        proof {
            assert(!has_id(self.entries@, id));
        }
        Err(TableError::UnknownIdentifier)
    }

    /// Empties the table, handing back every outstanding entry exactly once,
    /// in registration order: on termination each is fulfilled with the
    /// transport error by the caller.
    pub fn drain_all(&mut self) -> (r: Vec<PendingEntry<T>>)
        ensures
            r@ == old(self).entries_seq(),
            final(self).entries_seq() == Seq::<PendingEntry<T>>::empty(),
            final(self).wf(),
            final(self).next_id_spec() == old(self).next_id_spec(),
    {
        let mut out: Vec<PendingEntry<T>> = Vec::new();
        out.append(&mut self.entries);
        proof {
            assert(out@ =~= old(self).entries_seq());
            assert(self.entries@ =~= Seq::<PendingEntry<T>>::empty());
        }
        out
    }
}

/// Each outstanding identifier names exactly one entry: in a table with
/// distinct identifiers, two entries bearing the same identifier are the
/// same entry.  So whatever order responses arrive in, the entry completed
/// for an identifier is the one registered under it, handle and all.
pub proof fn lemma_identifier_names_one_entry<T>(pending: Seq<PendingEntry<T>>, i: int, j: int)
    requires
        distinct_ids(pending),
        0 <= i < pending.len(),
        0 <= j < pending.len(),
        pending[i].id == pending[j].id,
    ensures
        i == j,
{
}

/// Completion is exclusive: taking the entry for `id` out of a table with
/// distinct identifiers leaves no entry under `id`, so the same response
/// identifier can never fulfill a second handle unless the identifier is
/// first registered anew.
pub proof fn lemma_completion_exclusive<T>(
    pre: Seq<PendingEntry<T>>,
    i: int,
    post: Seq<PendingEntry<T>>,
)
    requires
        distinct_ids(pre),
        0 <= i < pre.len(),
        post == pre.remove(i),
    ensures
        !has_id(post, pre[i].id),
        distinct_ids(post),
{
    pre.remove_ensures(i);
    assert forall|j: int, k: int| 0 <= j < k < post.len() implies post[j].id != post[k].id by {
        let pj = if j < i {
            j
        } else {
            j + 1
        };
        let pk = if k < i {
            k
        } else {
            k + 1
        };
        assert(post[j] == pre[pj]);
        assert(post[k] == pre[pk]);
    }
    if has_id(post, pre[i].id) {
        let w = choose|j: int| 0 <= j < post.len() && (#[trigger] post[j]).id == pre[i].id;
        let pw = if w < i {
            w
        } else {
            w + 1
        };
        assert(post[w] == pre[pw]);
        assert(pre[pw].id == pre[i].id);
    }
}

} // verus!
