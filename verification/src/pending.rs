use vstd::prelude::*;
use crate::messages::PermissionResponse;

verus! {

/// The table of suspended approval requests of one session endpoint: each
/// entry pairs a broker-chosen prompt identifier with the single-use slot on
/// which the corresponding request is waiting. Every identifier present here
/// corresponds to exactly one in-flight request suspended on it; an
/// identifier leaves the instant a decision is delivered, the wait times out,
/// or the endpoint stops.
pub struct PendingTable {
    slots: Vec<(String, tokio::sync::oneshot::Sender<PermissionResponse>)>,
}

impl View for PendingTable {
    type V = Set<Seq<char>>;

    /// A table is abstractly the set of prompt identifiers now pending.
    closed spec fn view(&self) -> Set<Seq<char>> {
        Set::new(|id: Seq<char>| self.key_seq().contains(id))
    }
}

impl PendingTable {
    /// The prompt identifiers, in storage order.
    spec fn key_seq(self) -> Seq<Seq<char>> {
        self.slots@.map(
            |i: int, p: (String, tokio::sync::oneshot::Sender<PermissionResponse>)| p.0@,
        )
    }

    /// Each pending identifier owns exactly one slot.
    pub closed spec fn wf(self) -> bool {
        forall|i: int, j: int|
            0 <= i < j < self.key_seq().len() ==> self.key_seq()[i] != self.key_seq()[j]
    }

    /// An empty table: no request is suspended.
    pub fn new() -> (t: PendingTable)
        ensures
            t.wf(),
            t@ == Set::<Seq<char>>::empty(),
    {
        let t = PendingTable { slots: Vec::new() };
        proof {
            assert(t@ =~= Set::<Seq<char>>::empty());
        }
        t
    }

    /// Where `id` is stored, if anywhere.
    fn find_index(&self, id: &String) -> (r: Option<usize>)
        ensures
            match r {
                Some(i) => 0 <= i < self.key_seq().len() && self.key_seq()[i as int] == id@,
                None => !self@.contains(id@),
            },
    {
        let mut i: usize = 0;
        while i < self.slots.len()
            invariant
                0 <= i <= self.slots@.len(),
                forall|j: int| 0 <= j < i ==> self.key_seq()[j] != id@,
            decreases self.slots@.len() - i,
        {
            let p = &self.slots[i];
            if p.0 == *id {
                return Some(i);
            }
            i += 1;
        }
        None
    }

    /// Takes the slot of `id` out of the table, if `id` is pending. The slot
    /// is removed before anything is sent on it, so a decision can be
    /// delivered to it at most once.
    pub fn remove(&mut self, id: &String) -> (r: Option<
        tokio::sync::oneshot::Sender<PermissionResponse>,
    >)
        requires
            old(self).wf(),
        ensures
            final(self).wf(),
            final(self)@ == old(self)@.remove(id@),
            r is Some <==> old(self)@.contains(id@),
    {
        match self.find_index(id) {
            Some(i) => {
                let pair = self.slots.remove(i);
                proof {
                    lemma_key_removed(*old(self), *self, i as int, id@);
                }
                Some(pair.1)
            },
            None => {
                proof {
                    assert(old(self)@.remove(id@) =~= old(self)@);
                }
                None
            },
        }
    }

    /// Enters a slot for `id`. A stale slot under the same identifier — which
    /// a fresh random identifier makes all but impossible — is dropped, which
    /// its waiter observes as an implicit denial.
    pub fn insert(
        &mut self,
        id: String,
        slot: tokio::sync::oneshot::Sender<PermissionResponse>,
    )
        requires
            old(self).wf(),
        ensures
            final(self).wf(),
            final(self)@ == old(self)@.insert(id@),
    {
        let _stale = self.remove(&id);
        let ghost mid = *self;
        self.slots.push((id, slot));
        proof {
            assert(self.key_seq() =~= mid.key_seq().push(id@));
            assert(!mid@.contains(id@));
            assert forall|i: int, j: int|
                0 <= i < j < self.key_seq().len() implies self.key_seq()[i]
                != self.key_seq()[j] by {
                if j + 1 == self.key_seq().len() {
                    assert(self.key_seq()[j] == id@);
                    assert(mid.key_seq()[i] == self.key_seq()[i]);
                    if self.key_seq()[i] == id@ {
                        assert(mid.key_seq().contains(id@));
                    }
                }
            }
            assert forall|x: Seq<char>| self@.contains(x) implies old(self)@.insert(id@).contains(
                x,
            ) by {
                let w = choose|w: int| 0 <= w < self.key_seq().len() && self.key_seq()[w] == x;
                if w < mid.key_seq().len() {
                    assert(mid.key_seq()[w] == x);
                    assert(mid@.contains(x));
                }
            }
            assert forall|x: Seq<char>| old(self)@.insert(id@).contains(x) implies self@.contains(
                x,
            ) by {
                if x == id@ {
                    assert(self.key_seq()[self.key_seq().len() - 1] == x);
                } else {
                    assert(mid@.contains(x));
                    let w = choose|w: int| 0 <= w < mid.key_seq().len() && mid.key_seq()[w] == x;
                    assert(self.key_seq()[w] == x);
                }
            }
            assert(self@ =~= old(self)@.insert(id@));
        }
    }
}

/// After removing storage position `i`, which held `id`, the table's set of
/// pending identifiers is the old set without `id`, and well-formedness is
/// kept.
proof fn lemma_key_removed(pre: PendingTable, post: PendingTable, i: int, id: Seq<char>)
    requires
        pre.wf(),
        0 <= i < pre.key_seq().len(),
        pre.key_seq()[i] == id,
        post.slots@ == pre.slots@.remove(i),
    ensures
        post.wf(),
        post@ == pre@.remove(id),
{
    assert(post.key_seq().len() == pre.key_seq().len() - 1);
    assert forall|j: int| 0 <= j < post.key_seq().len() implies post.key_seq()[j] == (if j < i {
        pre.key_seq()[j]
    } else {
        pre.key_seq()[j + 1]
    }) by {
        assert(post.slots@[j] == (if j < i {
            pre.slots@[j]
        } else {
            pre.slots@[j + 1]
        }));
    }
    assert forall|j: int, k: int|
        0 <= j < k < post.key_seq().len() implies post.key_seq()[j] != post.key_seq()[k] by {
        if j < i && k < i {
        } else if j < i {
            assert(post.key_seq()[k] == pre.key_seq()[k + 1]);
        } else {
            assert(post.key_seq()[j] == pre.key_seq()[j + 1]);
            assert(post.key_seq()[k] == pre.key_seq()[k + 1]);
        }
    }
    assert forall|x: Seq<char>| post@.contains(x) implies pre@.remove(id).contains(x) by {
        let w = choose|w: int| 0 <= w < post.key_seq().len() && post.key_seq()[w] == x;
        if w < i {
            assert(pre.key_seq()[w] == x);
            if x == id {
                assert(pre.key_seq()[w] == pre.key_seq()[i]);
            }
        } else {
            assert(pre.key_seq()[w + 1] == x);
            if x == id {
                assert(pre.key_seq()[w + 1] == pre.key_seq()[i]);
            }
        }
        assert(pre@.contains(x));
    }
    assert forall|x: Seq<char>| pre@.remove(id).contains(x) implies post@.contains(x) by {
        let w = choose|w: int| 0 <= w < pre.key_seq().len() && pre.key_seq()[w] == x;
        if w < i {
            assert(post.key_seq()[w] == x);
        } else if w == i {
            assert(x == id);
        } else {
            assert(post.key_seq()[w - 1] == x);
        }
        assert(post.key_seq().contains(x));
    }
    assert(post@ =~= pre@.remove(id));
}

} // verus!
