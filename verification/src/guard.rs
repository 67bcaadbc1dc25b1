//! Single-flight admission guard for submission evaluation.
//!
//! At most one evaluation per submission id may be in flight at a time.
//! The guard owns the set of submission ids currently being evaluated:
//! `acquire` atomically tests membership and inserts, `release` removes
//! unconditionally.  The caller wraps the guard in its own exclusion
//! mechanism; all calls on one guard value are serialized, so the two
//! operations below describe every interleaving of concurrent callers.

use vstd::prelude::*;

verus! {

/// The set of submission ids currently undergoing evaluation.
pub struct EvaluationGuard {
    in_evaluation: Vec<i64>,
}

/// What a (serialized) acquisition does to the set of in-flight ids:
/// insert if absent, reporting whether the caller won admission.
pub open spec fn spec_acquire(s: Set<i64>, id: i64) -> (Set<i64>, bool) {
    if s.contains(id) {
        (s, false)
    } else {
        (s.insert(id), true)
    }
}

impl EvaluationGuard {
    /// The ids currently granted, as a set.
    pub closed spec fn view(&self) -> Set<i64> {
        self.in_evaluation@.to_set()
    }

    /// Internally the ids are kept without duplicates, so that one
    /// `release` removes an id entirely.
    pub closed spec fn wf(&self) -> bool {
        self.in_evaluation@.no_duplicates()
    }

    pub fn new() -> (g: EvaluationGuard)
        ensures
            g.wf(),
            g@ === Set::<i64>::empty(),
    {
        let g = EvaluationGuard { in_evaluation: Vec::new() };
        proof {
            assert(g@ =~= Set::<i64>::empty());
        }
        g
    }

    /// Whether the given id is currently granted.
    pub fn contains(&self, submission_id: i64) -> (r: bool)
        ensures
            r == self@.contains(submission_id),
    {
        let mut i: usize = 0;
        while i < self.in_evaluation.len()
            invariant
                i <= self.in_evaluation@.len(),
                forall|k: int| 0 <= k < i ==> self.in_evaluation@[k] != submission_id,
            decreases self.in_evaluation@.len() - i,
        {
            if self.in_evaluation[i] == submission_id {
                return true;
            }
            i += 1;
        }
        proof {
            assert(!self.in_evaluation@.contains(submission_id));
        }
        false
    }

    /// Atomically test and insert: returns whether the caller won admission.
    /// A rejected acquisition leaves the guard unchanged.
    pub fn acquire(&mut self, submission_id: i64) -> (granted: bool)
        requires
            old(self).wf(),
        ensures
            final(self).wf(),
            (final(self)@, granted) === spec_acquire(old(self)@, submission_id),
    {
        if self.contains(submission_id) {
            false
        } else {
            let ghost pre = self.in_evaluation@;
            self.in_evaluation.push(submission_id);
            proof {
                let post = self.in_evaluation@;
                assert(post.drop_last() =~= pre);
                assert(post.to_set() =~= pre.to_set().insert(submission_id)) by {
                    assert forall|v: i64| post.to_set().contains(v)
                        implies pre.to_set().insert(submission_id).contains(v) by {
                        let k = choose|k: int| 0 <= k < post.len() && post[k] == v;
                        if k < pre.len() {
                            assert(pre[k] == v);
                        }
                    }
                    assert forall|v: i64| pre.to_set().insert(submission_id).contains(v)
                        implies post.to_set().contains(v) by {
                        if pre.contains(v) {
                            let k = choose|k: int| 0 <= k < pre.len() && pre[k] == v;
                            assert(post[k] == v);
                        } else {
                            assert(post[pre.len() as int] == v);
                        }
                    }
                }
            }
            true
        }
    }

    /// Remove the id unconditionally; a no-op if it was not granted.
    pub fn release(&mut self, submission_id: i64)
        requires
            old(self).wf(),
        ensures
            final(self).wf(),
            final(self)@ === old(self)@.remove(submission_id),
    {
        let ghost pre = self.in_evaluation@;
        let mut kept: Vec<i64> = Vec::new();
        let mut i: usize = 0;
        while i < self.in_evaluation.len()
            invariant
                i <= pre.len(),
                self.in_evaluation@ == pre,
                pre.no_duplicates(),
                kept@.no_duplicates(),
                forall|m: int| 0 <= m < kept@.len()
                    ==> kept@[m] != submission_id && pre.take(i as int).contains(#[trigger] kept@[m]),
                forall|k: int| 0 <= k < i && pre[k] != submission_id ==> kept@.contains(#[trigger] pre[k]),
            decreases pre.len() - i,
        {
            let id = self.in_evaluation[i];
            let ghost pk = kept@;
            if id != submission_id {
                proof {
                    assert forall|m: int| 0 <= m < pk.len() implies pk[m] != id by {
                        let k = choose|k: int| 0 <= k < i && pre[k] == pk[m];
                        assert(pre[i as int] == id);
                    }
                }
                kept.push(id);
                proof {
                    assert(kept@.drop_last().no_duplicates());
                    assert(kept@.drop_last() == kept@.take(kept@.len() - 1));
                    assert forall|m: int, n: int| 0 <= m < n < kept@.len()
                        implies kept@[m] != kept@[n] by {}
                    assert(pre.take(i + 1).contains(pre[i as int])) by {
                        assert(pre.take(i + 1)[i as int] == pre[i as int]);
                    }
                    assert forall|m: int| 0 <= m < kept@.len()
                        implies kept@[m] != submission_id
                            && pre.take(i + 1).contains(#[trigger] kept@[m]) by {
                        if m < kept@.len() - 1 {
                            let k = choose|k: int|
                                0 <= k < i && pre.take(i as int)[k] == kept@[m];
                            assert(pre.take(i + 1)[k] == kept@[m]);
                        }
                    }
                    assert forall|k: int| 0 <= k < i + 1 && pre[k] != submission_id
                        implies kept@.contains(#[trigger] pre[k]) by {
                        if k == i {
                            assert(kept@[kept@.len() - 1] == pre[k]);
                        } else {
                            let m = choose|m: int| 0 <= m < pk.len() && pk[m] == pre[k];
                            assert(kept@[m] == pre[k]);
                        }
                    }
                }
            } else {
                proof {
                    assert forall|m: int| 0 <= m < kept@.len()
                        implies pre.take(i + 1).contains(#[trigger] kept@[m]) by {
                        let k = choose|k: int| 0 <= k < i && pre.take(i as int)[k] == kept@[m];
                        assert(pre.take(i + 1)[k] == kept@[m]);
                    }
                }
            }
            i += 1;
        }
        proof {
            assert(pre.take(pre.len() as int) =~= pre);
        }
        self.in_evaluation = kept;
        proof {
            assert(self.in_evaluation@.to_set() =~= pre.to_set().remove(submission_id)) by {
                assert forall|v: i64| pre.to_set().remove(submission_id).contains(v)
                    implies self.in_evaluation@.to_set().contains(v) by {
                    let k = choose|k: int| 0 <= k < pre.len() && pre[k] == v;
                }
            }
        }
    }
}

/// Single-flight law: of two acquisitions of the same submission id, with no
/// release in between and starting from a state where the id is not in
/// flight, the first succeeds and the second fails — exactly one wins.
/// The guard's callers are serialized, so any two concurrent evaluation
/// requests for one id perform their acquisitions in some order, and both
/// orders are instances of this statement.
pub proof fn lemma_single_flight(s: Set<i64>, id: i64)
    requires
        !s.contains(id),
    ensures
        spec_acquire(s, id).1,
        !spec_acquire(spec_acquire(s, id).0, id).1,
        spec_acquire(spec_acquire(s, id).0, id).0 === spec_acquire(s, id).0,
{
}

} // verus!
