//! Capturing and rebuilding the store around a suspend/resume boundary.
//!
//! The snapshot carries the resources and the id counter, the two pieces of
//! state the host persists; the admin identity is deliberately not part of
//! it, so a restored store starts with no admin set. The host serializes the
//! snapshot out before teardown and feeds it back on restart; `restore`
//! re-checks the store invariant and refuses a snapshot that breaks it.

use vstd::prelude::*;
use crate::resource::{valid_input, validate_input, EczemaResource};
use crate::store::{ids_sorted, store_state_wf, EczemaStore};

verus! {

/// The persisted image of a store: its resources, in id order, and its
/// `next_id` counter.
pub struct Snapshot {
    pub resources: Vec<EczemaResource>,
    pub next_id: u64,
}

/// A sorted prefix stays sorted when the next id exceeds the last one.
proof fn lemma_sorted_extend(s: Seq<EczemaResource>, i: int)
    requires
        0 <= i < s.len(),
        ids_sorted(s.take(i)),
        i > 0 ==> s[i - 1].id < s[i].id,
    ensures
        ids_sorted(s.take(i + 1)),
{
    let t0 = s.take(i);
    let t1 = s.take(i + 1);
    assert forall|p: int, q: int| 0 <= p < q < t1.len() implies #[trigger] t1[p].id
        < #[trigger] t1[q].id by {
        if q < i {
            assert(t0[p].id < t0[q].id);
        } else {
            assert(t1[q] == s[i]);
            if p < i - 1 {
                assert(t0[p].id < t0[i - 1].id);
            }
        }
    }
}

impl EczemaStore {
    /// The persisted image of this store's resources and counter.
    pub fn snapshot(&self) -> (snap: Snapshot)
        requires
            self.wf(),
        ensures
            snap.resources@ == self.resources@,
            snap.next_id == self.next_id,
            store_state_wf(snap.resources@, snap.next_id),
    {
        Snapshot { resources: self.list_resources(), next_id: self.next_id }
    }

    /// Rebuilds a store from a snapshot, replacing the whole state at once.
    /// A snapshot that breaks the store invariant — ids out of order, an id
    /// at or above the counter, a zero counter, or a resource outside the
    /// validation bounds — is refused, and the host must treat that as
    /// fatal. The restored store has no admin set.
    #[verifier::rlimit(50)]
    pub fn restore(snap: Snapshot) -> (r: Option<EczemaStore>)
        ensures
            r matches Some(s) ==> s.wf() && s.resources@ == snap.resources@ && s.next_id
                == snap.next_id && s.admin_id() is None,
            (r matches Some(_)) <==> store_state_wf(snap.resources@, snap.next_id),
    {
        if snap.next_id < 1 {
            proof {
                assert(!store_state_wf(snap.resources@, snap.next_id)) by {
                    if store_state_wf(snap.resources@, snap.next_id) {
                        assert(1 <= snap.next_id);
                    }
                }
            }
            return None;
        }
        let mut i: usize = 0;
        while i < snap.resources.len()
            invariant
                i <= snap.resources@.len(),
                forall|k: int| 0 <= k < i ==> (#[trigger] snap.resources@[k]).id < snap.next_id,
                forall|k: int| 0 <= k < i ==> valid_input(
                    (#[trigger] snap.resources@[k]).title@, snap.resources@[k].description@,
                ),
                ids_sorted(snap.resources@.take(i as int)),
            decreases snap.resources@.len() - i,
        {
            if snap.resources[i].id >= snap.next_id {
                proof {
                    assert(!store_state_wf(snap.resources@, snap.next_id)) by {
                        if store_state_wf(snap.resources@, snap.next_id) {
                            assert((snap.resources@[i as int]).id < snap.next_id);
                        }
                    }
                }
                return None;
            }
            if validate_input(
                snap.resources[i].title.as_str(),
                snap.resources[i].description.as_str(),
            ).is_err() {
                proof {
                    assert(!store_state_wf(snap.resources@, snap.next_id)) by {
                        if store_state_wf(snap.resources@, snap.next_id) {
                            assert(valid_input(
                                (snap.resources@[i as int]).title@,
                                snap.resources@[i as int].description@,
                            ));
                        }
                    }
                }
                return None;
            }
            if i > 0 && snap.resources[i].id <= snap.resources[i - 1].id {
                proof {
                    assert(!store_state_wf(snap.resources@, snap.next_id)) by {
                        if ids_sorted(snap.resources@) {
                            assert(snap.resources@[i as int - 1].id < snap.resources@[i as int].id);
                        }
                    }
                }
                return None;
            }
            proof {
                lemma_sorted_extend(snap.resources@, i as int);
            }
            i += 1;
        }
        proof {
            assert(snap.resources@.take(snap.resources@.len() as int) =~= snap.resources@);
        }
        Some(EczemaStore { resources: snap.resources, next_id: snap.next_id, admin: None })
    }
}

/// Law: a well-formed store's content passes the very check `restore`
/// makes, so `restore(snapshot())` always succeeds; by the contracts of
/// `snapshot` and `restore` the rebuilt store holds the same resources and
/// the same `next_id`, and `list_resources` returns the same sequence
/// before the snapshot and after the restore.
pub proof fn lemma_snapshot_restore_round_trip(s: EczemaStore)
    requires
        s.wf(),
    ensures
        store_state_wf(s.resources@, s.next_id),
{
}

} // verus!
