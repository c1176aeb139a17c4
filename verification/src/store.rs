//! The resource store: keyed storage with monotonic id allocation, field
//! validation, category filtering, and the admin-gated verification flag.

use vstd::prelude::*;
use crate::resource::{
    CallerId, CreateResourcePayload, EczemaError, EczemaResource, ResourceCategory,
    valid_input, validate_input, validation_error_for,
};

verus! {

/// Ids occur in strictly increasing order, so each id occurs at most once.
pub open spec fn ids_sorted(s: Seq<EczemaResource>) -> bool {
    forall|i: int, j: int| 0 <= i < j < s.len() ==> #[trigger] s[i].id < #[trigger] s[j].id
}

/// Some stored resource carries this id.
pub open spec fn has_id(s: Seq<EczemaResource>, id: u64) -> bool {
    exists|i: int| 0 <= i < s.len() && (#[trigger] s[i]).id == id
}

/// The position of the resource that carries this id; meaningful when
/// `has_id(s, id)` holds and, under `ids_sorted`, unique.
pub open spec fn idx_of(s: Seq<EczemaResource>, id: u64) -> int {
    choose|i: int| 0 <= i < s.len() && (#[trigger] s[i]).id == id
}

/// Well-formedness of a store's persisted content: ids strictly sorted,
/// every id below `next_id`, the counter at least 1, and every stored
/// resource within the validation bounds.
pub open spec fn store_state_wf(s: Seq<EczemaResource>, next_id: u64) -> bool {
    &&& ids_sorted(s)
    &&& forall|i: int| 0 <= i < s.len() ==> (#[trigger] s[i]).id < next_id
    &&& 1 <= next_id
    &&& forall|i: int| 0 <= i < s.len() ==> valid_input((#[trigger] s[i]).title@, s[i].description@)
}

/// The resource a successful create stores: a fresh id, the payload fields,
/// both timestamps at `now`, and the verification flag down.
pub open spec fn make_resource(
    id: u64,
    title: String,
    description: String,
    category: ResourceCategory,
    now: u64,
) -> EczemaResource {
    EczemaResource {
        id,
        title,
        description,
        category,
        created_at: now,
        updated_at: now,
        verified: false,
    }
}

/// The resource an update stores: new title, description and category, a
/// refreshed `updated_at`, and `id`, `created_at`, `verified` untouched.
pub open spec fn with_update(
    r: EczemaResource,
    title: String,
    description: String,
    category: ResourceCategory,
    now: u64,
) -> EczemaResource {
    EczemaResource {
        id: r.id,
        title,
        description,
        category,
        created_at: r.created_at,
        updated_at: now,
        verified: r.verified,
    }
}

/// The resource a verification stores: the flag raised, `updated_at`
/// refreshed, every other field untouched.
pub open spec fn with_verified(r: EczemaResource, now: u64) -> EczemaResource {
    EczemaResource {
        id: r.id,
        title: r.title,
        description: r.description,
        category: r.category,
        created_at: r.created_at,
        updated_at: now,
        verified: true,
    }
}

/// The subsequence of `s` whose category equals `category`, in order.
pub open spec fn in_category(s: Seq<EczemaResource>, category: ResourceCategory) -> Seq<EczemaResource>
    decreases s.len(),
{
    if s.len() == 0 {
        Seq::empty()
    } else if s.last().category == category {
        in_category(s.drop_last(), category).push(s.last())
    } else {
        in_category(s.drop_last(), category)
    }
}

/// The whole mutable state: the resources sorted by id, the id counter, and
/// the optional admin identity.
pub struct EczemaStore {
    pub resources: Vec<EczemaResource>,
    pub next_id: u64,
    pub admin: Option<CallerId>,
}

impl EczemaStore {
    /// The store's invariant over its persisted content.
    pub open spec fn wf(self) -> bool {
        store_state_wf(self.resources@, self.next_id)
    }

    /// The admin identity as bytes, if one was set.
    pub open spec fn admin_id(self) -> Option<Seq<u8>> {
        match self.admin {
            Some(c) => Some(c.bytes@),
            None => None,
        }
    }

    /// A fresh store: no resources, the counter at 1, no admin.
    pub fn new() -> (s: EczemaStore)
        ensures
            s.wf(),
            s.resources@ == Seq::<EczemaResource>::empty(),
            s.next_id == 1,
            s.admin_id() is None,
    {
        let s = EczemaStore { resources: Vec::new(), next_id: 1, admin: None };
        proof {
            assert(s.resources@ =~= Seq::<EczemaResource>::empty());
        }
        s
    }

    /// Whether `caller` is the current admin; false whenever no admin is set.
    pub fn is_admin(&self, caller: &CallerId) -> (r: bool)
        ensures
            r == (self.admin_id() == Some(caller.bytes@)),
    {
        match &self.admin {
            None => false,
            Some(a) => bytes_eq(&a.bytes, &caller.bytes),
        }
    }

    /// Unconditionally overwrites the admin identity. By design this carries
    /// no authorization check of its own: the latest caller wins.
    pub fn set_admin(&mut self, caller: CallerId) -> (r: Result<(), EczemaError>)
        ensures
            r matches Ok(_),
            final(self).admin_id() == Some(caller.bytes@),
            final(self).resources@ == old(self).resources@,
            final(self).next_id == old(self).next_id,
    {
        self.admin = Some(caller);
        Ok(())
    }

    /// Validates the payload, then stores a new resource under a fresh id.
    /// A failed validation consumes no id and changes nothing.
    pub fn create_resource(&mut self, payload: CreateResourcePayload, now: u64) -> (r: Result<
        EczemaResource,
        EczemaError,
    >)
        requires
            old(self).wf(),
            valid_input(payload.title@, payload.description@) ==> old(self).next_id < u64::MAX,
        ensures
            final(self).wf(),
            final(self).admin_id() == old(self).admin_id(),
            !valid_input(payload.title@, payload.description@) ==> (r matches Err(e)
                && validation_error_for(payload.title@, payload.description@, e)
                && *final(self) == *old(self)),
            valid_input(payload.title@, payload.description@) ==> (r matches Ok(res)
                && res == make_resource(old(self).next_id, payload.title, payload.description, payload.category, now)
                && !has_id(old(self).resources@, res.id)
                && final(self).resources@ == old(self).resources@.push(res)
                && final(self).next_id == old(self).next_id + 1
                && has_id(final(self).resources@, res.id)
                && idx_of(final(self).resources@, res.id) == old(self).resources@.len()),
    {
        if let Err(e) = validate_input(payload.title.as_str(), payload.description.as_str()) {
            return Err(e);
        }
        let id = self.next_id;
        let resource = EczemaResource {
            id,
            title: payload.title,
            description: payload.description,
            category: payload.category,
            created_at: now,
            updated_at: now,
            verified: false,
        };
        let out = resource.clone();
        proof {
            assert(!has_id(self.resources@, id)) by {
                if has_id(self.resources@, id) {
                    let k = choose|k: int|
                        0 <= k < self.resources@.len() && (#[trigger] self.resources@[k]).id == id;
                    assert(self.resources@[k].id < self.next_id);
                }
            }
        }
        self.resources.push(resource);
        self.next_id = self.next_id + 1;
        proof {
            let s_old = old(self).resources@;
            let s_new = self.resources@;
            assert forall|i: int, j: int| 0 <= i < j < s_new.len() implies #[trigger] s_new[i].id
                < #[trigger] s_new[j].id by {
                if j < s_old.len() {
                    assert(s_old[i].id < s_old[j].id);
                } else {
                    assert(s_new[j] == resource);
                    assert(s_new[i] == s_old[i]);
                    assert(s_old[i].id < id);
                }
            }
            lemma_idx_of_found(s_new, id, s_old.len() as int);
        }
        Ok(out)
    }

    /// Pure lookup by id.
    pub fn get_resource(&self, id: u64) -> (r: Result<EczemaResource, EczemaError>)
        requires
            self.wf(),
        ensures
            has_id(self.resources@, id) ==> (r matches Ok(res)
                && res == self.resources@[idx_of(self.resources@, id)]),
            !has_id(self.resources@, id) ==> r == Err::<EczemaResource, EczemaError>(
                EczemaError::NotFound,
            ),
    {
        match find_index(&self.resources, id) {
            Some(i) => Ok(self.resources[i].clone()),
            None => Err(EczemaError::NotFound),
        }
    }

    /// Every stored resource, in id order. The order is stable as long as
    /// the store is not mutated.
    pub fn list_resources(&self) -> (r: Vec<EczemaResource>)
        ensures
            r@ == self.resources@,
    {
        let mut out: Vec<EczemaResource> = Vec::new();
        let mut i: usize = 0;
        while i < self.resources.len()
            invariant
                i <= self.resources@.len(),
                out@ == self.resources@.take(i as int),
            decreases self.resources@.len() - i,
        {
            out.push(self.resources[i].clone());
            proof {
                assert(self.resources@.take(i as int).push(self.resources@[i as int]) =~= self
                    .resources@
                    .take(i as int + 1));
            }
            i += 1;
        }
        proof {
            assert(self.resources@.take(self.resources@.len() as int) =~= self.resources@);
        }
        out
    }

    /// The stored resources whose category equals the argument, in id order.
    pub fn list_resources_by_category(&self, category: ResourceCategory) -> (r: Vec<EczemaResource>)
        ensures
            r@ == in_category(self.resources@, category),
    {
        let mut out: Vec<EczemaResource> = Vec::new();
        let mut i: usize = 0;
        while i < self.resources.len()
            invariant
                i <= self.resources@.len(),
                out@ == in_category(self.resources@.take(i as int), category),
            decreases self.resources@.len() - i,
        {
            proof {
                let s2 = self.resources@.take(i as int + 1);
                assert(s2.drop_last() =~= self.resources@.take(i as int));
                assert(s2.last() == self.resources@[i as int]);
            }
            if self.resources[i].category == category {
                out.push(self.resources[i].clone());
            }
            i += 1;
        }
        proof {
            assert(self.resources@.take(self.resources@.len() as int) =~= self.resources@);
        }
        out
    }

    /// Validates first, then overwrites the stored fields: a validation
    /// failure is reported even when the id is absent.
    pub fn update_resource(&mut self, id: u64, payload: CreateResourcePayload, now: u64) -> (r:
        Result<EczemaResource, EczemaError>)
        requires
            old(self).wf(),
        ensures
            final(self).wf(),
            final(self).next_id == old(self).next_id,
            final(self).admin_id() == old(self).admin_id(),
            !valid_input(payload.title@, payload.description@) ==> (r matches Err(e)
                && validation_error_for(payload.title@, payload.description@, e)
                && *final(self) == *old(self)),
            valid_input(payload.title@, payload.description@) && !has_id(old(self).resources@, id)
                ==> r == Err::<EczemaResource, EczemaError>(EczemaError::NotFound) && *final(self)
                == *old(self),
            valid_input(payload.title@, payload.description@) && has_id(old(self).resources@, id)
                ==> (r matches Ok(res)
                && res == with_update(
                    old(self).resources@[idx_of(old(self).resources@, id)],
                    payload.title, payload.description, payload.category, now,
                )
                && final(self).resources@ == old(self).resources@.update(
                    idx_of(old(self).resources@, id), res,
                )),
    {
        if let Err(e) = validate_input(payload.title.as_str(), payload.description.as_str()) {
            return Err(e);
        }
        match find_index(&self.resources, id) {
            None => Err(EczemaError::NotFound),
            Some(i) => {
                let updated = EczemaResource {
                    id: self.resources[i].id,
                    title: payload.title,
                    description: payload.description,
                    category: payload.category,
                    created_at: self.resources[i].created_at,
                    updated_at: now,
                    verified: self.resources[i].verified,
                };
                let out = updated.clone();
                self.resources[i] = updated;
                proof {
                    lemma_same_ids_wf(old(self).resources@, self.resources@, self.next_id);
                }
                Ok(out)
            }
        }
    }

    /// Removes the resource under `id`. The id is never handed out again:
    /// `next_id` does not move.
    pub fn delete_resource(&mut self, id: u64) -> (r: Result<(), EczemaError>)
        requires
            old(self).wf(),
        ensures
            final(self).wf(),
            final(self).next_id == old(self).next_id,
            final(self).admin_id() == old(self).admin_id(),
            !has_id(old(self).resources@, id) ==> r == Err::<(), EczemaError>(EczemaError::NotFound)
                && *final(self) == *old(self),
            has_id(old(self).resources@, id) ==> (r matches Ok(_)
                && final(self).resources@ == old(self).resources@.remove(
                    idx_of(old(self).resources@, id),
                )
                && !has_id(final(self).resources@, id)),
    {
        match find_index(&self.resources, id) {
            None => Err(EczemaError::NotFound),
            Some(i) => {
                self.resources.remove(i);
                proof {
                    let s_old = old(self).resources@;
                    let s_new = self.resources@;
                    assert forall|k: int| 0 <= k < s_new.len() implies (#[trigger] s_new[k])
                        == (if k < i { s_old[k] } else { s_old[k + 1] }) by {
                        assert(s_new == s_old.remove(i as int));
                    }
                    assert forall|p: int, q: int| 0 <= p < q < s_new.len() implies
                        #[trigger] s_new[p].id < #[trigger] s_new[q].id by {
                        let p0: int = if p < i { p } else { p + 1 };
                        let q0: int = if q < i { q } else { q + 1 };
                        assert(s_old[p0].id < s_old[q0].id);
                    }
                    assert(!has_id(s_new, id)) by {
                        if has_id(s_new, id) {
                            let k = choose|k: int|
                                0 <= k < s_new.len() && (#[trigger] s_new[k]).id == id;
                            let k0: int = if k < i { k } else { k + 1 };
                            assert(s_old[k0].id == id);
                            if k0 < i as int {
                                assert(s_old[k0].id < s_old[i as int].id);
                            } else {
                                assert(s_old[i as int].id < s_old[k0].id);
                            }
                        }
                    }
                }
                Ok(())
            }
        }
    }

    /// Raises the verification flag on the resource under `id`, provided the
    /// caller is the current admin. With no admin set, every caller is
    /// unauthorized. The authorization check precedes the lookup.
    pub fn verify_resource(&mut self, id: u64, caller: &CallerId, now: u64) -> (r: Result<
        EczemaResource,
        EczemaError,
    >)
        requires
            old(self).wf(),
        ensures
            final(self).wf(),
            final(self).next_id == old(self).next_id,
            final(self).admin_id() == old(self).admin_id(),
            old(self).admin_id() is None ==> r == Err::<EczemaResource, EczemaError>(
                EczemaError::Unauthorized,
            ) && *final(self) == *old(self),
            old(self).admin_id() != Some(caller.bytes@) ==> r == Err::<EczemaResource, EczemaError>(
                EczemaError::Unauthorized,
            ) && *final(self) == *old(self),
            old(self).admin_id() == Some(caller.bytes@) && !has_id(old(self).resources@, id) ==> r
                == Err::<EczemaResource, EczemaError>(EczemaError::NotFound) && *final(self)
                == *old(self),
            old(self).admin_id() == Some(caller.bytes@) && has_id(old(self).resources@, id) ==> (r
                matches Ok(res)
                && res == with_verified(old(self).resources@[idx_of(old(self).resources@, id)], now)
                && res.verified
                && final(self).resources@ == old(self).resources@.update(
                    idx_of(old(self).resources@, id), res,
                )),
    {
        if !self.is_admin(caller) {
            return Err(EczemaError::Unauthorized);
        }
        match find_index(&self.resources, id) {
            None => Err(EczemaError::NotFound),
            Some(i) => {
                let verified = EczemaResource {
                    id: self.resources[i].id,
                    title: self.resources[i].title.clone(),
                    description: self.resources[i].description.clone(),
                    category: self.resources[i].category,
                    created_at: self.resources[i].created_at,
                    updated_at: now,
                    verified: true,
                };
                let out = verified.clone();
                self.resources[i] = verified;
                proof {
                    lemma_same_ids_wf(old(self).resources@, self.resources@, self.next_id);
                }
                Ok(out)
            }
        }
    }
}

/// Law: in a well-formed store every stored id lies strictly below
/// `next_id`, so the id the next successful create hands out is never one
/// already present — ids are not reused, deletions included.
pub proof fn lemma_next_id_fresh(s: EczemaStore)
    requires
        s.wf(),
    ensures
        !has_id(s.resources@, s.next_id),
{
    if has_id(s.resources@, s.next_id) {
        let k = choose|k: int|
            0 <= k < s.resources@.len() && (#[trigger] s.resources@[k]).id == s.next_id;
        assert(s.resources@[k].id < s.next_id);
    }
}

/// Under sorted ids, a position holding `id` is the position `idx_of` names.
pub proof fn lemma_idx_of_found(s: Seq<EczemaResource>, id: u64, i: int)
    requires
        ids_sorted(s),
        0 <= i < s.len(),
        s[i].id == id,
    ensures
        has_id(s, id),
        idx_of(s, id) == i,
{
    assert(has_id(s, id));
    let j = idx_of(s, id);
    assert(0 <= j < s.len() && s[j].id == id);
    if j < i {
        assert(s[j].id < s[i].id);
    } else if i < j {
        assert(s[i].id < s[j].id);
    }
}

/// Replacing entries without touching any id preserves well-formedness when
/// the replacements stay within the validation bounds.
proof fn lemma_same_ids_wf(s_old: Seq<EczemaResource>, s_new: Seq<EczemaResource>, next_id: u64)
    requires
        store_state_wf(s_old, next_id),
        s_new.len() == s_old.len(),
        forall|k: int| 0 <= k < s_new.len() ==> (#[trigger] s_new[k]).id == s_old[k].id,
        forall|k: int| 0 <= k < s_new.len() ==> valid_input(
            (#[trigger] s_new[k]).title@, s_new[k].description@,
        ),
    ensures
        store_state_wf(s_new, next_id),
{
    assert forall|i: int, j: int| 0 <= i < j < s_new.len() implies #[trigger] s_new[i].id
        < #[trigger] s_new[j].id by {
        assert(s_old[i].id < s_old[j].id);
    }
    assert forall|i: int| 0 <= i < s_new.len() implies (#[trigger] s_new[i]).id < next_id by {
        assert(s_old[i].id < next_id);
    }
}

/// Linear scan for the position of `id`.
fn find_index(resources: &Vec<EczemaResource>, id: u64) -> (r: Option<usize>)
    requires
        ids_sorted(resources@),
    ensures
        r matches Some(i) ==> i < resources@.len() && resources@[i as int].id == id && idx_of(
            resources@, id,
        ) == i as int && has_id(resources@, id),
        r is None ==> !has_id(resources@, id),
{
    let mut i: usize = 0;
    while i < resources.len()
        invariant
            ids_sorted(resources@),
            i <= resources@.len(),
            forall|k: int| 0 <= k < i ==> (#[trigger] resources@[k]).id != id,
        decreases resources@.len() - i,
    {
        if resources[i].id == id {
            proof {
                lemma_idx_of_found(resources@, id, i as int);
            }
            return Some(i);
        }
        i += 1;
    }
    proof {
        assert(!has_id(resources@, id)) by {
            if has_id(resources@, id) {
                let k = choose|k: int|
                    0 <= k < resources@.len() && (#[trigger] resources@[k]).id == id;
                assert(resources@[k].id != id);
            }
        }
    }
    None
}

/// Byte-for-byte equality of two identities.
fn bytes_eq(a: &Vec<u8>, b: &Vec<u8>) -> (r: bool)
    ensures
        r == (a@ == b@),
{
    if a.len() != b.len() {
        proof {
            if a@ == b@ {
                assert(a@.len() == b@.len());
            }
        }
        return false;
    }
    let mut i: usize = 0;
    while i < a.len()
        invariant
            a@.len() == b@.len(),
            i <= a@.len(),
            forall|k: int| 0 <= k < i ==> a@[k] == b@[k],
        decreases a@.len() - i,
    {
        if a[i] != b[i] {
            proof {
                if a@ == b@ {
                    assert(a@[i as int] == b@[i as int]);
                }
            }
            return false;
        }
        i += 1;
    }
    proof {
        assert(a@ =~= b@);
    }
    true
}

} // verus!
