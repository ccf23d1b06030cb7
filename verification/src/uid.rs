//! Bidirectional mapping between stable network identities and local world
//! handles.
//!
//! The allocator owns both directions of the mapping and keeps them a
//! bijection: a handle has at most one identity and an identity at most one
//! handle. Allocation fails if the requested identity (or the handle) is
//! already bound; lookups of unknown identities fail loudly with an error, a
//! protocol violation rather than a routine absence.

use vstd::prelude::*;

use std::collections::HashMap;

use crate::error::SyncError;

verus! {

broadcast use vstd::std_specs::hash::group_hash_axioms;

/// The network identity value that is never handed out, so that the fresh
/// identity counter cannot overflow.
pub const RESERVED_UID: u64 = u64::MAX;

pub struct UidAllocator {
    pub uid_to_handle: HashMap<u64, u32>,
    pub handle_to_uid: HashMap<u32, u64>,
    pub next_uid: u64,
}

impl UidAllocator {
    /// The identity-to-handle direction of the mapping.
    pub open spec fn map(self) -> Map<u64, u32> {
        self.uid_to_handle@
    }

    /// True when the handle is bound to some identity.
    pub open spec fn handle_bound(self, handle: u32) -> bool {
        exists|u: u64| #[trigger] self.map().contains_key(u) && self.map()[u] == handle
    }

    /// Both directions agree pointwise, every bound identity lies below the
    /// fresh-identity counter, and the counter never reaches the reserved
    /// identity's successor.
    pub open spec fn wf(self) -> bool {
        &&& forall|u: u64| #[trigger] self.uid_to_handle@.contains_key(u)
            ==> self.handle_to_uid@.contains_key(self.uid_to_handle@[u])
                && self.handle_to_uid@[self.uid_to_handle@[u]] == u
        &&& forall|h: u32| #[trigger] self.handle_to_uid@.contains_key(h)
            ==> self.uid_to_handle@.contains_key(self.handle_to_uid@[h])
                && self.uid_to_handle@[self.handle_to_uid@[h]] == h
        &&& forall|u: u64| #[trigger] self.uid_to_handle@.contains_key(u) ==> u < self.next_uid
        &&& self.next_uid <= RESERVED_UID
    }

    pub fn new() -> (a: Self)
        ensures
            a.wf(),
            a.map() == Map::<u64, u32>::empty(),
            a.next_uid == 1u64,
    {
        UidAllocator {
            uid_to_handle: HashMap::new(),
            handle_to_uid: HashMap::new(),
            next_uid: 1,
        }
    }

    /// Resolves an identity to its local handle; an unknown identity is a
    /// protocol violation and fails loudly.
    pub fn get_by_uid(&self, uid: u64) -> (r: Result<u32, SyncError>)
        ensures
            r is Ok <==> self.map().contains_key(uid),
            r is Ok ==> r->Ok_0 == self.map()[uid],
            r is Err ==> r->Err_0 == SyncError::UnknownIdentity(uid),
    {
        match self.uid_to_handle.get(&uid) {
            Some(h) => Ok(*h),
            None => Err(SyncError::UnknownIdentity(uid)),
        }
    }

    /// Resolves a local handle to its identity; the reverse direction of
    /// `get_by_uid`.
    pub fn get_by_handle(&self, handle: u32) -> (r: Result<u64, SyncError>)
        requires
            self.wf(),
        ensures
            r is Ok <==> self.handle_bound(handle),
            r is Ok ==> self.map().contains_key(r->Ok_0) && self.map()[r->Ok_0] == handle,
            r is Err ==> r->Err_0 == SyncError::HandleInUse(handle),
    {
        match self.handle_to_uid.get(&handle) {
            Some(u) => {
                proof {
                    assert(self.handle_to_uid@.contains_key(handle));
                    assert(self.map().contains_key(self.handle_to_uid@[handle]));
                }
                Ok(*u)
            },
            None => {
                proof {
                    assert forall|u: u64| #[trigger] self.map().contains_key(u)
                        implies self.map()[u] != handle by {
                        assert(self.handle_to_uid@.contains_key(self.map()[u]));
                    }
                }
                Err(SyncError::HandleInUse(handle))
            },
        }
    }

    /// Binds a handle to an identity: the requested one when given (the server
    /// dictates identities to clients), else a freshly minted one. Fails if the
    /// identity or the handle is already bound, or if the identity space is
    /// exhausted; on failure nothing changes.
    pub fn allocate(&mut self, handle: u32, requested: Option<u64>) -> (r: Result<
        u64,
        SyncError,
    >)
        requires
            old(self).wf(),
        ensures
            final(self).wf(),
            match r {
                Ok(uid) => {
                    &&& final(self).map() == old(self).map().insert(uid, handle)
                    &&& !old(self).map().contains_key(uid)
                    &&& !old(self).handle_bound(handle)
                    &&& match requested {
                        Some(u) => uid == u,
                        None => uid == old(self).next_uid,
                    }
                },
                Err(e) => {
                    &&& *final(self) == *old(self)
                    &&& match requested {
                        Some(u) => {
                            if u >= RESERVED_UID {
                                e == SyncError::IdentityExhausted
                            } else if old(self).map().contains_key(u) {
                                e == SyncError::IdentityInUse(u)
                            } else {
                                old(self).handle_bound(handle)
                                    && e == SyncError::HandleInUse(handle)
                            }
                        },
                        None => {
                            if old(self).next_uid >= RESERVED_UID {
                                e == SyncError::IdentityExhausted
                            } else {
                                old(self).handle_bound(handle)
                                    && e == SyncError::HandleInUse(handle)
                            }
                        },
                    }
                },
            },
            r is Ok <==> match requested {
                Some(u) => u < RESERVED_UID && !old(self).map().contains_key(u)
                    && !old(self).handle_bound(handle),
                None => old(self).next_uid < RESERVED_UID && !old(self).handle_bound(handle),
            },
    {
        let uid: u64;
        match requested {
            Some(u) => {
                if u >= RESERVED_UID {
                    return Err(SyncError::IdentityExhausted);
                }
                if self.uid_to_handle.contains_key(&u) {
                    return Err(SyncError::IdentityInUse(u));
                }
                uid = u;
            },
            None => {
                if self.next_uid >= RESERVED_UID {
                    return Err(SyncError::IdentityExhausted);
                }
                uid = self.next_uid;
                proof {
                    assert(!self.map().contains_key(uid));
                }
            },
        }
        if self.handle_to_uid.contains_key(&handle) {
            proof {
                let u0 = self.handle_to_uid@[handle];
                assert(self.map().contains_key(u0) && self.map()[u0] == handle);
            }
            return Err(SyncError::HandleInUse(handle));
        }
        proof {
            assert(forall|u: u64| #[trigger] self.map().contains_key(u)
                ==> self.map()[u] != handle);
        }
        self.uid_to_handle.insert(uid, handle);
        self.handle_to_uid.insert(handle, uid);
        if uid >= self.next_uid {
            self.next_uid = uid + 1;
        }
        Ok(uid)
    }

    /// Frees both directions of an identity's binding and returns the handle
    /// it was bound to; an unknown identity fails loudly and changes nothing.
    pub fn deallocate(&mut self, uid: u64) -> (r: Result<u32, SyncError>)
        requires
            old(self).wf(),
        ensures
            final(self).wf(),
            r is Ok <==> old(self).map().contains_key(uid),
            match r {
                Ok(handle) => {
                    &&& handle == old(self).map()[uid]
                    &&& final(self).map() == old(self).map().remove(uid)
                    &&& !final(self).handle_bound(handle)
                },
                Err(e) => {
                    &&& final(self).map() == old(self).map()
                    &&& final(self).handle_to_uid@ == old(self).handle_to_uid@
                    &&& final(self).next_uid == old(self).next_uid
                    &&& e == SyncError::UnknownIdentity(uid)
                },
            },
    {
        match self.uid_to_handle.remove(&uid) {
            Some(handle) => {
                proof {
                    assert(old(self).map().contains_key(uid)
                        && old(self).map()[uid] == handle);
                    assert(old(self).handle_to_uid@.contains_key(handle)
                        && old(self).handle_to_uid@[handle] == uid);
                }
                self.handle_to_uid.remove(&handle);
                proof {
                    assert(self.uid_to_handle@ == old(self).uid_to_handle@.remove(uid));
                    assert(self.handle_to_uid@ == old(self).handle_to_uid@.remove(handle));
                    assert forall|u: u64| #[trigger] self.uid_to_handle@.contains_key(u)
                        implies self.handle_to_uid@.contains_key(self.uid_to_handle@[u])
                            && self.handle_to_uid@[self.uid_to_handle@[u]] == u by {
                        assert(old(self).uid_to_handle@.contains_key(u) && u != uid);
                        assert(old(self).uid_to_handle@[u] == self.uid_to_handle@[u]);
                        // injectivity: u's handle differs from the removed one
                        if self.uid_to_handle@[u] == handle {
                            assert(old(self).handle_to_uid@[handle] == u);
                        }
                    }
                    assert forall|h: u32| #[trigger] self.handle_to_uid@.contains_key(h)
                        implies self.uid_to_handle@.contains_key(self.handle_to_uid@[h])
                            && self.uid_to_handle@[self.handle_to_uid@[h]] == h by {
                        assert(old(self).handle_to_uid@.contains_key(h) && h != handle);
                        if self.handle_to_uid@[h] == uid {
                            assert(old(self).uid_to_handle@[uid] == h);
                        }
                    }
                    assert forall|u: u64| #[trigger] self.map().contains_key(u)
                        implies self.map()[u] != handle by {
                        assert(old(self).map().contains_key(u) && u != uid);
                        if old(self).map()[u] == handle {
                            assert(old(self).handle_to_uid@[handle] == u);
                        }
                    }
                }
                Ok(handle)
            },
            None => Err(SyncError::UnknownIdentity(uid)),
        }
    }
}

/// The mapping is a bijection: distinct bound identities have distinct
/// handles, and distinct bound handles have distinct identities. This holds
/// after any sequence of `allocate` and `deallocate` calls, since each leaves
/// `wf` standing.
pub proof fn lemma_allocator_bijection(a: UidAllocator)
    requires
        a.wf(),
    ensures
        forall|u1: u64, u2: u64|
            #[trigger] a.map().contains_key(u1) && #[trigger] a.map().contains_key(u2)
                && a.map()[u1] == a.map()[u2] ==> u1 == u2,
{
    assert forall|u1: u64, u2: u64|
        #[trigger] a.map().contains_key(u1) && #[trigger] a.map().contains_key(u2)
            && a.map()[u1] == a.map()[u2] implies u1 == u2 by {
        assert(a.handle_to_uid@[a.map()[u1]] == u1);
        assert(a.handle_to_uid@[a.map()[u2]] == u2);
    }
}

} // verus!
