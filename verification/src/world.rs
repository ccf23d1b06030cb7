//! Local entity/component storage, seen through point operations.
//!
//! The reconciliation engine never iterates the world: it creates and deletes
//! handles and attaches, detaches and reads single components, exactly the
//! interface the host storage collaborator must expose. Component payloads
//! are deterministically encoded bytes keyed by the component's wire id.
//!
//! The storage is specified by its abstraction: a finite map from live
//! handles to maps from wire ids to payload bytes.

use vstd::prelude::*;

use std::collections::HashMap;

use crate::error::SyncError;
use crate::keys::{pack, handle_of, comp_of, pack_key};

verus! {

broadcast use {vstd::std_specs::hash::group_hash_axioms, crate::keys::lemma_pack_inverse, crate::keys::lemma_pack_unpack};

/// The abstraction of a world: live handles to their components' payloads.
pub type WorldAbs = Map<u32, Map<u32, Seq<u8>>>;

/// No element occurs twice.
pub open spec fn distinct_u32s(s: Seq<u32>) -> bool {
    forall|i: int, j: int| 0 <= i < j < s.len() ==> s[i] != s[j]
}

/// True when the vector holds the value.
pub fn contains_u32(v: &Vec<u32>, x: u32) -> (r: bool)
    ensures
        r == v@.contains(x),
{
    let mut i: usize = 0;
    let n = v.len();
    while i < n
        invariant
            n == v@.len(),
            i <= n,
            forall|j: int| 0 <= j < i ==> v@[j] != x,
        decreases n - i,
    {
        if v[i] == x {
            return true;
        }
        i = i + 1;
    }
    false
}

/// Index of the value in the vector, when present.
fn index_of_u32(v: &Vec<u32>, x: u32) -> (r: Option<usize>)
    ensures
        match r {
            Some(i) => i < v@.len() && v@[i as int] == x,
            None => !v@.contains(x),
        },
{
    let mut i: usize = 0;
    let n = v.len();
    while i < n
        invariant
            n == v@.len(),
            i <= n,
            forall|j: int| 0 <= j < i ==> v@[j] != x,
        decreases n - i,
    {
        if v[i] == x {
            return Some(i);
        }
        i = i + 1;
    }
    None
}

pub struct WorldStorage {
    /// Live handles, each with the wire ids of its attached components.
    pub entities: HashMap<u32, Vec<u32>>,
    /// Payload bytes keyed by packed (handle, wire id).
    pub data: HashMap<u64, Vec<u8>>,
    /// Handles are minted in increasing order; all live handles lie below.
    pub next_handle: u32,
}

impl WorldStorage {
    /// Live handles carry distinct component ids, every listed component has
    /// its payload stored, every stored payload belongs to a live handle's
    /// listed component, and all live handles lie below the mint counter.
    pub open spec fn wf(self) -> bool {
        &&& forall|h: u32| #[trigger] self.entities@.contains_key(h) ==> h < self.next_handle
        &&& forall|h: u32| #[trigger] self.entities@.contains_key(h)
            ==> distinct_u32s(self.entities@[h]@)
        &&& forall|h: u32, c: u32|
            #[trigger] self.entities@.contains_key(h) && #[trigger] self.entities@[h]@.contains(c)
                ==> self.data@.contains_key(pack(h, c))
        &&& forall|k: u64| #[trigger] self.data@.contains_key(k)
            ==> self.entities@.contains_key(handle_of(k))
                && self.entities@[handle_of(k)]@.contains(comp_of(k))
    }

    /// The storage as a map from live handles to their components' payloads.
    pub open spec fn abs(self) -> WorldAbs {
        Map::new(
            |h: u32| self.entities@.contains_key(h),
            |h: u32|
                Map::new(
                    |c: u32| self.entities@[h]@.contains(c),
                    |c: u32| self.data@[pack(h, c)]@,
                ),
        )
    }

    pub fn new() -> (r: Self)
        ensures
            r.wf(),
            r.abs() == Map::<u32, Map<u32, Seq<u8>>>::empty(),
            r.next_handle == 0u32,
    {
        let r = WorldStorage {
            entities: HashMap::new(),
            data: HashMap::new(),
            next_handle: 0,
        };
        proof {
            assert(r.abs() =~= Map::<u32, Map<u32, Seq<u8>>>::empty());
        }
        r
    }

    pub fn is_alive(&self, h: u32) -> (r: bool)
        ensures
            r == self.abs().contains_key(h),
    {
        self.entities.contains_key(&h)
    }

    /// The number of live entities.
    pub fn entity_count(&self) -> (n: usize)
        ensures
            n == self.abs().dom().len(),
    {
        proof {
            assert(self.abs().dom() =~= self.entities@.dom());
        }
        self.entities.len()
    }

    /// Mints a fresh handle with no components; fails only when the handle
    /// space is exhausted, leaving the world unchanged.
    pub fn create_entity(&mut self) -> (r: Result<u32, SyncError>)
        requires
            old(self).wf(),
        ensures
            final(self).wf(),
            r is Ok <==> old(self).next_handle < u32::MAX,
            r is Err ==> *final(self) == *old(self) && r->Err_0 == SyncError::HandleExhausted,
            r is Ok ==> {
                &&& r->Ok_0 == old(self).next_handle
                &&& !old(self).abs().contains_key(r->Ok_0)
                &&& final(self).abs() == old(self).abs().insert(
                    r->Ok_0,
                    Map::<u32, Seq<u8>>::empty(),
                )
                &&& final(self).next_handle == old(self).next_handle + 1
                &&& final(self).data@ == old(self).data@
            },
    {
        if self.next_handle == u32::MAX {
            return Err(SyncError::HandleExhausted);
        }
        let h = self.next_handle;
        self.entities.insert(h, Vec::new());
        self.next_handle = self.next_handle + 1;
        proof {
            assert forall|k: u64| #[trigger] self.data@.contains_key(k)
                implies self.entities@.contains_key(handle_of(k))
                    && self.entities@[handle_of(k)]@.contains(comp_of(k)) by {
                assert(old(self).entities@.contains_key(handle_of(k)));
                assert(handle_of(k) != h);
            }
            assert(self.abs() =~~= old(self).abs().insert(h, Map::<u32, Seq<u8>>::empty()));
        }
        Ok(h)
    }

    /// Deletes a handle and every component stored under it; deleting a dead
    /// handle changes nothing.
    pub fn delete_entity(&mut self, h: u32)
        requires
            old(self).wf(),
        ensures
            final(self).wf(),
            final(self).abs() == old(self).abs().remove(h),
            final(self).next_handle == old(self).next_handle,
    {
        let removed = self.entities.remove(&h);
        match removed {
            None => {
                proof {
                    assert(self.entities@ =~= old(self).entities@);
                    assert(self.abs() =~~= old(self).abs().remove(h));
                }
            },
            Some(list) => {
                let n = list.len();
                let mut j: usize = 0;
                while j < n
                    invariant
                        n == list@.len(),
                        j <= n,
                        self.entities@ == old(self).entities@.remove(h),
                        old(self).wf(),
                        old(self).entities@.contains_key(h),
                        list@ == old(self).entities@[h]@,
                        self.next_handle == old(self).next_handle,
                        forall|k: u64| #[trigger] self.data@.contains_key(k)
                            ==> old(self).data@.contains_key(k)
                                && self.data@[k] == old(self).data@[k],
                        forall|k: u64| #[trigger] old(self).data@.contains_key(k)
                            && !(handle_of(k) == h && list@.take(j as int).contains(comp_of(k)))
                            ==> self.data@.contains_key(k),
                        forall|k: u64| handle_of(k) == h
                            && list@.take(j as int).contains(comp_of(k))
                            ==> !(#[trigger] self.data@.contains_key(k)),
                    decreases n - j,
                {
                    let c = list[j];
                    let k = pack_key(h, c);
                    self.data.remove(&k);
                    proof {
                        assert(list@.take(j as int + 1)[j as int] == list@[j as int]);
                        assert(list@.take(j as int + 1).contains(c));
                        assert forall|k2: u64| handle_of(k2) == h
                            && list@.take(j as int + 1).contains(comp_of(k2))
                            implies !(#[trigger] self.data@.contains_key(k2)) by {
                            if comp_of(k2) == c {
                                assert(k2 == pack(h, c));
                            } else {
                                let q = choose|q: int| 0 <= q < j + 1
                                    && #[trigger] list@.take(j as int + 1)[q] == comp_of(k2);
                                assert(list@.take(j as int)[q] == comp_of(k2));
                                assert(list@.take(j as int).contains(comp_of(k2)));
                            }
                        }
                        assert forall|k2: u64| #[trigger] old(self).data@.contains_key(k2)
                            && !(handle_of(k2) == h
                                && list@.take(j as int + 1).contains(comp_of(k2)))
                            implies self.data@.contains_key(k2) by {
                            assert(!list@.take(j as int).contains(comp_of(k2))
                                || handle_of(k2) != h) by {
                                if handle_of(k2) == h && list@.take(j as int).contains(
                                    comp_of(k2),
                                ) {
                                    assert(list@.take(j as int + 1).contains(comp_of(k2)));
                                }
                            }
                            assert(k2 != pack(h, c));
                        }
                    }
                    j = j + 1;
                }
                proof {
                    assert(list@.take(n as int) =~= list@);
                    // every stored key of handle h was removed
                    assert forall|k: u64| #[trigger] self.data@.contains_key(k)
                        implies handle_of(k) != h by {
                        if handle_of(k) == h {
                            assert(old(self).data@.contains_key(k));
                            assert(old(self).entities@[h]@.contains(comp_of(k)));
                            assert(list@.contains(comp_of(k)));
                        }
                    }
                    assert forall|k: u64| #[trigger] self.data@.contains_key(k)
                        implies self.entities@.contains_key(handle_of(k))
                            && self.entities@[handle_of(k)]@.contains(comp_of(k)) by {
                        assert(old(self).data@.contains_key(k));
                        assert(handle_of(k) != h);
                    }
                    assert forall|h2: u32, c2: u32|
                        #[trigger] self.entities@.contains_key(h2)
                            && #[trigger] self.entities@[h2]@.contains(c2)
                        implies self.data@.contains_key(pack(h2, c2)) by {
                        assert(old(self).entities@.contains_key(h2) && h2 != h);
                        assert(old(self).data@.contains_key(pack(h2, c2)));
                        assert(handle_of(pack(h2, c2)) == h2);
                        if list@.contains(comp_of(pack(h2, c2))) && handle_of(pack(h2, c2)) == h {
                        }
                    }
                    assert(self.abs() =~~= old(self).abs().remove(h));
                }
            },
        }
    }

    /// Attaches (or overwrites) one component's payload under a live handle;
    /// attaching to a dead handle is refused and changes nothing.
    #[verifier::rlimit(80)]
    pub fn attach(&mut self, h: u32, c: u32, bytes: Vec<u8>) -> (r: Result<(), SyncError>)
        requires
            old(self).wf(),
        ensures
            final(self).wf(),
            final(self).next_handle == old(self).next_handle,
            r is Ok <==> old(self).abs().contains_key(h),
            r is Ok ==> final(self).abs() == old(self).abs().insert(
                h,
                old(self).abs()[h].insert(c, bytes@),
            ),
            r is Err ==> final(self).abs() == old(self).abs()
                && r->Err_0 == SyncError::DeadEntity(h),
    {
        let taken = self.entities.remove(&h);
        match taken {
            None => {
                proof {
                    assert(self.entities@ =~= old(self).entities@);
                    assert(self.abs() =~~= old(self).abs());
                }
                Err(SyncError::DeadEntity(h))
            },
            Some(mut list) => {
                let ghost old_list = list@;
                let present = contains_u32(&list, c);
                if !present {
                    list.push(c);
                }
                proof {
                    if !present {
                        assert(list@ == old_list.push(c));
                        assert(distinct_u32s(list@)) by {
                            assert forall|x: int, y: int| 0 <= x < y < list@.len()
                                implies list@[x] != list@[y] by {
                                if y == old_list.len() {
                                    assert(list@[y] == c);
                                    assert(list@[x] == old_list[x]);
                                    assert(old_list.contains(old_list[x]) === (exists|q: int|
                                        0 <= q < old_list.len() && old_list[q] == old_list[x]));
                                    assert(old_list[x] != c) by {
                                        if old_list[x] == c {
                                            assert(old_list.contains(c));
                                        }
                                    }
                                }
                            }
                        }
                    }
                    assert forall|c2: u32| #[trigger] list@.contains(c2)
                        implies old_list.contains(c2) || c2 == c by {
                        let j = choose|j: int| 0 <= j < list@.len() && list@[j] == c2;
                        if j < old_list.len() {
                            assert(old_list[j] == c2);
                        }
                    }
                    assert forall|c2: u32| old_list.contains(c2) || c2 == c
                        implies #[trigger] list@.contains(c2) by {
                        if old_list.contains(c2) {
                            let j = choose|j: int|
                                0 <= j < old_list.len() && old_list[j] == c2;
                            assert(list@[j] == c2);
                        } else {
                            if present {
                                assert(old_list.contains(c));
                            } else {
                                assert(list@[old_list.len() as int] == c);
                            }
                        }
                    }
                }
                self.entities.insert(h, list);
                let k = pack_key(h, c);
                self.data.insert(k, bytes);
                proof {
                    assert forall|k2: u64| #[trigger] self.data@.contains_key(k2)
                        implies self.entities@.contains_key(handle_of(k2))
                            && self.entities@[handle_of(k2)]@.contains(comp_of(k2)) by {
                        if k2 == pack(h, c) {
                            assert(self.entities@[h]@.contains(c));
                        } else {
                            assert(old(self).data@.contains_key(k2));
                            if handle_of(k2) == h {
                                assert(old(self).entities@[h]@.contains(comp_of(k2)));
                            }
                        }
                    }
                    assert forall|h2: u32, c2: u32|
                        #[trigger] self.entities@.contains_key(h2)
                            && #[trigger] self.entities@[h2]@.contains(c2)
                        implies self.data@.contains_key(pack(h2, c2)) by {
                        if h2 == h {
                            if c2 != c {
                                assert(old_list.contains(c2));
                                assert(old(self).data@.contains_key(pack(h, c2)));
                            }
                        } else {
                            assert(old(self).entities@.contains_key(h2));
                            assert(old(self).data@.contains_key(pack(h2, c2)));
                        }
                    }
                    assert forall|h2: u32| #[trigger] self.entities@.contains_key(h2)
                        implies h2 < self.next_handle by {
                        if h2 != h {
                            assert(old(self).entities@.contains_key(h2));
                        } else {
                            assert(old(self).entities@.contains_key(h));
                        }
                    }
                    assert forall|h2: u32| #[trigger] self.entities@.contains_key(h2)
                        implies distinct_u32s(self.entities@[h2]@) by {
                        if h2 != h {
                            assert(old(self).entities@.contains_key(h2));
                        }
                    }
                    assert(self.abs() =~~= old(self).abs().insert(
                        h,
                        old(self).abs()[h].insert(c, bytes@),
                    )) by {
                        assert forall|h2: u32| self.entities@.contains_key(h2) && h2 != h
                            implies self.abs()[h2] =~= old(self).abs()[h2] by {
                            assert forall|c2: u32| old(self).entities@[h2]@.contains(c2)
                                implies self.data@[pack(h2, c2)]@
                                    == old(self).data@[pack(h2, c2)]@ by {
                                assert(pack(h2, c2) != pack(h, c));
                                assert(old(self).data@.contains_key(pack(h2, c2)));
                            }
                        }
                        assert forall|c2: u32| self.entities@[h]@.contains(c2) && c2 != c
                            implies self.data@[pack(h, c2)]@ == old(self).data@[pack(h, c2)]@
                                && old(self).entities@[h]@.contains(c2) by {
                            assert(old_list.contains(c2));
                            assert(pack(h, c2) != pack(h, c));
                            assert(old(self).data@.contains_key(pack(h, c2)));
                        }
                        assert(self.data@[pack(h, c)]@ == bytes@);
                    }
                }
                Ok(())
            },
        }
    }

    /// Detaches one component from a live handle; detaching an absent
    /// component is a no-op, detaching from a dead handle is refused.
    #[verifier::rlimit(80)]
    pub fn detach(&mut self, h: u32, c: u32) -> (r: Result<(), SyncError>)
        requires
            old(self).wf(),
        ensures
            final(self).wf(),
            final(self).next_handle == old(self).next_handle,
            r is Ok <==> old(self).abs().contains_key(h),
            r is Ok ==> final(self).abs() == old(self).abs().insert(
                h,
                old(self).abs()[h].remove(c),
            ),
            r is Err ==> final(self).abs() == old(self).abs()
                && r->Err_0 == SyncError::DeadEntity(h),
    {
        let taken = self.entities.remove(&h);
        match taken {
            None => {
                proof {
                    assert(self.entities@ =~= old(self).entities@);
                    assert(self.abs() =~~= old(self).abs());
                }
                Err(SyncError::DeadEntity(h))
            },
            Some(mut list) => {
                let ghost old_list = list@;
                match index_of_u32(&list, c) {
                    Some(i) => {
                        list.remove(i);
                        self.data.remove(&pack_key(h, c));
                        proof {
                            assert(old_list[i as int] == c);
                            assert forall|c2: u32| #[trigger] list@.contains(c2)
                                implies old_list.contains(c2) && c2 != c by {
                                let j = choose|j: int|
                                    0 <= j < list@.len() && list@[j] == c2;
                                if j < i {
                                    assert(old_list[j] == c2);
                                } else {
                                    assert(old_list[j + 1] == c2);
                                }
                            }
                            assert forall|c2: u32| old_list.contains(c2) && c2 != c
                                implies #[trigger] list@.contains(c2) by {
                                let j = choose|j: int|
                                    0 <= j < old_list.len() && old_list[j] == c2;
                                if j < i {
                                    assert(list@[j] == c2);
                                } else {
                                    assert(j > i);
                                    assert(list@[j - 1] == c2);
                                }
                            }
                            assert(distinct_u32s(list@)) by {
                                assert forall|x: int, y: int|
                                    0 <= x < y < list@.len() implies list@[x] != list@[y] by {
                                    let ox: int = if x < i { x } else { x + 1 };
                                    let oy: int = if y < i { y } else { y + 1 };
                                    assert(list@[x] == old_list[ox]);
                                    assert(list@[y] == old_list[oy]);
                                }
                            }
                        }
                        self.entities.insert(h, list);
                        proof {
                            assert forall|k2: u64| #[trigger] self.data@.contains_key(k2)
                                implies self.entities@.contains_key(handle_of(k2))
                                    && self.entities@[handle_of(k2)]@.contains(comp_of(k2)) by {
                                assert(old(self).data@.contains_key(k2));
                                assert(k2 != pack(h, c));
                                if handle_of(k2) == h {
                                    assert(old(self).entities@[h]@.contains(comp_of(k2)));
                                    assert(comp_of(k2) != c);
                                }
                            }
                            assert forall|h2: u32, c2: u32|
                                #[trigger] self.entities@.contains_key(h2)
                                    && #[trigger] self.entities@[h2]@.contains(c2)
                                implies self.data@.contains_key(pack(h2, c2)) by {
                                if h2 == h {
                                    assert(old_list.contains(c2) && c2 != c);
                                    assert(old(self).data@.contains_key(pack(h, c2)));
                                    assert(pack(h, c2) != pack(h, c));
                                } else {
                                    assert(old(self).entities@.contains_key(h2));
                                    assert(old(self).data@.contains_key(pack(h2, c2)));
                                    assert(pack(h2, c2) != pack(h, c));
                                }
                            }
                            assert(self.abs() =~~= old(self).abs().insert(
                                h,
                                old(self).abs()[h].remove(c),
                            )) by {
                                assert forall|h2: u32|
                                    self.entities@.contains_key(h2) && h2 != h
                                    implies self.abs()[h2] =~= old(self).abs()[h2] by {
                                    assert forall|c2: u32|
                                        old(self).entities@[h2]@.contains(c2)
                                        implies self.data@[pack(h2, c2)]@
                                            == old(self).data@[pack(h2, c2)]@ by {
                                        assert(pack(h2, c2) != pack(h, c));
                                        assert(old(self).data@.contains_key(pack(h2, c2)));
                                    }
                                }
                                assert forall|c2: u32| list@.contains(c2)
                                    implies self.data@[pack(h, c2)]@
                                        == old(self).data@[pack(h, c2)]@ by {
                                    assert(pack(h, c2) != pack(h, c));
                                    assert(old(self).data@.contains_key(pack(h, c2)));
                                }
                            }
                        }
                        Ok(())
                    },
                    None => {
                        self.entities.insert(h, list);
                        proof {
                            assert(self.entities@ =~= old(self).entities@);
                            assert(!old(self).abs()[h].contains_key(c));
                            assert(old(self).abs()[h].remove(c) =~= old(self).abs()[h]);
                            assert(self.abs() =~~= old(self).abs().insert(
                                h,
                                old(self).abs()[h].remove(c),
                            ));
                        }
                        Ok(())
                    },
                }
            },
        }
    }

    /// Whether the handle is live and carries the component.
    pub fn has_component(&self, h: u32, c: u32) -> (r: bool)
        requires
            self.wf(),
        ensures
            r == (self.abs().contains_key(h) && self.abs()[h].contains_key(c)),
    {
        let r = self.data.contains_key(&pack_key(h, c));
        proof {
            if self.data@.contains_key(pack(h, c)) {
                assert(self.entities@.contains_key(h)
                    && self.entities@[h]@.contains(c));
            }
        }
        r
    }

    /// The stored payload of a live handle's component.
    pub fn get_component(&self, h: u32, c: u32) -> (r: Option<&Vec<u8>>)
        requires
            self.wf(),
        ensures
            r is Some <==> (self.abs().contains_key(h) && self.abs()[h].contains_key(c)),
            r is Some ==> r->0@ == self.abs()[h][c],
    {
        let r = self.data.get(&pack_key(h, c));
        proof {
            if self.data@.contains_key(pack(h, c)) {
                assert(self.entities@.contains_key(h)
                    && self.entities@[h]@.contains(c));
            }
        }
        r
    }
}

} // verus!
