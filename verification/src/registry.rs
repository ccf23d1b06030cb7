//! Registry of component descriptors.
//!
//! One descriptor exists per registered component type. The registry is keyed
//! both by a small wire-efficient integer id and by a type key (the stand-in
//! for the host language's type identity); the two keyings stay inverse to
//! each other. Ids are stable for a process's lifetime and must match between
//! peers: an unknown id on the receiving side is a fatal protocol error.
//!
//! Component payloads travel as deterministically encoded bytes, so the
//! descriptor's operations are byte-level: the diff of two payloads is "no
//! change" exactly when the encodings are identical, and otherwise carries the
//! new payload whole.

use vstd::prelude::*;

use std::collections::HashMap;

use crate::error::SyncError;
use crate::message::ComponentData;
use crate::world::WorldStorage;

verus! {

broadcast use vstd::std_specs::hash::group_hash_axioms;

/// The type-erased capabilities of one registered component type.
#[derive(Clone, Copy, Debug, PartialEq, Eq, Structural)]
pub struct ComponentDescriptor {
    /// Small integer id used on the wire.
    pub wire_id: u32,
    /// Stable stand-in for the component's type identity.
    pub type_key: u64,
}

impl ComponentDescriptor {
    /// Byte-level diff between an old and a new payload: "no change" exactly
    /// when the two encodings are identical, else the authoritative new
    /// payload. Encoding is required to be deterministic, which makes the
    /// identical-encoding test meaningful; this is the linchpin of
    /// misprediction detection.
    pub fn diff(&self, old_data: &Vec<u8>, new_data: &Vec<u8>) -> (r: Option<Vec<u8>>)
        ensures
            r is None <==> old_data@ == new_data@,
            r is Some ==> r->0@ == new_data@,
    {
        if bytes_equal(old_data, new_data) {
            None
        } else {
            Some(new_data.clone())
        }
    }

    /// Attaches the decoded payload to a live handle: the deserialize-onto-
    /// world capability, with the value kept in its deterministic encoding.
    pub fn add_component(&self, world: &mut WorldStorage, h: u32, bytes: Vec<u8>) -> (r:
        Result<(), SyncError>)
        requires
            old(world).wf(),
        ensures
            final(world).wf(),
            final(world).next_handle == old(world).next_handle,
            r is Ok <==> old(world).abs().contains_key(h),
            r is Ok ==> final(world).abs() == old(world).abs().insert(
                h,
                old(world).abs()[h].insert(self.wire_id, bytes@),
            ),
            r is Err ==> final(world).abs() == old(world).abs()
                && r->Err_0 == SyncError::DeadEntity(h),
    {
        world.attach(h, self.wire_id, bytes)
    }

    /// Overwrites the component's value in place with an authoritative
    /// payload; the apply capability.
    pub fn apply_changes(&self, world: &mut WorldStorage, h: u32, bytes: Vec<u8>) -> (r:
        Result<(), SyncError>)
        requires
            old(world).wf(),
        ensures
            final(world).wf(),
            final(world).next_handle == old(world).next_handle,
            r is Ok <==> old(world).abs().contains_key(h),
            r is Ok ==> final(world).abs() == old(world).abs().insert(
                h,
                old(world).abs()[h].insert(self.wire_id, bytes@),
            ),
            r is Err ==> final(world).abs() == old(world).abs()
                && r->Err_0 == SyncError::DeadEntity(h),
    {
        world.attach(h, self.wire_id, bytes)
    }

    /// Removes the component from a live handle.
    pub fn remove_component(&self, world: &mut WorldStorage, h: u32) -> (r: Result<
        (),
        SyncError,
    >)
        requires
            old(world).wf(),
        ensures
            final(world).wf(),
            final(world).next_handle == old(world).next_handle,
            r is Ok <==> old(world).abs().contains_key(h),
            r is Ok ==> final(world).abs() == old(world).abs().insert(
                h,
                old(world).abs()[h].remove(self.wire_id),
            ),
            r is Err ==> final(world).abs() == old(world).abs()
                && r->Err_0 == SyncError::DeadEntity(h),
    {
        world.detach(h, self.wire_id)
    }

    /// Whether the handle is live and carries this component.
    pub fn exists_in_world(&self, world: &WorldStorage, h: u32) -> (r: bool)
        requires
            world.wf(),
        ensures
            r == (world.abs().contains_key(h)
                && world.abs()[h].contains_key(self.wire_id)),
    {
        world.has_component(h, self.wire_id)
    }

    /// Tags a payload with this descriptor's wire id, forming the comparable
    /// key used against the server's changed set.
    pub fn tag(&self, data: Vec<u8>) -> (r: ComponentData)
        ensures
            r.component_id == self.wire_id,
            r.data@ == data@,
    {
        ComponentData { component_id: self.wire_id, data }
    }
}

/// Byte-for-byte comparison of two payloads.
pub fn bytes_equal(a: &Vec<u8>, b: &Vec<u8>) -> (r: bool)
    ensures
        r <==> a@ == b@,
{
    if a.len() != b.len() {
        return false;
    }
    let n = a.len();
    let mut i: usize = 0;
    while i < n
        invariant
            n == a.len() == b.len(),
            i <= n,
            forall|j: int| 0 <= j < i ==> a@[j] == b@[j],
        decreases n - i,
    {
        if a[i] != b[i] {
            return false;
        }
        i = i + 1;
    }
    proof {
        assert(a@ =~= b@);
    }
    true
}

pub struct ComponentRegistry {
    pub id_to_type: HashMap<u32, u64>,
    pub type_to_id: HashMap<u64, u32>,
}

impl ComponentRegistry {
    /// The wire-id keying of the registry.
    pub open spec fn by_id_map(self) -> Map<u32, u64> {
        self.id_to_type@
    }

    /// The type-key keying of the registry.
    pub open spec fn by_type_map(self) -> Map<u64, u32> {
        self.type_to_id@
    }

    /// The two keyings are inverse to each other.
    pub open spec fn wf(self) -> bool {
        &&& forall|i: u32| #[trigger] self.id_to_type@.contains_key(i)
            ==> self.type_to_id@.contains_key(self.id_to_type@[i])
                && self.type_to_id@[self.id_to_type@[i]] == i
        &&& forall|t: u64| #[trigger] self.type_to_id@.contains_key(t)
            ==> self.id_to_type@.contains_key(self.type_to_id@[t])
                && self.id_to_type@[self.type_to_id@[t]] == t
    }

    pub fn new() -> (r: Self)
        ensures
            r.wf(),
            r.by_id_map() == Map::<u32, u64>::empty(),
            r.by_type_map() == Map::<u64, u32>::empty(),
    {
        ComponentRegistry {
            id_to_type: HashMap::new(),
            type_to_id: HashMap::new(),
        }
    }

    /// Binds a component type to a wire id; a configuration error if the id or
    /// the type is already registered, in which case nothing changes.
    pub fn register(&mut self, wire_id: u32, type_key: u64) -> (r: Result<(), SyncError>)
        requires
            old(self).wf(),
        ensures
            final(self).wf(),
            r is Ok <==> !old(self).by_id_map().contains_key(wire_id)
                && !old(self).by_type_map().contains_key(type_key),
            r is Ok ==> final(self).by_id_map()
                == old(self).by_id_map().insert(wire_id, type_key)
                && final(self).by_type_map()
                == old(self).by_type_map().insert(type_key, wire_id),
            r is Err ==> final(self).by_id_map() == old(self).by_id_map()
                && final(self).by_type_map() == old(self).by_type_map()
                && if old(self).by_id_map().contains_key(wire_id) {
                    r->Err_0 == SyncError::ComponentIdRegistered(wire_id)
                } else {
                    r->Err_0 == SyncError::ComponentTypeRegistered(type_key)
                },
    {
        if self.id_to_type.contains_key(&wire_id) {
            return Err(SyncError::ComponentIdRegistered(wire_id));
        }
        if self.type_to_id.contains_key(&type_key) {
            return Err(SyncError::ComponentTypeRegistered(type_key));
        }
        self.id_to_type.insert(wire_id, type_key);
        self.type_to_id.insert(type_key, wire_id);
        Ok(())
    }

    /// Looks a descriptor up by its wire id; an unknown id is a fatal protocol
    /// error on the receiving side.
    pub fn by_id(&self, wire_id: u32) -> (r: Result<ComponentDescriptor, SyncError>)
        ensures
            r is Ok <==> self.by_id_map().contains_key(wire_id),
            r is Ok ==> r->Ok_0 == (ComponentDescriptor {
                wire_id,
                type_key: self.by_id_map()[wire_id],
            }),
            r is Err ==> r->Err_0 == SyncError::UnknownComponent(wire_id),
    {
        match self.id_to_type.get(&wire_id) {
            Some(t) => Ok(ComponentDescriptor { wire_id, type_key: *t }),
            None => Err(SyncError::UnknownComponent(wire_id)),
        }
    }

    /// Looks a descriptor up by its type key, the direction used for values
    /// tracked in the local world.
    pub fn by_type(&self, type_key: u64) -> (r: Result<ComponentDescriptor, SyncError>)
        ensures
            r is Ok <==> self.by_type_map().contains_key(type_key),
            r is Ok ==> r->Ok_0 == (ComponentDescriptor {
                wire_id: self.by_type_map()[type_key],
                type_key,
            }),
            r is Err ==> r->Err_0 == SyncError::UnknownComponentType(type_key),
    {
        match self.type_to_id.get(&type_key) {
            Some(i) => Ok(ComponentDescriptor { wire_id: *i, type_key }),
            None => Err(SyncError::UnknownComponentType(type_key)),
        }
    }
}

} // verus!
