//! The synchronization unit exchanged between server and client.
//!
//! A `WorldState` message is tagged with the server's command frame and its
//! observed clock offset, and carries inserted entities with their full
//! component payloads, removed entity identities, per-entity component
//! removals and additions, and the set of authoritative per-entity diffs.
//! Payloads are deterministically encoded bytes; their meaning is the
//! concern of the encoding collaborator, not of this crate.

use vstd::prelude::*;

verus! {

/// One component payload tagged with its wire id.
pub struct ComponentData {
    pub component_id: u32,
    pub data: Vec<u8>,
}

/// Spec-level value of a `ComponentData`.
pub struct ComponentDataAbs {
    pub component_id: u32,
    pub data: Seq<u8>,
}

impl ComponentData {
    pub open spec fn abs(self) -> ComponentDataAbs {
        ComponentDataAbs { component_id: self.component_id, data: self.data@ }
    }
}

/// An authoritative per-entity diff entry of the server's changed set.
pub struct ComponentChanged {
    pub entity_id: u64,
    pub component: ComponentData,
}

/// One inserted entity: its identity and its full component payloads.
pub struct EntityInsert {
    pub entity_id: u64,
    pub components: Vec<ComponentData>,
}

/// One component removed from an entity.
pub struct ComponentRemoved {
    pub entity_id: u64,
    pub component_id: u32,
}

/// One component attached to an existing entity.
pub struct ComponentAdded {
    pub entity_id: u64,
    pub component: ComponentData,
}

/// One synchronization unit from the server.
pub struct WorldState {
    /// The server's command frame this message describes.
    pub command_frame: u32,
    /// The server's observed offset of the client's clock.
    pub command_frame_offset: i32,
    /// Identities of removed entities.
    pub removed: Vec<u64>,
    /// Entities inserted this frame, with full payloads.
    pub inserted: Vec<EntityInsert>,
    /// Components removed from existing entities.
    pub component_removed: Vec<ComponentRemoved>,
    /// Components added to existing entities.
    pub component_added: Vec<ComponentAdded>,
    /// Authoritative diffs, a set keyed by (entity identity, tagged payload).
    pub changed: Vec<ComponentChanged>,
}

impl WorldState {
    /// True when the server's changed set holds an entry with exactly this
    /// (entity identity, wire id, diffed bytes) key.
    pub open spec fn changed_contains(self, entity_id: u64, wire_id: u32, data: Seq<u8>) -> bool {
        exists|i: int|
            0 <= i < self.changed@.len() && #[trigger] self.changed@[i].entity_id == entity_id
                && self.changed@[i].component.component_id == wire_id
                && self.changed@[i].component.data@ == data
    }

    /// Index of the first entry of the changed set for the given entity, or -1
    /// when the server reports no change for it.
    pub open spec fn first_changed_for(self, entity_id: u64) -> int {
        first_changed_idx(self.changed@, entity_id)
    }
}

/// Index of the first element with the given entity identity, or -1.
pub open spec fn first_changed_idx(s: Seq<ComponentChanged>, entity_id: u64) -> int
    decreases s.len(),
{
    if s.len() == 0 {
        -1
    } else if s[0].entity_id == entity_id {
        0
    } else {
        let r = first_changed_idx(s.drop_first(), entity_id);
        if r == -1 {
            -1
        } else {
            r + 1
        }
    }
}

/// `first_changed_idx` returns the least matching index, and -1 exactly when
/// no element matches.
pub proof fn lemma_first_changed_idx(s: Seq<ComponentChanged>, entity_id: u64)
    ensures
        first_changed_idx(s, entity_id) == -1 ==> forall|i: int|
            0 <= i < s.len() ==> #[trigger] s[i].entity_id != entity_id,
        first_changed_idx(s, entity_id) != -1 ==> {
            let r = first_changed_idx(s, entity_id);
            &&& 0 <= r < s.len()
            &&& s[r].entity_id == entity_id
            &&& forall|i: int| 0 <= i < r ==> #[trigger] s[i].entity_id != entity_id
        },
    decreases s.len(),
{
    if s.len() == 0 {
    } else if s[0].entity_id == entity_id {
    } else {
        lemma_first_changed_idx(s.drop_first(), entity_id);
        let r = first_changed_idx(s.drop_first(), entity_id);
        if r != -1 {
            assert(forall|i: int| 1 <= i < r + 1
                ==> #[trigger] s[i] == s.drop_first()[i - 1]);
        } else {
            assert(forall|i: int| 1 <= i < s.len()
                ==> #[trigger] s[i] == s.drop_first()[i - 1]);
        }
    }
}

} // verus!
