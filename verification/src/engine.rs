//! The state reconciliation engine: the per-tick algorithm that turns a
//! received world-state message into world mutations and repairs
//! mispredictions.
//!
//! A message is applied in strict, fixed order — entity removals, entity
//! inserts, component removals, component additions, component changes —
//! because later steps assume earlier ones completed. Each step is specified
//! by a recursive function over the message's contents; the top-level
//! specification is their composition, so that the whole pass is a function
//! of the message and of the abstractions of the allocator, registry, world,
//! and command history. Any lookup failure against the allocator or registry
//! is fatal and aborts the message: the world is then partially updated and
//! the connection must be considered desynchronized.

use vstd::prelude::*;

use crate::buffer::{
    entries_abs, ClientCommandBuffer, ClientCommandBufferEntry, CommandEntryAbs,
    ResimulationBuffer, ResimulationEntryAbs,
};
use crate::error::SyncError;
use crate::message::{first_changed_idx, lemma_first_changed_idx, ComponentData, WorldState};
use crate::registry::ComponentRegistry;
use crate::registry::bytes_equal;
use crate::uid::{UidAllocator, RESERVED_UID};
use crate::world::{WorldAbs, WorldStorage};

verus! {

/// The abstractions the engine's steps thread through: the identity mapping,
/// the world, and the world's handle mint counter.
pub struct StepState {
    pub alloc: Map<u64, u32>,
    pub world: WorldAbs,
    pub next_handle: u32,
}

impl StepState {
    /// The abstractions of an allocator and a world.
    pub open spec fn of(alloc: UidAllocator, world: WorldStorage) -> StepState {
        StepState { alloc: alloc.map(), world: world.abs(), next_handle: world.next_handle }
    }

    /// True when the exec pair matches this abstraction.
    pub open spec fn matches(self, alloc: UidAllocator, world: WorldStorage) -> bool {
        self == StepState::of(alloc, world)
    }

    /// A handle is bound in the identity mapping.
    pub open spec fn handle_bound(self, h: u32) -> bool {
        exists|u: u64| #[trigger] self.alloc.contains_key(u) && self.alloc[u] == h
    }
}

/// The two phrasings of "this handle is bound" coincide when the maps do.
proof fn lemma_handle_bound_iff(st: StepState, a: UidAllocator, h: u32)
    requires
        st.alloc == a.map(),
    ensures
        st.handle_bound(h) <==> a.handle_bound(h),
{
    if a.handle_bound(h) {
        let u = choose|u: u64| #[trigger] a.map().contains_key(u) && a.map()[u] == h;
        assert(st.alloc.contains_key(u) && st.alloc[u] == h);
    }
    if st.handle_bound(h) {
        let u = choose|u: u64| #[trigger] st.alloc.contains_key(u) && st.alloc[u] == h;
        assert(a.map().contains_key(u) && a.map()[u] == h);
    }
}

/// Step one: for each removed identity in order, resolve it, delete the
/// entity from the world and free the binding; an unknown identity aborts.
pub open spec fn remove_entities_spec(st: StepState, removed: Seq<u64>) -> Result<
    StepState,
    SyncError,
>
    decreases removed.len(),
{
    if removed.len() == 0 {
        Ok(st)
    } else {
        let uid = removed[0];
        if st.alloc.contains_key(uid) {
            remove_entities_spec(
                StepState {
                    alloc: st.alloc.remove(uid),
                    world: st.world.remove(st.alloc[uid]),
                    next_handle: st.next_handle,
                },
                removed.drop_first(),
            )
        } else {
            Err(SyncError::UnknownIdentity(uid))
        }
    }
}

/// Removes every entity the message lists, deallocating each identity before
/// any insert can reuse it.
pub fn apply_entity_removals(
    alloc: &mut UidAllocator,
    world: &mut WorldStorage,
    msg: &WorldState,
) -> (r: Result<(), SyncError>)
    requires
        old(alloc).wf(),
        old(world).wf(),
    ensures
        final(alloc).wf(),
        final(world).wf(),
        match remove_entities_spec(StepState::of(*old(alloc), *old(world)), msg.removed@) {
            Ok(st) => r is Ok && st.matches(*final(alloc), *final(world)),
            Err(e) => r is Err && r->Err_0 == e,
        },
{
    let ghost st0 = StepState::of(*old(alloc), *old(world));
    let ghost full = msg.removed@;
    proof {
        assert(full.skip(0) =~= full);
    }
    let n = msg.removed.len();
    let mut i: usize = 0;
    while i < n
        invariant
            alloc.wf(),
            world.wf(),
            n == full.len(),
            i <= n,
            msg.removed@ == full,
            st0 == StepState::of(*old(alloc), *old(world)),
            remove_entities_spec(st0, full) == remove_entities_spec(
                StepState::of(*alloc, *world),
                full.skip(i as int),
            ),
        decreases n - i,
    {
        let ghost pre = StepState::of(*alloc, *world);
        proof {
            assert(full.skip(i as int)[0] == full[i as int]);
            assert(full.skip(i as int).drop_first() =~= full.skip(i as int + 1));
        }
        let uid = msg.removed[i];
        match alloc.deallocate(uid) {
            Err(e) => {
                proof {
                    assert(StepState::of(*alloc, *world) == pre);
                    assert(!pre.alloc.contains_key(uid));
                    assert(remove_entities_spec(pre, full.skip(i as int))
                        == Err::<StepState, SyncError>(SyncError::UnknownIdentity(uid)));
                }
                return Err(e);
            },
            Ok(h) => {
                world.delete_entity(h);
                proof {
                    assert(StepState::of(*alloc, *world) == (StepState {
                        alloc: pre.alloc.remove(uid),
                        world: pre.world.remove(pre.alloc[uid]),
                        next_handle: pre.next_handle,
                    }));
                }
            },
        }
        i = i + 1;
    }
    proof {
        assert(full.skip(n as int) =~= Seq::<u64>::empty());
    }
    Ok(())
}

/// Attaching one inserted entity's payloads, in order; an unregistered wire
/// id aborts, as does a dead handle.
pub open spec fn insert_components_spec(
    st: StepState,
    h: u32,
    comps: Seq<ComponentData>,
    reg_id: Map<u32, u64>,
) -> Result<StepState, SyncError>
    decreases comps.len(),
{
    if comps.len() == 0 {
        Ok(st)
    } else {
        let cd = comps[0];
        if !reg_id.contains_key(cd.component_id) {
            Err(SyncError::UnknownComponent(cd.component_id))
        } else if !st.world.contains_key(h) {
            Err(SyncError::DeadEntity(h))
        } else {
            insert_components_spec(
                StepState {
                    alloc: st.alloc,
                    world: st.world.insert(h, st.world[h].insert(cd.component_id, cd.data@)),
                    next_handle: st.next_handle,
                },
                h,
                comps.drop_first(),
                reg_id,
            )
        }
    }
}

/// Step two: for each inserted entity, resolve its identity or mint a fresh
/// handle bound to it, then attach every payload by its wire id.
pub open spec fn insert_entities_spec(
    st: StepState,
    inserted: Seq<crate::message::EntityInsert>,
    reg_id: Map<u32, u64>,
) -> Result<StepState, SyncError>
    decreases inserted.len(),
{
    if inserted.len() == 0 {
        Ok(st)
    } else {
        let e = inserted[0];
        if st.alloc.contains_key(e.entity_id) {
            match insert_components_spec(st, st.alloc[e.entity_id], e.components@, reg_id) {
                Err(er) => Err(er),
                Ok(st2) => insert_entities_spec(st2, inserted.drop_first(), reg_id),
            }
        } else if st.next_handle == u32::MAX {
            Err(SyncError::HandleExhausted)
        } else if e.entity_id >= RESERVED_UID {
            Err(SyncError::IdentityExhausted)
        } else if st.handle_bound(st.next_handle) {
            Err(SyncError::HandleInUse(st.next_handle))
        } else {
            let h = st.next_handle;
            let st1 = StepState {
                alloc: st.alloc.insert(e.entity_id, h),
                world: st.world.insert(h, Map::<u32, Seq<u8>>::empty()),
                next_handle: (st.next_handle + 1) as u32,
            };
            match insert_components_spec(st1, h, e.components@, reg_id) {
                Err(er) => Err(er),
                Ok(st2) => insert_entities_spec(st2, inserted.drop_first(), reg_id),
            }
        }
    }
}

/// Inserts every entity the message lists: resolves or allocates its handle
/// under the dictated identity, then attaches each component payload looked
/// up by wire id.
pub fn apply_entity_inserts(
    alloc: &mut UidAllocator,
    world: &mut WorldStorage,
    registry: &ComponentRegistry,
    msg: &WorldState,
) -> (r: Result<(), SyncError>)
    requires
        old(alloc).wf(),
        old(world).wf(),
    ensures
        final(alloc).wf(),
        final(world).wf(),
        match insert_entities_spec(
            StepState::of(*old(alloc), *old(world)),
            msg.inserted@,
            registry.by_id_map(),
        ) {
            Ok(st) => r is Ok && st.matches(*final(alloc), *final(world)),
            Err(e) => r is Err && r->Err_0 == e,
        },
{
    let ghost st0 = StepState::of(*old(alloc), *old(world));
    let ghost full = msg.inserted@;
    let ghost reg = registry.by_id_map();
    proof {
        assert(full.skip(0) =~= full);
    }
    let n = msg.inserted.len();
    let mut i: usize = 0;
    while i < n
        invariant
            alloc.wf(),
            world.wf(),
            n == full.len(),
            i <= n,
            msg.inserted@ == full,
            st0 == StepState::of(*old(alloc), *old(world)),
            reg == registry.by_id_map(),
            insert_entities_spec(st0, full, reg) == insert_entities_spec(
                StepState::of(*alloc, *world),
                full.skip(i as int),
                reg,
            ),
        decreases n - i,
    {
        proof {
            assert(full.skip(i as int)[0] == full[i as int]);
            assert(full.skip(i as int).drop_first() =~= full.skip(i as int + 1));
        }
        let entity_id = msg.inserted[i].entity_id;
        let h: u32;
        match alloc.get_by_uid(entity_id) {
            Ok(h0) => {
                h = h0;
            },
            Err(_) => {
                let ghost pre = StepState::of(*alloc, *world);
                let h0 = match world.create_entity() {
                    Ok(h0) => h0,
                    Err(e) => {
                        return Err(e);
                    },
                };
                proof {
                    lemma_handle_bound_iff(pre, *alloc, h0);
                }
                match alloc.allocate(h0, Some(entity_id)) {
                    Ok(_) => {},
                    Err(e) => {
                        return Err(e);
                    },
                }
                h = h0;
                proof {
                    assert(StepState::of(*alloc, *world) == (StepState {
                        alloc: pre.alloc.insert(entity_id, h0),
                        world: pre.world.insert(h0, Map::<u32, Seq<u8>>::empty()),
                        next_handle: (pre.next_handle + 1) as u32,
                    }));
                }
            },
        }
        // attach this entity's payloads in order
        let ghost comps_full = msg.inserted@[i as int].components@;
        proof {
            assert(comps_full.skip(0) =~= comps_full);
        }
        let m = msg.inserted[i].components.len();
        let mut j: usize = 0;
        while j < m
            invariant
                alloc.wf(),
                world.wf(),
                m == comps_full.len(),
                j <= m,
                msg.inserted@ == full,
                0 <= i < full.len(),
                full[i as int].components@ == comps_full,
                st0 == StepState::of(*old(alloc), *old(world)),
                reg == registry.by_id_map(),
                insert_entities_spec(st0, full, reg) == match insert_components_spec(
                    StepState::of(*alloc, *world),
                    h,
                    comps_full.skip(j as int),
                    reg,
                ) {
                    Err(er) => Err(er),
                    Ok(st2) => insert_entities_spec(st2, full.skip(i as int + 1), reg),
                },
            decreases m - j,
        {
            proof {
                assert(comps_full.skip(j as int)[0] == comps_full[j as int]);
                assert(comps_full.skip(j as int).drop_first() =~= comps_full.skip(j as int + 1));
            }
            let ghost pre = StepState::of(*alloc, *world);
            let cd = &msg.inserted[i].components[j];
            let descriptor = match registry.by_id(cd.component_id) {
                Ok(d) => d,
                Err(e) => {
                    return Err(e);
                },
            };
            let bytes = cd.data.clone();
            proof {
                assert(bytes@ =~= cd.data@);
            }
            match descriptor.add_component(world, h, bytes) {
                Ok(_) => {},
                Err(e) => {
                    return Err(e);
                },
            }
            proof {
                assert(StepState::of(*alloc, *world) == (StepState {
                    alloc: pre.alloc,
                    world: pre.world.insert(
                        h,
                        pre.world[h].insert(comps_full[j as int].component_id,
                        comps_full[j as int].data@),
                    ),
                    next_handle: pre.next_handle,
                }));
            }
            j = j + 1;
        }
        proof {
            assert(comps_full.skip(m as int) =~= Seq::<ComponentData>::empty());
        }
        i = i + 1;
    }
    proof {
        assert(full.skip(n as int) =~= Seq::<crate::message::EntityInsert>::empty());
    }
    Ok(())
}

/// Step three: per (entity, component) pair, resolve handle and descriptor,
/// then remove the component from the world.
pub open spec fn remove_components_spec(
    st: StepState,
    crs: Seq<crate::message::ComponentRemoved>,
    reg_id: Map<u32, u64>,
) -> Result<StepState, SyncError>
    decreases crs.len(),
{
    if crs.len() == 0 {
        Ok(st)
    } else {
        let cr = crs[0];
        if !st.alloc.contains_key(cr.entity_id) {
            Err(SyncError::UnknownIdentity(cr.entity_id))
        } else if !reg_id.contains_key(cr.component_id) {
            Err(SyncError::UnknownComponent(cr.component_id))
        } else if !st.world.contains_key(st.alloc[cr.entity_id]) {
            Err(SyncError::DeadEntity(st.alloc[cr.entity_id]))
        } else {
            let h = st.alloc[cr.entity_id];
            remove_components_spec(
                StepState {
                    alloc: st.alloc,
                    world: st.world.insert(h, st.world[h].remove(cr.component_id)),
                    next_handle: st.next_handle,
                },
                crs.drop_first(),
                reg_id,
            )
        }
    }
}

/// Removes every component the message lists from its entity.
pub fn apply_removed_components(
    alloc: &mut UidAllocator,
    world: &mut WorldStorage,
    registry: &ComponentRegistry,
    msg: &WorldState,
) -> (r: Result<(), SyncError>)
    requires
        old(alloc).wf(),
        old(world).wf(),
    ensures
        final(alloc).wf(),
        final(world).wf(),
        final(alloc).map() == old(alloc).map(),
        match remove_components_spec(
            StepState::of(*old(alloc), *old(world)),
            msg.component_removed@,
            registry.by_id_map(),
        ) {
            Ok(st) => r is Ok && st.matches(*final(alloc), *final(world)),
            Err(e) => r is Err && r->Err_0 == e,
        },
{
    let ghost st0 = StepState::of(*old(alloc), *old(world));
    let ghost full = msg.component_removed@;
    proof {
        assert(full.skip(0) =~= full);
    }
    let n = msg.component_removed.len();
    let mut i: usize = 0;
    while i < n
        invariant
            alloc.wf(),
            world.wf(),
            n == full.len(),
            i <= n,
            msg.component_removed@ == full,
            alloc.map() == old(alloc).map(),
            *alloc == *old(alloc),
            st0 == StepState::of(*old(alloc), *old(world)),
            remove_components_spec(st0, full, registry.by_id_map())
                == remove_components_spec(
                StepState::of(*alloc, *world),
                full.skip(i as int),
                registry.by_id_map(),
            ),
        decreases n - i,
    {
        proof {
            assert(full.skip(i as int)[0] == full[i as int]);
            assert(full.skip(i as int).drop_first() =~= full.skip(i as int + 1));
        }
        let ghost pre = StepState::of(*alloc, *world);
        let cr = &msg.component_removed[i];
        let h = match alloc.get_by_uid(cr.entity_id) {
            Ok(h) => h,
            Err(e) => {
                return Err(e);
            },
        };
        let descriptor = match registry.by_id(cr.component_id) {
            Ok(d) => d,
            Err(e) => {
                return Err(e);
            },
        };
        match descriptor.remove_component(world, h) {
            Ok(_) => {},
            Err(e) => {
                return Err(e);
            },
        }
        proof {
            assert(StepState::of(*alloc, *world) == (StepState {
                alloc: pre.alloc,
                world: pre.world.insert(h, pre.world[h].remove(full[i as int].component_id)),
                next_handle: pre.next_handle,
            }));
        }
        i = i + 1;
    }
    proof {
        assert(full.skip(n as int) =~= Seq::<crate::message::ComponentRemoved>::empty());
    }
    Ok(())
}

/// Step four: per (entity, payload) pair, resolve handle and descriptor,
/// then attach the payload.
pub open spec fn add_components_spec(
    st: StepState,
    cas: Seq<crate::message::ComponentAdded>,
    reg_id: Map<u32, u64>,
) -> Result<StepState, SyncError>
    decreases cas.len(),
{
    if cas.len() == 0 {
        Ok(st)
    } else {
        let ca = cas[0];
        if !st.alloc.contains_key(ca.entity_id) {
            Err(SyncError::UnknownIdentity(ca.entity_id))
        } else if !reg_id.contains_key(ca.component.component_id) {
            Err(SyncError::UnknownComponent(ca.component.component_id))
        } else if !st.world.contains_key(st.alloc[ca.entity_id]) {
            Err(SyncError::DeadEntity(st.alloc[ca.entity_id]))
        } else {
            let h = st.alloc[ca.entity_id];
            add_components_spec(
                StepState {
                    alloc: st.alloc,
                    world: st.world.insert(
                        h,
                        st.world[h].insert(ca.component.component_id, ca.component.data@),
                    ),
                    next_handle: st.next_handle,
                },
                cas.drop_first(),
                reg_id,
            )
        }
    }
}

/// Attaches every component the message lists to its entity.
pub fn apply_added_components(
    alloc: &mut UidAllocator,
    world: &mut WorldStorage,
    registry: &ComponentRegistry,
    msg: &WorldState,
) -> (r: Result<(), SyncError>)
    requires
        old(alloc).wf(),
        old(world).wf(),
    ensures
        final(alloc).wf(),
        final(world).wf(),
        final(alloc).map() == old(alloc).map(),
        match add_components_spec(
            StepState::of(*old(alloc), *old(world)),
            msg.component_added@,
            registry.by_id_map(),
        ) {
            Ok(st) => r is Ok && st.matches(*final(alloc), *final(world)),
            Err(e) => r is Err && r->Err_0 == e,
        },
{
    let ghost st0 = StepState::of(*old(alloc), *old(world));
    let ghost full = msg.component_added@;
    proof {
        assert(full.skip(0) =~= full);
    }
    let n = msg.component_added.len();
    let mut i: usize = 0;
    while i < n
        invariant
            alloc.wf(),
            world.wf(),
            n == full.len(),
            i <= n,
            msg.component_added@ == full,
            alloc.map() == old(alloc).map(),
            *alloc == *old(alloc),
            st0 == StepState::of(*old(alloc), *old(world)),
            add_components_spec(st0, full, registry.by_id_map()) == add_components_spec(
                StepState::of(*alloc, *world),
                full.skip(i as int),
                registry.by_id_map(),
            ),
        decreases n - i,
    {
        proof {
            assert(full.skip(i as int)[0] == full[i as int]);
            assert(full.skip(i as int).drop_first() =~= full.skip(i as int + 1));
        }
        let ghost pre = StepState::of(*alloc, *world);
        let ca = &msg.component_added[i];
        let h = match alloc.get_by_uid(ca.entity_id) {
            Ok(h) => h,
            Err(e) => {
                return Err(e);
            },
        };
        let descriptor = match registry.by_id(ca.component.component_id) {
            Ok(d) => d,
            Err(e) => {
                return Err(e);
            },
        };
        let bytes = ca.component.data.clone();
        proof {
            assert(bytes@ =~= ca.component.data@);
        }
        match descriptor.add_component(world, h, bytes) {
            Ok(_) => {},
            Err(e) => {
                return Err(e);
            },
        }
        proof {
            assert(StepState::of(*alloc, *world) == (StepState {
                alloc: pre.alloc,
                world: pre.world.insert(
                    h,
                    pre.world[h].insert(
                        full[i as int].component.component_id,
                        full[i as int].component.data@,
                    ),
                ),
                next_handle: pre.next_handle,
            }));
        }
        i = i + 1;
    }
    proof {
        assert(full.skip(n as int) =~= Seq::<crate::message::ComponentAdded>::empty());
    }
    Ok(())
}

/// A buffered record belongs to the given entity at the given frame.
pub open spec fn entry_matches(e: CommandEntryAbs, uid: u64, frame: u32) -> bool {
    e.entity_id == uid && e.command_frame == frame
}

/// Index of the chronologically first record of the entity at the frame, or
/// -1 when it has none.
pub open spec fn first_entry_idx(s: Seq<CommandEntryAbs>, uid: u64, frame: u32) -> int
    decreases s.len(),
{
    if s.len() == 0 {
        -1
    } else if entry_matches(s[0], uid, frame) {
        0
    } else {
        let r = first_entry_idx(s.drop_first(), uid, frame);
        if r == -1 {
            -1
        } else {
            r + 1
        }
    }
}

/// Index of the chronologically last record of the entity at the frame, or
/// -1 when it has none.
pub open spec fn last_entry_idx(s: Seq<CommandEntryAbs>, uid: u64, frame: u32) -> int
    decreases s.len(),
{
    if s.len() == 0 {
        -1
    } else if entry_matches(s.last(), uid, frame) {
        s.len() - 1
    } else {
        last_entry_idx(s.drop_last(), uid, frame)
    }
}

/// `first_entry_idx` finds the least matching index, and -1 exactly when no
/// record matches.
pub proof fn lemma_first_entry_idx(s: Seq<CommandEntryAbs>, uid: u64, frame: u32)
    ensures
        first_entry_idx(s, uid, frame) == -1 ==> forall|k: int|
            0 <= k < s.len() ==> !entry_matches(#[trigger] s[k], uid, frame),
        first_entry_idx(s, uid, frame) != -1 ==> {
            let r = first_entry_idx(s, uid, frame);
            &&& 0 <= r < s.len()
            &&& entry_matches(s[r], uid, frame)
            &&& forall|k: int| 0 <= k < r ==> !entry_matches(#[trigger] s[k], uid, frame)
        },
    decreases s.len(),
{
    if s.len() == 0 {
    } else if entry_matches(s[0], uid, frame) {
    } else {
        lemma_first_entry_idx(s.drop_first(), uid, frame);
        let r = first_entry_idx(s.drop_first(), uid, frame);
        if r != -1 {
            assert(forall|k: int| 1 <= k < r + 1 ==> #[trigger] s[k] == s.drop_first()[k - 1]);
        } else {
            assert(forall|k: int| 1 <= k < s.len() ==> #[trigger] s[k] == s.drop_first()[k - 1]);
        }
    }
}

/// `last_entry_idx` finds the greatest matching index, and -1 exactly when no
/// record matches.
pub proof fn lemma_last_entry_idx(s: Seq<CommandEntryAbs>, uid: u64, frame: u32)
    ensures
        last_entry_idx(s, uid, frame) == -1 ==> forall|k: int|
            0 <= k < s.len() ==> !entry_matches(#[trigger] s[k], uid, frame),
        last_entry_idx(s, uid, frame) != -1 ==> {
            let r = last_entry_idx(s, uid, frame);
            &&& 0 <= r < s.len()
            &&& entry_matches(s[r], uid, frame)
            &&& forall|k: int| r < k < s.len() ==> !entry_matches(#[trigger] s[k], uid, frame)
        },
    decreases s.len(),
{
    if s.len() == 0 {
    } else if entry_matches(s.last(), uid, frame) {
    } else {
        lemma_last_entry_idx(s.drop_last(), uid, frame);
        assert(forall|k: int| 0 <= k < s.len() - 1
            ==> #[trigger] s[k] == s.drop_last()[k]);
    }
}

/// The distinct entities having records at the frame, in order of first
/// appearance, skipping those already seen.
pub open spec fn entities_at(s: Seq<CommandEntryAbs>, frame: u32, seen: Set<u64>) -> Seq<u64>
    decreases s.len(),
{
    if s.len() == 0 {
        Seq::empty()
    } else if s[0].command_frame == frame && !seen.contains(s[0].entity_id) {
        seq![s[0].entity_id] + entities_at(s.drop_first(), frame, seen.insert(s[0].entity_id))
    } else {
        entities_at(s.drop_first(), frame, seen)
    }
}

/// Every listed entity has at least one record at the frame.
pub proof fn lemma_entities_at_have_entries(s: Seq<CommandEntryAbs>, frame: u32, seen: Set<u64>)
    ensures
        forall|u: u64| entities_at(s, frame, seen).contains(u)
            ==> first_entry_idx(s, u, frame) != -1,
    decreases s.len(),
{
    if s.len() == 0 {
    } else {
        let rest = s.drop_first();
        lemma_entities_at_have_entries(rest, frame, seen);
        lemma_entities_at_have_entries(rest, frame, seen.insert(s[0].entity_id));
        assert forall|u: u64| entities_at(s, frame, seen).contains(u)
            implies first_entry_idx(s, u, frame) != -1 by {
            lemma_first_entry_idx(rest, u, frame);
            if s[0].command_frame == frame && !seen.contains(s[0].entity_id) {
                let tail = entities_at(rest, frame, seen.insert(s[0].entity_id));
                let lst = seq![s[0].entity_id] + tail;
                assert(entities_at(s, frame, seen) == lst);
                assert(lst.contains(u));
                let k = choose|k: int| 0 <= k < lst.len() && #[trigger] lst[k] == u;
                if k == 0 {
                    assert(u == s[0].entity_id);
                    assert(entry_matches(s[0], u, frame));
                    assert(first_entry_idx(s, u, frame) == 0);
                } else {
                    assert(lst[k] == tail[k - 1]);
                    assert(tail.contains(u)) by {
                        assert(tail[k - 1] == u);
                    }
                    assert(first_entry_idx(rest, u, frame) != -1);
                    if entry_matches(s[0], u, frame) {
                        assert(first_entry_idx(s, u, frame) == 0);
                    } else {
                        assert(first_entry_idx(s, u, frame)
                            == first_entry_idx(rest, u, frame) + 1);
                    }
                }
            } else {
                assert(entities_at(s, frame, seen) == entities_at(rest, frame, seen));
                assert(entities_at(rest, frame, seen).contains(u));
                assert(first_entry_idx(rest, u, frame) != -1);
                if entry_matches(s[0], u, frame) {
                    assert(first_entry_idx(s, u, frame) == 0);
                } else {
                    assert(first_entry_idx(s, u, frame)
                        == first_entry_idx(rest, u, frame) + 1);
                }
            }
        }
    }
}

/// Step five, one entity: take the group's boundary snapshots (the payload
/// before the chronologically first buffered command and after the last),
/// diff them, and check the server's changed set for the same key. A match
/// leaves the prediction standing; a mismatch applies the server's
/// authoritative payload for the entity and flags it for resimulation; when
/// the server reports no change for the entity at all there is no
/// authoritative payload to apply, so the prediction stands uncorrected.
pub open spec fn reconcile_entity_spec(
    w: WorldAbs,
    alloc: Map<u64, u32>,
    reg_ty: Map<u64, u32>,
    buffer: Seq<CommandEntryAbs>,
    msg: WorldState,
    uid: u64,
) -> Result<(WorldAbs, bool), SyncError> {
    let oldest = buffer[first_entry_idx(buffer, uid, msg.command_frame)];
    let newest = buffer[last_entry_idx(buffer, uid, msg.command_frame)];
    if !alloc.contains_key(uid) {
        Err(SyncError::UnknownIdentity(uid))
    } else if !reg_ty.contains_key(oldest.component_type) {
        Err(SyncError::UnknownComponentType(oldest.component_type))
    } else {
        let h = alloc[uid];
        let wire = reg_ty[oldest.component_type];
        if oldest.unchanged_data == newest.changed_data {
            Ok((w, false))
        } else if msg.changed_contains(uid, wire, newest.changed_data) {
            Ok((w, false))
        } else {
            let fi = first_changed_idx(msg.changed@, uid);
            if fi == -1 {
                Ok((w, false))
            } else if !w.contains_key(h) {
                Err(SyncError::DeadEntity(h))
            } else {
                Ok(
                    (
                        w.insert(h, w[h].insert(wire, msg.changed@[fi].component.data@)),
                        true,
                    ),
                )
            }
        }
    }
}

/// Step five over the distinct entities, collecting the mispredicted ones in
/// order.
pub open spec fn reconcile_entities_spec(
    w: WorldAbs,
    alloc: Map<u64, u32>,
    reg_ty: Map<u64, u32>,
    buffer: Seq<CommandEntryAbs>,
    msg: WorldState,
    ents: Seq<u64>,
) -> Result<(WorldAbs, Seq<u64>), SyncError>
    decreases ents.len(),
{
    if ents.len() == 0 {
        Ok((w, Seq::empty()))
    } else {
        match reconcile_entity_spec(w, alloc, reg_ty, buffer, msg, ents[0]) {
            Err(e) => Err(e),
            Ok((w1, flag)) => match reconcile_entities_spec(
                w1,
                alloc,
                reg_ty,
                buffer,
                msg,
                ents.drop_first(),
            ) {
                Err(e) => Err(e),
                Ok((w2, ids)) => Ok(
                    (w2, if flag {
                        seq![ents[0]] + ids
                    } else {
                        ids
                    }),
                ),
            },
        }
    }
}

/// The records to replay for the mispredicted entities: every buffered
/// record of one of them from the server's frame on, in chronological order.
pub open spec fn gather_resim(
    s: Seq<CommandEntryAbs>,
    ids: Seq<u64>,
    from_frame: u32,
) -> Seq<CommandEntryAbs>
    decreases s.len(),
{
    if s.len() == 0 {
        Seq::empty()
    } else {
        let pre = gather_resim(s.drop_last(), ids, from_frame);
        if s.last().command_frame >= from_frame && ids.contains(s.last().entity_id) {
            pre.push(s.last())
        } else {
            pre
        }
    }
}

/// Step five, whole message: reconcile every distinct entity with commands
/// buffered at exactly the message's frame, then append one batch holding
/// every affected record (the affected entities are not deduplicated against
/// earlier batches, and one batch serves the whole message).
pub open spec fn apply_changed_spec(
    w: WorldAbs,
    alloc: Map<u64, u32>,
    reg_ty: Map<u64, u32>,
    buffer: Seq<CommandEntryAbs>,
    msg: WorldState,
    current_frame: u32,
    resim: Seq<ResimulationEntryAbs>,
) -> Result<(WorldAbs, Seq<ResimulationEntryAbs>), SyncError> {
    let ents = entities_at(buffer, msg.command_frame, Set::empty());
    match reconcile_entities_spec(w, alloc, reg_ty, buffer, msg, ents) {
        Err(e) => Err(e),
        Ok((w2, ids)) => if ids.len() > 0 {
            Ok(
                (
                    w2,
                    resim.push(
                        ResimulationEntryAbs {
                            server_command_frame: msg.command_frame,
                            client_command_frame: current_frame,
                            entries: gather_resim(buffer, ids, msg.command_frame),
                        },
                    ),
                ),
            )
        } else {
            Ok((w2, resim))
        },
    }
}

/// True when the vector holds the value.
fn contains_u64(v: &Vec<u64>, x: u64) -> (r: bool)
    ensures
        r == v@.contains(x),
{
    let mut i: usize = 0;
    let n = v.len();
    while i < n
        invariant
            n == v@.len(),
            i <= n,
            forall|j: int| 0 <= j < i ==> v@[j] != x,
        decreases n - i,
    {
        if v[i] == x {
            return true;
        }
        i = i + 1;
    }
    false
}

/// The distinct entities having records at the frame, in first-appearance
/// order.
fn collect_entities(entries: &Vec<ClientCommandBufferEntry>, frame: u32) -> (out: Vec<u64>)
    ensures
        out@ == entities_at(entries_abs(entries@), frame, Set::empty()),
{
    let ghost abs = entries_abs(entries@);
    let mut out: Vec<u64> = Vec::new();
    let ghost seen = Set::<u64>::empty();
    proof {
        assert(abs.skip(0) =~= abs);
        assert(Seq::<u64>::empty() + entities_at(abs, frame, seen) =~= entities_at(
            abs,
            frame,
            seen,
        ));
    }
    let mut i: usize = 0;
    let n = entries.len();
    while i < n
        invariant
            n == entries@.len(),
            abs == entries_abs(entries@),
            abs.len() == n,
            i <= n,
            forall|u: u64| #[trigger] seen.contains(u) <==> out@.contains(u),
            entities_at(abs, frame, Set::empty()) == out@ + entities_at(
                abs.skip(i as int),
                frame,
                seen,
            ),
        decreases n - i,
    {
        proof {
            assert(abs.skip(i as int)[0] == abs[i as int]);
            assert(abs.skip(i as int).drop_first() =~= abs.skip(i as int + 1));
        }
        let uid = entries[i].entity_id;
        proof {
            assert(abs[i as int] == entries@[i as int].abs());
        }
        if entries[i].command_frame == frame && !contains_u64(&out, uid) {
            let ghost pre_out = out@;
            out.push(uid);
            proof {
                let ghost rest = entities_at(abs.skip(i as int + 1), frame, seen.insert(uid));
                assert(entities_at(abs.skip(i as int), frame, seen) == seq![uid] + rest);
                assert(pre_out + (seq![uid] + rest) =~= out@ + rest);
                seen = seen.insert(uid);
                assert forall|u: u64| #[trigger] seen.contains(u)
                    implies out@.contains(u) by {
                    if u == uid {
                        assert(out@[out@.len() - 1] == uid);
                    } else {
                        assert(pre_out.contains(u));
                        let k = choose|k: int| 0 <= k < pre_out.len() && pre_out[k] == u;
                        assert(out@[k] == u);
                    }
                }
                assert forall|u: u64| out@.contains(u)
                    implies #[trigger] seen.contains(u) by {
                    let k = choose|k: int| 0 <= k < out@.len() && out@[k] == u;
                    if k < pre_out.len() {
                        assert(pre_out[k] == u);
                    }
                }
            }
        } else {
            proof {
                assert(entities_at(abs.skip(i as int), frame, seen) == entities_at(
                    abs.skip(i as int + 1),
                    frame,
                    seen,
                ));
            }
        }
        i = i + 1;
    }
    proof {
        assert(abs.skip(n as int) =~= Seq::<CommandEntryAbs>::empty());
        assert(out@ + entities_at(abs.skip(n as int), frame, seen) =~= out@);
    }
    out
}

/// The index of the entity's chronologically first record at the frame.
fn find_first_entry(
    entries: &Vec<ClientCommandBufferEntry>,
    uid: u64,
    frame: u32,
) -> (r: Option<usize>)
    ensures
        match r {
            Some(i) => first_entry_idx(entries_abs(entries@), uid, frame) == i,
            None => first_entry_idx(entries_abs(entries@), uid, frame) == -1,
        },
{
    let ghost abs = entries_abs(entries@);
    let mut i: usize = 0;
    let n = entries.len();
    while i < n
        invariant
            n == entries@.len(),
            abs == entries_abs(entries@),
            abs.len() == n,
            i <= n,
            forall|j: int| 0 <= j < i ==> !entry_matches(#[trigger] abs[j], uid, frame),
        decreases n - i,
    {
        if entries[i].entity_id == uid && entries[i].command_frame == frame {
            proof {
                lemma_first_entry_idx(abs, uid, frame);
                assert(entry_matches(abs[i as int], uid, frame));
            }
            return Some(i);
        }
        proof {
            assert(abs[i as int] == entries@[i as int].abs());
        }
        i = i + 1;
    }
    proof {
        lemma_first_entry_idx(abs, uid, frame);
        if first_entry_idx(abs, uid, frame) != -1 {
            assert(entry_matches(abs[first_entry_idx(abs, uid, frame)], uid, frame));
        }
    }
    None
}

/// The index of the entity's chronologically last record at the frame.
fn find_last_entry(
    entries: &Vec<ClientCommandBufferEntry>,
    uid: u64,
    frame: u32,
) -> (r: Option<usize>)
    ensures
        match r {
            Some(i) => last_entry_idx(entries_abs(entries@), uid, frame) == i,
            None => last_entry_idx(entries_abs(entries@), uid, frame) == -1,
        },
{
    let ghost abs = entries_abs(entries@);
    let mut best: Option<usize> = None;
    let mut i: usize = 0;
    let n = entries.len();
    while i < n
        invariant
            n == entries@.len(),
            abs == entries_abs(entries@),
            abs.len() == n,
            i <= n,
            match best {
                Some(b) => b < i && entry_matches(abs[b as int], uid, frame)
                    && forall|j: int| b < j < i
                        ==> !entry_matches(#[trigger] abs[j], uid, frame),
                None => forall|j: int| 0 <= j < i
                    ==> !entry_matches(#[trigger] abs[j], uid, frame),
            },
        decreases n - i,
    {
        proof {
            assert(abs[i as int] == entries@[i as int].abs());
        }
        if entries[i].entity_id == uid && entries[i].command_frame == frame {
            best = Some(i);
        }
        i = i + 1;
    }
    proof {
        lemma_last_entry_idx(abs, uid, frame);
        match best {
            Some(b) => {
                let r = last_entry_idx(abs, uid, frame);
                assert(r != -1);
                assert(entry_matches(abs[r], uid, frame));
            },
            None => {
                if last_entry_idx(abs, uid, frame) != -1 {
                    assert(entry_matches(abs[last_entry_idx(abs, uid, frame)], uid, frame));
                }
            },
        }
    }
    best
}

/// Whether the server's changed set holds exactly this (entity, wire id,
/// bytes) key.
fn changed_set_contains(msg: &WorldState, uid: u64, wire: u32, data: &Vec<u8>) -> (r: bool)
    ensures
        r == msg.changed_contains(uid, wire, data@),
{
    let mut i: usize = 0;
    let n = msg.changed.len();
    while i < n
        invariant
            n == msg.changed@.len(),
            i <= n,
            forall|j: int| 0 <= j < i ==> !(#[trigger] msg.changed@[j].entity_id == uid
                && msg.changed@[j].component.component_id == wire
                && msg.changed@[j].component.data@ == data@),
        decreases n - i,
    {
        let c = &msg.changed[i];
        if c.entity_id == uid && c.component.component_id == wire
            && bytes_equal(&c.component.data, data) {
            return true;
        }
        i = i + 1;
    }
    false
}

/// The first changed-set entry for the entity, if the server reports any.
fn find_first_changed(msg: &WorldState, uid: u64) -> (r: Option<usize>)
    ensures
        match r {
            Some(i) => first_changed_idx(msg.changed@, uid) == i,
            None => first_changed_idx(msg.changed@, uid) == -1,
        },
{
    let mut i: usize = 0;
    let n = msg.changed.len();
    while i < n
        invariant
            n == msg.changed@.len(),
            i <= n,
            forall|j: int| 0 <= j < i ==> #[trigger] msg.changed@[j].entity_id != uid,
        decreases n - i,
    {
        if msg.changed[i].entity_id == uid {
            proof {
                lemma_first_changed_idx(msg.changed@, uid);
            }
            return Some(i);
        }
        i = i + 1;
    }
    proof {
        lemma_first_changed_idx(msg.changed@, uid);
    }
    None
}

/// The affected records to replay, cloned in chronological order.
fn gather_entries(
    entries: &Vec<ClientCommandBufferEntry>,
    ids: &Vec<u64>,
    from_frame: u32,
) -> (out: Vec<ClientCommandBufferEntry>)
    ensures
        entries_abs(out@) == gather_resim(entries_abs(entries@), ids@, from_frame),
{
    let ghost abs = entries_abs(entries@);
    let mut out: Vec<ClientCommandBufferEntry> = Vec::new();
    let mut i: usize = 0;
    let n = entries.len();
    proof {
        assert(entries_abs(out@) =~= gather_resim(abs.take(0), ids@, from_frame));
    }
    while i < n
        invariant
            n == entries@.len(),
            abs == entries_abs(entries@),
            abs.len() == n,
            i <= n,
            entries_abs(out@) == gather_resim(abs.take(i as int), ids@, from_frame),
        decreases n - i,
    {
        let ghost prefix = abs.take(i as int);
        proof {
            assert(abs.take(i as int + 1).drop_last() =~= prefix);
            assert(abs.take(i as int + 1).last() == abs[i as int]);
            assert(abs[i as int] == entries@[i as int].abs());
        }
        if entries[i].command_frame >= from_frame && contains_u64(ids, entries[i].entity_id) {
            let ghost pre_out = entries_abs(out@);
            out.push(entries[i].duplicate());
            proof {
                assert(entries_abs(out@) =~= pre_out.push(abs[i as int]));
            }
        }
        i = i + 1;
    }
    proof {
        assert(abs.take(n as int) =~= abs);
    }
    out
}

/// Step five: for every distinct entity with commands buffered at exactly
/// this message's frame, diff the group's boundary snapshots and compare
/// against the server's changed set; apply the server's payload over each
/// misprediction and queue one batch of the affected records for replay.
pub fn apply_changed_components(
    alloc: &UidAllocator,
    world: &mut WorldStorage,
    registry: &ComponentRegistry,
    buffer: &ClientCommandBuffer,
    resim: &mut ResimulationBuffer,
    msg: &WorldState,
    current_frame: u32,
) -> (r: Result<(), SyncError>)
    requires
        old(world).wf(),
    ensures
        final(world).wf(),
        final(world).next_handle == old(world).next_handle,
        match apply_changed_spec(
            old(world).abs(),
            alloc.map(),
            registry.by_type_map(),
            buffer.abs(),
            *msg,
            current_frame,
            old(resim).abs(),
        ) {
            Ok((w2, resim2)) => r is Ok && final(world).abs() == w2
                && final(resim).abs() == resim2,
            Err(e) => r is Err && r->Err_0 == e,
        },
{
    let ghost w0 = old(world).abs();
    let ghost am = alloc.map();
    let ghost tm = registry.by_type_map();
    let ghost babs = buffer.abs();
    let entries = buffer.entries();
    let ents = collect_entities(entries, msg.command_frame);
    let ghost ents_abs = ents@;
    proof {
        assert(ents_abs.skip(0) =~= ents_abs);
        lemma_entities_at_have_entries(babs, msg.command_frame, Set::empty());
    }
    let mut resim_ids: Vec<u64> = Vec::new();
    let mut i: usize = 0;
    let n = ents.len();
    while i < n
        invariant
            world.wf(),
            n == ents_abs.len(),
            i <= n,
            ents@ == ents_abs,
            w0 == old(world).abs(),
            am == alloc.map(),
            tm == registry.by_type_map(),
            babs == buffer.abs(),
            entries_abs(entries@) == babs,
            ents_abs == entities_at(babs, msg.command_frame, Set::empty()),
            world.next_handle == old(world).next_handle,
            forall|u: u64| ents_abs.contains(u)
                ==> first_entry_idx(babs, u, msg.command_frame) != -1,
            match reconcile_entities_spec(
                world.abs(),
                am,
                tm,
                babs,
                *msg,
                ents_abs.skip(i as int),
            ) {
                Ok((w2, ids)) => reconcile_entities_spec(w0, am, tm, babs, *msg, ents_abs)
                    == Ok::<(WorldAbs, Seq<u64>), SyncError>((w2, resim_ids@ + ids)),
                Err(e) => reconcile_entities_spec(w0, am, tm, babs, *msg, ents_abs)
                    == Err::<(WorldAbs, Seq<u64>), SyncError>(e),
            },
        decreases n - i,
    {
        proof {
            assert(ents_abs.skip(i as int)[0] == ents_abs[i as int]);
            assert(ents_abs.skip(i as int).drop_first() =~= ents_abs.skip(i as int + 1));
            assert(ents_abs.contains(ents_abs[i as int])) by {
                assert(ents_abs[i as int] == ents_abs[i as int]);
            }
        }
        let uid = ents[i];
        let ghost w_pre = world.abs();
        let oi = match find_first_entry(entries, uid, msg.command_frame) {
            Some(oi) => oi,
            None => {
                proof {
                    assert(false);
                }
                return Err(SyncError::UnknownIdentity(uid));
            },
        };
        let ni = match find_last_entry(entries, uid, msg.command_frame) {
            Some(ni) => ni,
            None => {
                proof {
                    lemma_first_entry_idx(babs, uid, msg.command_frame);
                    lemma_last_entry_idx(babs, uid, msg.command_frame);
                    assert(entry_matches(babs[oi as int], uid, msg.command_frame));
                    assert(false);
                }
                return Err(SyncError::UnknownIdentity(uid));
            },
        };
        proof {
            lemma_first_entry_idx(babs, uid, msg.command_frame);
            lemma_last_entry_idx(babs, uid, msg.command_frame);
            assert(babs[oi as int] == entries@[oi as int].abs());
            assert(babs[ni as int] == entries@[ni as int].abs());
        }
        let oldest = &entries[oi];
        let newest = &entries[ni];
        let ghost step = reconcile_entity_spec(w_pre, am, tm, babs, *msg, uid);
        let h = match alloc.get_by_uid(uid) {
            Ok(h) => h,
            Err(e) => {
                proof {
                    assert(step == Err::<(WorldAbs, bool), SyncError>(e));
                }
                return Err(e);
            },
        };
        let descriptor = match registry.by_type(oldest.component_type) {
            Ok(d) => d,
            Err(e) => {
                proof {
                    assert(step == Err::<(WorldAbs, bool), SyncError>(e));
                }
                return Err(e);
            },
        };
        let mut flagged = false;
        match descriptor.diff(&oldest.unchanged_data, &newest.changed_data) {
            None => {
                proof {
                    assert(step == Ok::<(WorldAbs, bool), SyncError>((w_pre, false)));
                }
            },
            Some(dbytes) => {
                if changed_set_contains(msg, uid, descriptor.wire_id, &dbytes) {
                    proof {
                        assert(step == Ok::<(WorldAbs, bool), SyncError>((w_pre, false)));
                    }
                } else {
                    match find_first_changed(msg, uid) {
                        None => {
                            proof {
                                assert(step == Ok::<(WorldAbs, bool), SyncError>(
                                    (w_pre, false),
                                ));
                            }
                        },
                        Some(ci) => {
                            proof {
                                lemma_first_changed_idx(msg.changed@, uid);
                            }
                            let bytes = msg.changed[ci].component.data.clone();
                            proof {
                                assert(bytes@ =~= msg.changed@[ci as int].component.data@);
                            }
                            match world.attach(h, descriptor.wire_id, bytes) {
                                Err(e) => {
                                    proof {
                                        assert(step == Err::<(WorldAbs, bool), SyncError>(e));
                                    }
                                    return Err(e);
                                },
                                Ok(_) => {
                                    flagged = true;
                                    proof {
                                        assert(step == Ok::<(WorldAbs, bool), SyncError>(
                                            (world.abs(), true),
                                        ));
                                    }
                                },
                            }
                        },
                    }
                }
            },
        }
        if flagged {
            let ghost pre_ids = resim_ids@;
            resim_ids.push(uid);
            proof {
                assert forall|rest_ids: Seq<u64>|
                    pre_ids + (seq![uid] + rest_ids) =~= resim_ids@ + rest_ids by {}
            }
        }
        i = i + 1;
    }
    proof {
        assert(ents_abs.skip(n as int) =~= Seq::<u64>::empty());
        assert(reconcile_entities_spec(world.abs(), am, tm, babs, *msg, ents_abs.skip(n as int))
            == Ok::<(WorldAbs, Seq<u64>), SyncError>((world.abs(), Seq::empty())));
        assert(resim_ids@ + Seq::<u64>::empty() =~= resim_ids@);
    }
    if resim_ids.len() > 0 {
        let gathered = gather_entries(entries, &resim_ids, msg.command_frame);
        resim.push(msg.command_frame, current_frame, gathered);
    }
    Ok(())
}

/// A whole world-state message, applied in the strict, fixed step order.
pub open spec fn apply_world_state_spec(
    st: StepState,
    reg_id: Map<u32, u64>,
    reg_ty: Map<u64, u32>,
    buffer: Seq<CommandEntryAbs>,
    resim: Seq<ResimulationEntryAbs>,
    msg: WorldState,
    current_frame: u32,
) -> Result<(StepState, Seq<ResimulationEntryAbs>), SyncError> {
    match remove_entities_spec(st, msg.removed@) {
        Err(e) => Err(e),
        Ok(st1) => match insert_entities_spec(st1, msg.inserted@, reg_id) {
            Err(e) => Err(e),
            Ok(st2) => match remove_components_spec(st2, msg.component_removed@, reg_id) {
                Err(e) => Err(e),
                Ok(st3) => match add_components_spec(st3, msg.component_added@, reg_id) {
                    Err(e) => Err(e),
                    Ok(st4) => match apply_changed_spec(
                        st4.world,
                        st4.alloc,
                        reg_ty,
                        buffer,
                        msg,
                        current_frame,
                        resim,
                    ) {
                        Err(e) => Err(e),
                        Ok((w5, resim5)) => Ok(
                            (StepState { world: w5, ..st4 }, resim5),
                        ),
                    },
                },
            },
        },
    }
}

/// Applies one world-state message: entity removals, entity inserts,
/// component removals, component additions, then reconciliation of the
/// changed set against the local command history. A fatal lookup error
/// aborts mid-message; the world is then partially updated and the
/// connection should be resynchronized, not resumed.
pub fn apply_world_state(
    alloc: &mut UidAllocator,
    world: &mut WorldStorage,
    registry: &ComponentRegistry,
    buffer: &ClientCommandBuffer,
    resim: &mut ResimulationBuffer,
    msg: &WorldState,
    current_frame: u32,
) -> (r: Result<(), SyncError>)
    requires
        old(alloc).wf(),
        old(world).wf(),
    ensures
        final(alloc).wf(),
        final(world).wf(),
        match apply_world_state_spec(
            StepState::of(*old(alloc), *old(world)),
            registry.by_id_map(),
            registry.by_type_map(),
            buffer.abs(),
            old(resim).abs(),
            *msg,
            current_frame,
        ) {
            Ok((st, resim2)) => r is Ok && st.matches(*final(alloc), *final(world))
                && final(resim).abs() == resim2,
            Err(e) => r is Err && r->Err_0 == e,
        },
{
    match apply_entity_removals(alloc, world, msg) {
        Ok(_) => {},
        Err(e) => {
            return Err(e);
        },
    }
    match apply_entity_inserts(alloc, world, registry, msg) {
        Ok(_) => {},
        Err(e) => {
            return Err(e);
        },
    }
    match apply_removed_components(alloc, world, registry, msg) {
        Ok(_) => {},
        Err(e) => {
            return Err(e);
        },
    }
    match apply_added_components(alloc, world, registry, msg) {
        Ok(_) => {},
        Err(e) => {
            return Err(e);
        },
    }
    match apply_changed_components(alloc, world, registry, buffer, resim, msg, current_frame) {
        Ok(_) => {},
        Err(e) => {
            return Err(e);
        },
    }
    Ok(())
}

/// Reconciliation determinism: applying a message is a function of the
/// message and of the abstractions of the allocator, registry, world,
/// command history and resimulation queue alone. Two runs from equal
/// abstract states produce equal resulting world states and equal
/// resimulation queue contents; `apply_world_state`'s contract pins each
/// run's outcome to `apply_world_state_spec`, of which this is congruence.
pub proof fn lemma_reconciliation_deterministic(
    st_a: StepState,
    st_b: StepState,
    reg_id: Map<u32, u64>,
    reg_ty: Map<u64, u32>,
    buffer_a: Seq<CommandEntryAbs>,
    buffer_b: Seq<CommandEntryAbs>,
    resim_a: Seq<ResimulationEntryAbs>,
    resim_b: Seq<ResimulationEntryAbs>,
    msg: WorldState,
    current_frame: u32,
)
    requires
        st_a == st_b,
        buffer_a == buffer_b,
        resim_a == resim_b,
    ensures
        apply_world_state_spec(st_a, reg_id, reg_ty, buffer_a, resim_a, msg, current_frame)
            == apply_world_state_spec(
            st_b,
            reg_id,
            reg_ty,
            buffer_b,
            resim_b,
            msg,
            current_frame,
        ),
{
}

} // verus!
