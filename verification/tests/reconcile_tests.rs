use statesync::buffer::{ClientCommandBuffer, ClientCommandBufferEntry, ResimulationBuffer};
use statesync::engine::apply_world_state;
use statesync::error::SyncError;
use statesync::message::{
    ComponentAdded, ComponentChanged, ComponentData, ComponentRemoved, EntityInsert, WorldState,
};
use statesync::registry::ComponentRegistry;
use statesync::uid::UidAllocator;
use statesync::world::WorldStorage;

const WIRE: u32 = 1;
const TYPE_KEY: u64 = 100;

fn empty_message(frame: u32) -> WorldState {
    WorldState {
        command_frame: frame,
        command_frame_offset: 200,
        removed: Vec::new(),
        inserted: Vec::new(),
        component_removed: Vec::new(),
        component_added: Vec::new(),
        changed: Vec::new(),
    }
}

/// One live entity with identity 7, its component predicted to `predicted`.
fn predicted_setup(
    predicted: &[u8],
) -> (UidAllocator, WorldStorage, ComponentRegistry, u32) {
    let mut alloc = UidAllocator::new();
    let mut world = WorldStorage::new();
    let mut registry = ComponentRegistry::new();
    registry.register(WIRE, TYPE_KEY).unwrap();
    let h = world.create_entity().unwrap();
    alloc.allocate(h, Some(7)).unwrap();
    world.attach(h, WIRE, predicted.to_vec()).unwrap();
    (alloc, world, registry, h)
}

fn command_entry(frame: u32, pristine: &[u8], predicted: &[u8]) -> ClientCommandBufferEntry {
    ClientCommandBufferEntry {
        entity_id: 7,
        component_type: TYPE_KEY,
        command_frame: frame,
        command: vec![0xC1],
        unchanged_data: pristine.to_vec(),
        changed_data: predicted.to_vec(),
        is_sent: false,
    }
}

#[test]
fn misprediction_applies_server_payload_and_queues_resimulation() {
    // client predicted A = [10] after command C1 at frame 10; pristine was B = [0];
    // the server's authoritative diff states D = [99]
    let (mut alloc, mut world, registry, h) = predicted_setup(&[10]);
    let mut buffer = ClientCommandBuffer::new(64);
    buffer.push(command_entry(10, &[0], &[10]));
    let mut resim = ResimulationBuffer::new();
    let mut msg = empty_message(10);
    msg.changed.push(ComponentChanged {
        entity_id: 7,
        component: ComponentData { component_id: WIRE, data: vec![99] },
    });

    let r = apply_world_state(&mut alloc, &mut world, &registry, &buffer, &mut resim, &msg, 12);
    assert!(r.is_ok());
    // the world now holds the server's value
    assert_eq!(world.get_component(h, WIRE), Some(&vec![99u8]));
    // one resimulation batch containing C1 was queued
    let batches = resim.drain();
    assert_eq!(batches.len(), 1);
    assert_eq!(batches[0].server_command_frame, 10);
    assert_eq!(batches[0].client_command_frame, 12);
    assert_eq!(batches[0].entries.len(), 1);
    assert_eq!(batches[0].entries[0].command, vec![0xC1]);
    assert_eq!(batches[0].entries[0].entity_id, 7);
}

#[test]
fn matching_prediction_stands_without_resimulation() {
    // same setup, but the server's diff states the predicted value A = [10]
    let (mut alloc, mut world, registry, h) = predicted_setup(&[10]);
    let mut buffer = ClientCommandBuffer::new(64);
    buffer.push(command_entry(10, &[0], &[10]));
    let mut resim = ResimulationBuffer::new();
    let mut msg = empty_message(10);
    msg.changed.push(ComponentChanged {
        entity_id: 7,
        component: ComponentData { component_id: WIRE, data: vec![10] },
    });

    let r = apply_world_state(&mut alloc, &mut world, &registry, &buffer, &mut resim, &msg, 12);
    assert!(r.is_ok());
    // the predicted value stands and nothing is queued for replay
    assert_eq!(world.get_component(h, WIRE), Some(&vec![10u8]));
    assert_eq!(resim.len(), 0);
}

#[test]
fn unchanged_local_group_needs_no_correction() {
    // pristine equals predicted: the diff is "no change" and the server's
    // differing payload is not applied
    let (mut alloc, mut world, registry, h) = predicted_setup(&[10]);
    let mut buffer = ClientCommandBuffer::new(64);
    buffer.push(command_entry(10, &[10], &[10]));
    let mut resim = ResimulationBuffer::new();
    let mut msg = empty_message(10);
    msg.changed.push(ComponentChanged {
        entity_id: 7,
        component: ComponentData { component_id: WIRE, data: vec![99] },
    });
    apply_world_state(&mut alloc, &mut world, &registry, &buffer, &mut resim, &msg, 12)
        .unwrap();
    assert_eq!(world.get_component(h, WIRE), Some(&vec![10u8]));
    assert_eq!(resim.len(), 0);
}

#[test]
fn remove_then_insert_reusing_identity_leaves_one_entity() {
    // a message both removes identity 7 and inserts a new entity reusing it
    let (mut alloc, mut world, registry, old_handle) = predicted_setup(&[10]);
    let mut buffer = ClientCommandBuffer::new(64);
    let mut resim = ResimulationBuffer::new();
    let mut msg = empty_message(10);
    msg.removed.push(7);
    msg.inserted.push(EntityInsert {
        entity_id: 7,
        components: vec![ComponentData { component_id: WIRE, data: vec![55] }],
    });

    apply_world_state(&mut alloc, &mut world, &registry, &buffer, &mut resim, &msg, 12)
        .unwrap();
    // exactly one live entity, bound to identity 7, with the new payload
    assert_eq!(world.entity_count(), 1);
    let new_handle = alloc.get_by_uid(7).unwrap();
    assert_ne!(new_handle, old_handle);
    assert!(!world.is_alive(old_handle));
    assert!(world.is_alive(new_handle));
    assert_eq!(world.get_component(new_handle, WIRE), Some(&vec![55u8]));
    assert_eq!(alloc.get_by_handle(new_handle), Ok(7));
}

#[test]
fn reconciliation_is_deterministic_across_repeated_runs() {
    // two runs from identically built states end in identical world state
    // and identical resimulation queue contents
    let mut results = Vec::new();
    for _ in 0..2 {
        let (mut alloc, mut world, registry, h) = predicted_setup(&[10]);
        let mut buffer = ClientCommandBuffer::new(64);
        buffer.push(command_entry(10, &[0], &[10]));
        buffer.push(command_entry(10, &[10], &[20]));
        let mut resim = ResimulationBuffer::new();
        let mut msg = empty_message(10);
        msg.changed.push(ComponentChanged {
            entity_id: 7,
            component: ComponentData { component_id: WIRE, data: vec![99] },
        });
        msg.component_added.push(ComponentAdded {
            entity_id: 7,
            component: ComponentData { component_id: WIRE, data: vec![42] },
        });
        let r = apply_world_state(
            &mut alloc, &mut world, &registry, &buffer, &mut resim, &msg, 12,
        );
        assert!(r.is_ok());
        let world_value = world.get_component(h, WIRE).cloned();
        let batches: Vec<(u32, u32, Vec<Vec<u8>>)> = resim
            .drain()
            .into_iter()
            .map(|b| {
                (
                    b.server_command_frame,
                    b.client_command_frame,
                    b.entries.into_iter().map(|e| e.command).collect(),
                )
            })
            .collect();
        results.push((world_value, batches));
    }
    assert_eq!(results[0], results[1]);
}

#[test]
fn unknown_identity_in_removals_is_fatal() {
    let (mut alloc, mut world, registry, _) = predicted_setup(&[10]);
    let buffer = ClientCommandBuffer::new(64);
    let mut resim = ResimulationBuffer::new();
    let mut msg = empty_message(10);
    msg.removed.push(1234);
    let r = apply_world_state(&mut alloc, &mut world, &registry, &buffer, &mut resim, &msg, 12);
    assert_eq!(r, Err(SyncError::UnknownIdentity(1234)));
}

#[test]
fn unknown_component_id_in_insert_is_fatal() {
    let (mut alloc, mut world, registry, _) = predicted_setup(&[10]);
    let buffer = ClientCommandBuffer::new(64);
    let mut resim = ResimulationBuffer::new();
    let mut msg = empty_message(10);
    msg.inserted.push(EntityInsert {
        entity_id: 8,
        components: vec![ComponentData { component_id: 55, data: vec![1] }],
    });
    let r = apply_world_state(&mut alloc, &mut world, &registry, &buffer, &mut resim, &msg, 12);
    assert_eq!(r, Err(SyncError::UnknownComponent(55)));
}

#[test]
fn component_removed_and_added_events_apply() {
    let (mut alloc, mut world, registry, h) = predicted_setup(&[10]);
    let buffer = ClientCommandBuffer::new(64);
    let mut resim = ResimulationBuffer::new();
    let mut msg = empty_message(10);
    msg.component_removed.push(ComponentRemoved { entity_id: 7, component_id: WIRE });
    apply_world_state(&mut alloc, &mut world, &registry, &buffer, &mut resim, &msg, 12)
        .unwrap();
    assert!(!world.has_component(h, WIRE));

    let mut msg2 = empty_message(11);
    msg2.component_added.push(ComponentAdded {
        entity_id: 7,
        component: ComponentData { component_id: WIRE, data: vec![77] },
    });
    apply_world_state(&mut alloc, &mut world, &registry, &buffer, &mut resim, &msg2, 13)
        .unwrap();
    assert_eq!(world.get_component(h, WIRE), Some(&vec![77u8]));
}

#[test]
fn server_silence_on_locally_changed_entity_leaves_prediction() {
    // the client changed the value locally but the server's changed set has no
    // entry for the entity at all: there is no authoritative payload to apply
    let (mut alloc, mut world, registry, h) = predicted_setup(&[10]);
    let mut buffer = ClientCommandBuffer::new(64);
    buffer.push(command_entry(10, &[0], &[10]));
    let mut resim = ResimulationBuffer::new();
    let msg = empty_message(10);
    apply_world_state(&mut alloc, &mut world, &registry, &buffer, &mut resim, &msg, 12)
        .unwrap();
    assert_eq!(world.get_component(h, WIRE), Some(&vec![10u8]));
    assert_eq!(resim.len(), 0);
}

#[test]
fn boundary_snapshots_come_from_oldest_and_newest_records() {
    // two commands in the group: pristine is the first record's before-state,
    // predicted the last record's after-state; the server confirms the final
    // prediction so nothing is corrected
    let (mut alloc, mut world, registry, h) = predicted_setup(&[20]);
    let mut buffer = ClientCommandBuffer::new(64);
    buffer.push(command_entry(10, &[0], &[10]));
    buffer.push(command_entry(10, &[10], &[20]));
    let mut resim = ResimulationBuffer::new();
    let mut msg = empty_message(10);
    msg.changed.push(ComponentChanged {
        entity_id: 7,
        component: ComponentData { component_id: WIRE, data: vec![20] },
    });
    apply_world_state(&mut alloc, &mut world, &registry, &buffer, &mut resim, &msg, 12)
        .unwrap();
    assert_eq!(world.get_component(h, WIRE), Some(&vec![20u8]));
    assert_eq!(resim.len(), 0);
}
