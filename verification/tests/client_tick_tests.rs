use statesync::buffer::ClientCommandBufferEntry;
use statesync::client::ClientWorld;
use statesync::message::{ComponentChanged, ComponentData, WorldState};
use statesync::postbox::{ClientToServerMessage, ServerToClientMessage};

const WIRE: u32 = 1;
const TYPE_KEY: u64 = 100;

fn update(frame: u32, offset: i32) -> WorldState {
    WorldState {
        command_frame: frame,
        command_frame_offset: offset,
        removed: Vec::new(),
        inserted: Vec::new(),
        component_removed: Vec::new(),
        component_added: Vec::new(),
        changed: Vec::new(),
    }
}

#[test]
fn tick_polls_without_blocking() {
    let mut cw = ClientWorld::new(1000, 0, 64);
    // not enough time has elapsed: no frame, nothing processed
    assert_eq!(cw.tick(999), Ok(false));
    assert_eq!(cw.ticker.command_frame(), 0);
    assert_eq!(cw.tick(1000), Ok(true));
    assert_eq!(cw.ticker.command_frame(), 1);
}

#[test]
fn first_contact_seeds_a_lead_over_the_server() {
    let mut cw = ClientWorld::new(1000, 0, 64);
    cw.postbox.enqueue_inbound(ServerToClientMessage::StateUpdate(update(50, 200)));
    assert_eq!(cw.tick(1000), Ok(true));
    assert!(cw.has_received_first_message);
    // seeded to the server frame plus a small fixed lead
    assert_eq!(cw.ticker.command_frame(), 53);
    // the state update left the inbox
    assert_eq!(cw.postbox.inbox_len(), 0);
}

#[test]
fn pending_commands_of_the_current_frame_are_sent_once() {
    let mut cw = ClientWorld::new(1000, 0, 64);
    cw.registry.register(WIRE, TYPE_KEY).unwrap();
    cw.postbox.enqueue_inbound(ServerToClientMessage::StateUpdate(update(50, 200)));
    // a command issued at the frame the clock will land on (50 + 3)
    cw.command_buffer.push(ClientCommandBufferEntry {
        entity_id: 7,
        component_type: TYPE_KEY,
        command_frame: 53,
        command: vec![0xC1],
        unchanged_data: vec![0],
        changed_data: vec![1],
        is_sent: false,
    });
    assert_eq!(cw.tick(1000), Ok(true));
    assert_eq!(cw.postbox.outbox_len(), 1);
    assert!(matches!(
        cw.postbox.outbox[0],
        ClientToServerMessage::Command(53, ref c) if *c == vec![0xC1]
    ));
    // marked sent: a later tick does not send it again
    assert_eq!(cw.tick(2000), Ok(true));
    assert_eq!(cw.postbox.outbox_len(), 1);
}

#[test]
fn tick_reconciles_a_misprediction_end_to_end() {
    let mut cw = ClientWorld::new(1000, 0, 64);
    cw.registry.register(WIRE, TYPE_KEY).unwrap();
    let h = cw.world.create_entity().unwrap();
    cw.allocator.allocate(h, Some(7)).unwrap();
    cw.world.attach(h, WIRE, vec![10]).unwrap();
    // first contact seeds the clock to 10 + 3 = 13
    let mut msg = update(10, 200);
    msg.changed.push(ComponentChanged {
        entity_id: 7,
        component: ComponentData { component_id: WIRE, data: vec![99] },
    });
    cw.postbox.enqueue_inbound(ServerToClientMessage::StateUpdate(msg));
    cw.command_buffer.push(ClientCommandBufferEntry {
        entity_id: 7,
        component_type: TYPE_KEY,
        command_frame: 10,
        command: vec![0xC1],
        unchanged_data: vec![0],
        changed_data: vec![10],
        is_sent: true,
    });
    assert_eq!(cw.tick(1000), Ok(true));
    assert_eq!(cw.world.get_component(h, WIRE), Some(&vec![99u8]));
    let batches = cw.resimulation_buffer.drain();
    assert_eq!(batches.len(), 1);
    assert_eq!(batches[0].server_command_frame, 10);
    assert_eq!(batches[0].client_command_frame, 13);
    assert_eq!(batches[0].entries[0].command, vec![0xC1]);
}

#[test]
fn drift_correction_runs_before_each_update_is_applied() {
    let mut cw = ClientWorld::new(16_000, 0, 64);
    // already in contact: no seeding
    cw.has_received_first_message = true;
    cw.ticker.set_command_frame(100);
    // offset 20 asks for factor 18/16
    cw.postbox.enqueue_inbound(ServerToClientMessage::StateUpdate(update(90, 20)));
    assert_eq!(cw.tick(16_000), Ok(true));
    assert_eq!(cw.ticker.speed_sixteenths(), 18);
    // the counter was not hard-reset
    assert_eq!(cw.ticker.command_frame(), 101);
}

#[test]
fn severe_drift_hard_resets_the_clock() {
    let mut cw = ClientWorld::new(16_000, 0, 64);
    cw.has_received_first_message = true;
    cw.ticker.set_command_frame(100);
    cw.postbox.enqueue_inbound(ServerToClientMessage::StateUpdate(update(500, -40)));
    assert_eq!(cw.tick(16_000), Ok(true));
    assert_eq!(cw.ticker.command_frame(), 700);
    assert_eq!(cw.ticker.speed_sixteenths(), 16);
}

#[test]
fn non_update_messages_stay_queued() {
    let mut cw = ClientWorld::new(1000, 0, 64);
    cw.postbox.enqueue_inbound(ServerToClientMessage::Payload(vec![1, 2, 3]));
    assert_eq!(cw.tick(1000), Ok(true));
    assert_eq!(cw.postbox.inbox_len(), 1);
    assert!(matches!(
        cw.postbox.inbox[0],
        ServerToClientMessage::Payload(ref p) if *p == vec![1, 2, 3]
    ));
}
