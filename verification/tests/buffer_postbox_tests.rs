use statesync::buffer::{ClientCommandBuffer, ClientCommandBufferEntry, ResimulationBuffer};
use statesync::message::WorldState;
use statesync::postbox::{
    drain_state_updates, ClientPostBox, ClientToServerMessage, ServerToClientMessage,
};

fn entry(uid: u64, frame: u32, cmd: u8) -> ClientCommandBufferEntry {
    ClientCommandBufferEntry {
        entity_id: uid,
        component_type: 100,
        command_frame: frame,
        command: vec![cmd],
        unchanged_data: vec![0],
        changed_data: vec![1],
        is_sent: false,
    }
}

fn empty_update(frame: u32) -> WorldState {
    WorldState {
        command_frame: frame,
        command_frame_offset: 200,
        removed: Vec::new(),
        inserted: Vec::new(),
        component_removed: Vec::new(),
        component_added: Vec::new(),
        changed: Vec::new(),
    }
}

#[test]
fn take_unsent_sends_each_command_at_most_once() {
    let mut b = ClientCommandBuffer::new(64);
    b.push(entry(1, 10, 0xaa));
    b.push(entry(2, 10, 0xbb));
    b.push(entry(1, 11, 0xcc));
    let out = b.take_unsent_at(10);
    assert_eq!(out.len(), 2);
    assert_eq!(out[0], (10, vec![0xaa]));
    assert_eq!(out[1], (10, vec![0xbb]));
    // the same frame yields nothing the second time
    let again = b.take_unsent_at(10);
    assert!(again.is_empty());
    // the other frame is untouched
    let later = b.take_unsent_at(11);
    assert_eq!(later, vec![(11, vec![0xcc])]);
}

#[test]
fn prune_drops_records_older_than_the_history_bound() {
    let mut b = ClientCommandBuffer::new(2);
    b.push(entry(1, 5, 1));
    b.push(entry(1, 7, 2));
    b.push(entry(1, 9, 3));
    b.prune(9);
    // frames 7 and 9 lie within two frames of 9; frame 5 does not
    let left = b.entries();
    assert_eq!(left.len(), 2);
    assert_eq!(left[0].command_frame, 7);
    assert_eq!(left[1].command_frame, 9);
}

#[test]
fn resimulation_buffer_is_consumed_exactly_once() {
    let mut r = ResimulationBuffer::new();
    r.push(10, 12, vec![entry(1, 10, 5)]);
    r.push(11, 13, vec![]);
    assert_eq!(r.len(), 2);
    let drained = r.drain();
    assert_eq!(drained.len(), 2);
    assert_eq!(drained[0].server_command_frame, 10);
    assert_eq!(drained[0].client_command_frame, 12);
    assert_eq!(drained[0].entries[0].command, vec![5]);
    assert_eq!(r.len(), 0);
    assert!(r.drain().is_empty());
}

#[test]
fn postbox_preserves_order() {
    let mut pb: ClientPostBox = ClientPostBox::new();
    pb.send(ClientToServerMessage::Command(1, vec![1]));
    pb.send(ClientToServerMessage::Payload(vec![2]));
    let out = pb.drain_outbox();
    assert_eq!(out.len(), 2);
    assert!(matches!(out[0], ClientToServerMessage::Command(1, ref c) if *c == vec![1]));
    assert!(matches!(out[1], ClientToServerMessage::Payload(ref p) if *p == vec![2]));
    assert_eq!(pb.outbox_len(), 0);
}

#[test]
fn drain_state_updates_demultiplexes_and_keeps_the_rest() {
    let mut pb: ClientPostBox = ClientPostBox::new();
    pb.enqueue_inbound(ServerToClientMessage::Payload(vec![9]));
    pb.enqueue_inbound(ServerToClientMessage::StateUpdate(empty_update(4)));
    pb.enqueue_inbound(ServerToClientMessage::Payload(vec![8]));
    pb.enqueue_inbound(ServerToClientMessage::StateUpdate(empty_update(5)));
    let updates = drain_state_updates(&mut pb);
    assert_eq!(updates.len(), 2);
    assert_eq!(updates[0].command_frame, 4);
    assert_eq!(updates[1].command_frame, 5);
    // the other messages stay queued, in arrival order
    assert_eq!(pb.inbox_len(), 2);
    assert!(matches!(pb.inbox[0], ServerToClientMessage::Payload(ref p) if *p == vec![9]));
    assert!(matches!(pb.inbox[1], ServerToClientMessage::Payload(ref p) if *p == vec![8]));
}
