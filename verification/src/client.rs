//! The predictive client replica: clock, connection queues, allocator,
//! registry, command history, resimulation queue and local world, driven by a
//! cooperative per-tick pass.
//!
//! One `tick` polls the clock with the caller's monotonic reading; when a
//! frame elapses it drains the queued state updates in arrival order, runs
//! drift correction and (on first contact) seeds the clock a small lead ahead
//! of the server, applies each update through the reconciliation engine, and
//! finally sends every not-yet-sent buffered command of the current frame to
//! the server, marking it sent.

use vstd::prelude::*;

use crate::buffer::{mark_sent, unsent_at, ClientCommandBuffer, ResimulationBuffer,
    ResimulationEntryAbs, CommandEntryAbs};
use crate::clock::{drift_adjusted, CommandFrameTicker, FIRST_CONTACT_LEAD, MAX_NOMINAL_MICROS};
use crate::engine::{apply_world_state, apply_world_state_spec, StepState};
use crate::error::SyncError;
use crate::message::WorldState;
use crate::postbox::{
    drain_state_updates, other_messages, state_updates, ClientPostBox, ClientToServerMessage,
};
use crate::registry::ComponentRegistry;
use crate::uid::UidAllocator;
use crate::world::WorldStorage;

verus! {

/// One received state update, processed: drift correction, first-contact
/// seeding, then the reconciliation engine; folded over the drained updates
/// in arrival order.
pub open spec fn tick_updates_spec(
    ticker: CommandFrameTicker,
    st: StepState,
    resim: Seq<ResimulationEntryAbs>,
    first: bool,
    reg_id: Map<u32, u64>,
    reg_ty: Map<u64, u32>,
    buffer: Seq<CommandEntryAbs>,
    updates: Seq<WorldState>,
) -> Result<(CommandFrameTicker, StepState, Seq<ResimulationEntryAbs>, bool), SyncError>
    decreases updates.len(),
{
    if updates.len() == 0 {
        Ok((ticker, st, resim, first))
    } else {
        let u = updates[0];
        match drift_adjusted(ticker, u.command_frame_offset, u.command_frame) {
            Err(e) => Err(e),
            Ok(t1) => if !first && u.command_frame > u32::MAX - FIRST_CONTACT_LEAD {
                Err(SyncError::FrameOutOfRange(u.command_frame))
            } else {
                let t2 = if !first {
                    CommandFrameTicker {
                        current_frame: (u.command_frame + FIRST_CONTACT_LEAD) as u32,
                        ..t1
                    }
                } else {
                    t1
                };
                match apply_world_state_spec(
                    st,
                    reg_id,
                    reg_ty,
                    buffer,
                    resim,
                    u,
                    t2.current_frame,
                ) {
                    Err(e) => Err(e),
                    Ok((st2, resim2)) => tick_updates_spec(
                        t2,
                        st2,
                        resim2,
                        true,
                        reg_id,
                        reg_ty,
                        buffer,
                        updates.drop_first(),
                    ),
                }
            },
        }
    }
}

/// The outbox grew by exactly these commands, in order, after the old
/// contents.
pub open spec fn outbox_extended(
    old_out: Seq<ClientToServerMessage>,
    new_out: Seq<ClientToServerMessage>,
    cmds: Seq<(u32, Seq<u8>)>,
) -> bool {
    &&& new_out.len() == old_out.len() + cmds.len()
    &&& forall|j: int| 0 <= j < old_out.len() ==> new_out[j] == old_out[j]
    &&& forall|j: int| 0 <= j < cmds.len() ==> {
        let m = #[trigger] new_out[old_out.len() + j];
        &&& m is Command
        &&& m->Command_0 == cmds[j].0
        &&& m->Command_1@ == cmds[j].1
    }
}

/// Sends the collected (frame, command) pairs in order.
fn send_pending(postbox: &mut ClientPostBox, pending: Vec<(u32, Vec<u8>)>)
    ensures
        outbox_extended(
            old(postbox).outbox@,
            final(postbox).outbox@,
            crate::buffer::outbound_abs(pending@),
        ),
        final(postbox).inbox@ == old(postbox).inbox@,
{
    let ghost cmds = crate::buffer::outbound_abs(pending@);
    let ghost out_pre = postbox.outbox@;
    let ghost in_pre = postbox.inbox@;
    let m = pending.len();
    let mut j: usize = 0;
    while j < m
        invariant
            m == pending@.len(),
            j <= m,
            cmds == crate::buffer::outbound_abs(pending@),
            cmds.len() == m,
            out_pre == old(postbox).outbox@,
            in_pre == old(postbox).inbox@,
            postbox.inbox@ == in_pre,
            postbox.outbox@.len() == out_pre.len() + j,
            forall|k: int| 0 <= k < out_pre.len()
                ==> #[trigger] postbox.outbox@[k] == out_pre[k],
            forall|k: int| 0 <= k < j ==> {
                let msg = #[trigger] postbox.outbox@[out_pre.len() + k];
                &&& msg is Command
                &&& msg->Command_0 == cmds[k].0
                &&& msg->Command_1@ == cmds[k].1
            },
        decreases m - j,
    {
        let f = pending[j].0;
        let cmd = pending[j].1.clone();
        proof {
            assert(cmd@ =~= pending@[j as int].1@);
        }
        postbox.send(ClientToServerMessage::Command(f, cmd));
        j = j + 1;
    }
}

pub struct ClientWorld {
    pub ticker: CommandFrameTicker,
    pub postbox: ClientPostBox,
    pub allocator: UidAllocator,
    pub registry: ComponentRegistry,
    pub command_buffer: ClientCommandBuffer,
    pub resimulation_buffer: ResimulationBuffer,
    pub world: WorldStorage,
    pub has_received_first_message: bool,
}

impl ClientWorld {
    pub open spec fn wf(self) -> bool {
        &&& self.ticker.wf()
        &&& self.allocator.wf()
        &&& self.registry.wf()
        &&& self.world.wf()
    }

    /// A fresh client: clock at frame zero and nominal speed, everything else
    /// empty, no server contact yet.
    pub fn new(nominal_micros: u64, now_micros: u64, history_frames: u32) -> (r: Self)
        requires
            1 <= nominal_micros <= MAX_NOMINAL_MICROS,
        ensures
            r.wf(),
            r.ticker.frame() == 0,
            r.ticker.nominal() == nominal_micros,
            r.postbox.inbox@ == Seq::<crate::postbox::ServerToClientMessage>::empty(),
            r.postbox.outbox@ == Seq::<ClientToServerMessage>::empty(),
            r.allocator.map() == Map::<u64, u32>::empty(),
            r.registry.by_id_map() == Map::<u32, u64>::empty(),
            r.command_buffer.abs() == Seq::<CommandEntryAbs>::empty(),
            r.command_buffer.history_frames == history_frames,
            r.resimulation_buffer.abs() == Seq::<ResimulationEntryAbs>::empty(),
            r.world.abs() == Map::<u32, Map<u32, Seq<u8>>>::empty(),
            !r.has_received_first_message,
    {
        ClientWorld {
            ticker: CommandFrameTicker::new(nominal_micros, now_micros),
            postbox: ClientPostBox::new(),
            allocator: UidAllocator::new(),
            registry: ComponentRegistry::new(),
            command_buffer: ClientCommandBuffer::new(history_frames),
            resimulation_buffer: ResimulationBuffer::new(),
            world: WorldStorage::new(),
            has_received_first_message: false,
        }
    }

    /// One cooperative pass: polls the clock, and on a tick reconciles every
    /// queued state update in arrival order and sends the current frame's
    /// pending commands. Returns whether a frame elapsed; a fatal error
    /// aborts the pass with the world partially updated.
    pub fn tick(&mut self, now_micros: u64) -> (r: Result<bool, SyncError>)
        requires
            old(self).wf(),
            old(self).ticker.frame() < u32::MAX,
        ensures
            final(self).wf(),
            final(self).ticker.nominal() == old(self).ticker.nominal(),
            ({
                let t0 = old(self).ticker;
                let ticked = now_micros >= t0.last_tick() && now_micros - t0.last_tick()
                    >= t0.effective();
                if !ticked {
                    r == Ok::<bool, SyncError>(false) && *final(self) == *old(self)
                } else {
                    let t1 = CommandFrameTicker {
                        current_frame: (t0.frame() + 1) as u32,
                        last_tick_micros: now_micros,
                        ..t0
                    };
                    match tick_updates_spec(
                        t1,
                        StepState::of(old(self).allocator, old(self).world),
                        old(self).resimulation_buffer.abs(),
                        old(self).has_received_first_message,
                        old(self).registry.by_id_map(),
                        old(self).registry.by_type_map(),
                        old(self).command_buffer.abs(),
                        state_updates(old(self).postbox.inbox@),
                    ) {
                        Err(e) => r == Err::<bool, SyncError>(e),
                        Ok((t2, st2, resim2, first2)) => {
                            &&& r == Ok::<bool, SyncError>(true)
                            &&& final(self).ticker == t2
                            &&& st2.matches(final(self).allocator, final(self).world)
                            &&& final(self).resimulation_buffer.abs() == resim2
                            &&& final(self).has_received_first_message == first2
                            &&& final(self).command_buffer.abs() == mark_sent(
                                old(self).command_buffer.abs(),
                                t2.current_frame,
                            )
                            &&& final(self).command_buffer.history_frames
                                == old(self).command_buffer.history_frames
                            &&& final(self).postbox.inbox@ == other_messages(
                                old(self).postbox.inbox@,
                            )
                            &&& outbox_extended(
                                old(self).postbox.outbox@,
                                final(self).postbox.outbox@,
                                unsent_at(old(self).command_buffer.abs(), t2.current_frame),
                            )
                            &&& final(self).registry.by_id_map()
                                == old(self).registry.by_id_map()
                            &&& final(self).registry.by_type_map()
                                == old(self).registry.by_type_map()
                        },
                    }
                }
            }),
    {
        if !self.ticker.try_tick(now_micros) {
            return Ok(false);
        }
        let ghost t1 = self.ticker;
        let ghost st0 = StepState::of(self.allocator, self.world);
        let ghost resim0 = self.resimulation_buffer.abs();
        let ghost first0 = self.has_received_first_message;
        let ghost reg_id = self.registry.by_id_map();
        let ghost reg_ty = self.registry.by_type_map();
        let ghost babs = self.command_buffer.abs();
        let ghost inbox0 = self.postbox.inbox@;
        let ghost outbox0 = self.postbox.outbox@;

        let updates = drain_state_updates(&mut self.postbox);
        let ghost ups = updates@;
        proof {
            assert(ups.skip(0) =~= ups);
        }
        let n = updates.len();
        let mut i: usize = 0;
        while i < n
            invariant
                self.wf(),
                n == ups.len(),
                i <= n,
                updates@ == ups,
                now_micros >= old(self).ticker.last_tick(),
                now_micros - old(self).ticker.last_tick() >= old(self).ticker.effective(),
                t1 == (CommandFrameTicker {
                    current_frame: (old(self).ticker.frame() + 1) as u32,
                    last_tick_micros: now_micros,
                    ..old(self).ticker
                }),
                st0 == StepState::of(old(self).allocator, old(self).world),
                resim0 == old(self).resimulation_buffer.abs(),
                first0 == old(self).has_received_first_message,
                reg_id == old(self).registry.by_id_map(),
                reg_ty == old(self).registry.by_type_map(),
                babs == old(self).command_buffer.abs(),
                inbox0 == old(self).postbox.inbox@,
                outbox0 == old(self).postbox.outbox@,
                ups == state_updates(inbox0),
                self.registry.by_id_map() == reg_id,
                self.registry.by_type_map() == reg_ty,
                self.command_buffer.abs() == babs,
                self.command_buffer.history_frames
                    == old(self).command_buffer.history_frames,
                self.postbox.inbox@ == other_messages(inbox0),
                self.postbox.outbox@ == outbox0,
                self.ticker.nominal() == old(self).ticker.nominal(),
                tick_updates_spec(t1, st0, resim0, first0, reg_id, reg_ty, babs, ups)
                    == tick_updates_spec(
                    self.ticker,
                    StepState::of(self.allocator, self.world),
                    self.resimulation_buffer.abs(),
                    self.has_received_first_message,
                    reg_id,
                    reg_ty,
                    babs,
                    ups.skip(i as int),
                ),
            decreases n - i,
        {
            proof {
                assert(ups.skip(i as int)[0] == ups[i as int]);
                assert(ups.skip(i as int).drop_first() =~= ups.skip(i as int + 1));
            }
            let ghost pre_ticker = self.ticker;
            let update = &updates[i];
            match crate::clock::adjust_simulation_speed(
                update.command_frame_offset,
                update.command_frame,
                &mut self.ticker,
            ) {
                Ok(_) => {},
                Err(e) => {
                    return Err(e);
                },
            }
            if !self.has_received_first_message {
                if update.command_frame > u32::MAX - FIRST_CONTACT_LEAD {
                    return Err(SyncError::FrameOutOfRange(update.command_frame));
                }
                self.has_received_first_message = true;
                self.ticker.set_command_frame(update.command_frame + FIRST_CONTACT_LEAD);
            }
            let frame = self.ticker.command_frame();
            match apply_world_state(
                &mut self.allocator,
                &mut self.world,
                &self.registry,
                &self.command_buffer,
                &mut self.resimulation_buffer,
                update,
                frame,
            ) {
                Ok(_) => {},
                Err(e) => {
                    return Err(e);
                },
            }
            i = i + 1;
        }
        proof {
            assert(ups.skip(n as int) =~= Seq::<WorldState>::empty());
        }

        // outbound: every not-yet-sent command of the current frame
        let frame = self.ticker.command_frame();
        let pending = self.command_buffer.take_unsent_at(frame);
        send_pending(&mut self.postbox, pending);
        Ok(true)
    }
}

} // verus!
