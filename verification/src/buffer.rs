//! Per-frame history of predicted commands, and the queue of entities that
//! need replay.
//!
//! The command buffer keeps one record per issued command: the command's
//! encoded bytes, the component snapshot immediately before simulating it and
//! immediately after, and a sent flag. Records are kept in insertion order
//! (oldest first); within one entity and frame the chronologically first
//! record is the oldest. The history is bounded by a configurable number of
//! frames, enforced by `prune`.
//!
//! The resimulation buffer holds, per detected misprediction pass, the frame
//! span and the chronologically ordered records to replay; the simulation
//! collaborator consumes each entry exactly once by draining the buffer.

use vstd::prelude::*;

use vstd::pervasive::VecAdditionalExecFns;

verus! {

/// One record per (entity, component type, command frame): the issued
/// command and the component snapshots around its simulation.
pub struct ClientCommandBufferEntry {
    pub entity_id: u64,
    pub component_type: u64,
    pub command_frame: u32,
    /// Encoded command bytes.
    pub command: Vec<u8>,
    /// Component payload immediately before the command was simulated.
    pub unchanged_data: Vec<u8>,
    /// Component payload immediately after the command was simulated.
    pub changed_data: Vec<u8>,
    pub is_sent: bool,
}

/// Spec-level value of a command buffer record.
pub struct CommandEntryAbs {
    pub entity_id: u64,
    pub component_type: u64,
    pub command_frame: u32,
    pub command: Seq<u8>,
    pub unchanged_data: Seq<u8>,
    pub changed_data: Seq<u8>,
    pub is_sent: bool,
}

impl ClientCommandBufferEntry {
    pub open spec fn abs(self) -> CommandEntryAbs {
        CommandEntryAbs {
            entity_id: self.entity_id,
            component_type: self.component_type,
            command_frame: self.command_frame,
            command: self.command@,
            unchanged_data: self.unchanged_data@,
            changed_data: self.changed_data@,
            is_sent: self.is_sent,
        }
    }

    /// A copy of the record with the same spec-level value.
    pub fn duplicate(&self) -> (r: Self)
        ensures
            r.abs() == self.abs(),
    {
        let command = self.command.clone();
        let unchanged_data = self.unchanged_data.clone();
        let changed_data = self.changed_data.clone();
        proof {
            assert(command@ =~= self.command@);
            assert(unchanged_data@ =~= self.unchanged_data@);
            assert(changed_data@ =~= self.changed_data@);
        }
        ClientCommandBufferEntry {
            entity_id: self.entity_id,
            component_type: self.component_type,
            command_frame: self.command_frame,
            command,
            unchanged_data,
            changed_data,
            is_sent: self.is_sent,
        }
    }
}

/// The spec-level values of a sequence of records.
pub open spec fn entries_abs(s: Seq<ClientCommandBufferEntry>) -> Seq<CommandEntryAbs> {
    s.map_values(|e: ClientCommandBufferEntry| e.abs())
}

/// The records kept by `prune` for a given current frame and history bound:
/// those whose frame is within the bound, in unchanged order.
pub open spec fn pruned(
    s: Seq<CommandEntryAbs>,
    current_frame: u32,
    history_frames: u32,
) -> Seq<CommandEntryAbs>
    decreases s.len(),
{
    if s.len() == 0 {
        s
    } else {
        let pre = pruned(s.drop_last(), current_frame, history_frames);
        if s.last().command_frame as int + history_frames as int >= current_frame as int {
            pre.push(s.last())
        } else {
            pre
        }
    }
}

pub struct ClientCommandBuffer {
    pub entries: Vec<ClientCommandBufferEntry>,
    pub history_frames: u32,
}

impl ClientCommandBuffer {
    /// The records in insertion order, oldest first.
    pub open spec fn abs(self) -> Seq<CommandEntryAbs> {
        entries_abs(self.entries@)
    }

    pub fn new(history_frames: u32) -> (r: Self)
        ensures
            r.abs() == Seq::<CommandEntryAbs>::empty(),
            r.history_frames == history_frames,
    {
        let r = ClientCommandBuffer { entries: Vec::new(), history_frames };
        proof {
            assert(r.abs() =~= Seq::<CommandEntryAbs>::empty());
        }
        r
    }

    /// Records one issued command together with its surrounding snapshots.
    pub fn push(&mut self, entry: ClientCommandBufferEntry)
        ensures
            final(self).abs() == old(self).abs().push(entry.abs()),
            final(self).history_frames == old(self).history_frames,
    {
        let ghost pre = self.abs();
        let ghost e = entry.abs();
        self.entries.push(entry);
        proof {
            assert(self.abs() =~= pre.push(e));
        }
    }

    /// Drops every record older than the history bound, counted back from the
    /// given current frame; order is kept.
    pub fn prune(&mut self, current_frame: u32)
        ensures
            final(self).abs() == pruned(
                old(self).abs(),
                current_frame,
                old(self).history_frames,
            ),
            final(self).history_frames == old(self).history_frames,
    {
        let ghost orig = self.abs();
        let mut kept: Vec<ClientCommandBufferEntry> = Vec::new();
        let mut i: usize = 0;
        let n = self.entries.len();
        while i < n
            invariant
                n == self.entries@.len(),
                i <= n,
                orig == entries_abs(self.entries@),
                entries_abs(kept@) == pruned(
                    orig.take(i as int),
                    current_frame,
                    self.history_frames,
                ),
            decreases n - i,
        {
            let ghost prefix = orig.take(i as int);
            let e = &self.entries[i];
            if e.command_frame as u64 + self.history_frames as u64 >= current_frame as u64 {
                let ghost pre_kept = entries_abs(kept@);
                kept.push(self.entries[i].duplicate());
                proof {
                    assert(entries_abs(kept@) =~= pre_kept.push(orig[i as int]));
                }
            }
            proof {
                assert(orig.take(i as int + 1).drop_last() =~= prefix);
                assert(orig.take(i as int + 1).last() == orig[i as int]);
            }
            i = i + 1;
        }
        proof {
            assert(orig.take(n as int) =~= orig);
        }
        self.entries = kept;
    }

    /// Shared access to the records, oldest first.
    pub fn entries(&self) -> (r: &Vec<ClientCommandBufferEntry>)
        ensures
            entries_abs(r@) == self.abs(),
    {
        &self.entries
    }

    /// Collects every not-yet-sent command recorded at exactly the given
    /// frame, in insertion order, and marks those records sent — so each
    /// command leaves at most once per frame. Returns the (frame, command
    /// bytes) pairs to hand to the transport queue.
    pub fn take_unsent_at(&mut self, frame: u32) -> (out: Vec<(u32, Vec<u8>)>)
        ensures
            final(self).abs() == mark_sent(old(self).abs(), frame),
            final(self).history_frames == old(self).history_frames,
            outbound_abs(out@) == unsent_at(old(self).abs(), frame),
    {
        let ghost orig = self.abs();
        let mut out: Vec<(u32, Vec<u8>)> = Vec::new();
        let mut i: usize = 0;
        let n = self.entries.len();
        while i < n
            invariant
                n == self.entries@.len(),
                i <= n,
                orig.len() == n,
                self.history_frames == old(self).history_frames,
                forall|j: int| 0 <= j < i
                    ==> #[trigger] entries_abs(self.entries@)[j] == mark_sent(orig, frame)[j],
                forall|j: int| i <= j < n
                    ==> #[trigger] entries_abs(self.entries@)[j] == orig[j],
                outbound_abs(out@) == unsent_at(orig.take(i as int), frame),
            decreases n - i,
        {
            let ghost prefix = orig.take(i as int);
            proof {
                assert(entries_abs(self.entries@)[i as int] == orig[i as int]);
                assert(orig.take(i as int + 1).drop_last() =~= prefix);
                assert(orig.take(i as int + 1).last() == orig[i as int]);
            }
            if self.entries[i].command_frame == frame && !self.entries[i].is_sent {
                let ghost pre_out = outbound_abs(out@);
                let cmd = self.entries[i].command.clone();
                proof {
                    assert(cmd@ =~= self.entries@[i as int].command@);
                    assert(cmd@ == orig[i as int].command);
                }
                out.push((frame, cmd));
                let mut fresh = self.entries[i].duplicate();
                proof {
                    assert(fresh.abs() == orig[i as int]);
                }
                fresh.is_sent = true;
                let ghost pre_entries = self.entries@;
                self.entries.set(i, fresh);
                proof {
                    assert(outbound_abs(out@) =~~= pre_out.push(
                        (frame, orig[i as int].command),
                    ));
                    assert(self.entries@ == pre_entries.update(i as int, fresh));
                    assert forall|j: int| 0 <= j < n && j != i
                        implies #[trigger] entries_abs(self.entries@)[j]
                            == entries_abs(pre_entries)[j] by {
                        assert(self.entries@[j] == pre_entries[j]);
                    }
                    assert(entries_abs(self.entries@)[i as int] == fresh.abs());
                    assert(fresh.abs() == (CommandEntryAbs {
                        is_sent: true,
                        ..orig[i as int]
                    }));
                    assert(entries_abs(self.entries@)[i as int]
                        == mark_sent(orig, frame)[i as int]);
                }
            } else {
                proof {
                    assert(entries_abs(self.entries@)[i as int]
                        == mark_sent(orig, frame)[i as int]);
                    assert(unsent_at(orig.take(i as int + 1), frame) == unsent_at(prefix, frame));
                }
            }
            i = i + 1;
        }
        proof {
            assert(orig.take(n as int) =~= orig);
            assert(entries_abs(self.entries@) =~~= mark_sent(orig, frame));
            assert(outbound_abs(out@) == unsent_at(orig, frame));
        }
        out
    }
}

/// The records after an outbound pass at the given frame: unsent records of
/// that frame become sent, everything else is untouched.
pub open spec fn mark_sent(s: Seq<CommandEntryAbs>, frame: u32) -> Seq<CommandEntryAbs> {
    s.map_values(
        |e: CommandEntryAbs|
            if e.command_frame == frame && !e.is_sent {
                CommandEntryAbs { is_sent: true, ..e }
            } else {
                e
            },
    )
}

/// The spec-level values of the collected (frame, command bytes) pairs.
pub open spec fn outbound_abs(s: Seq<(u32, Vec<u8>)>) -> Seq<(u32, Seq<u8>)> {
    s.map_values(|p: (u32, Vec<u8>)| (p.0, p.1@))
}

/// The (frame, command bytes) pairs of the not-yet-sent records at exactly
/// the given frame, in insertion order.
pub open spec fn unsent_at(s: Seq<CommandEntryAbs>, frame: u32) -> Seq<(u32, Seq<u8>)>
    decreases s.len(),
{
    if s.len() == 0 {
        Seq::empty()
    } else {
        let pre = unsent_at(s.drop_last(), frame);
        if s.last().command_frame == frame && !s.last().is_sent {
            pre.push((frame, s.last().command))
        } else {
            pre
        }
    }
}

/// One batch of records to replay from the server's accepted state.
pub struct ResimulationEntry {
    /// The server frame whose authoritative state replay starts from.
    pub server_command_frame: u32,
    /// The client frame at which the misprediction was detected.
    pub client_command_frame: u32,
    /// The affected records, in chronological order.
    pub entries: Vec<ClientCommandBufferEntry>,
}

/// Spec-level value of a resimulation batch.
pub struct ResimulationEntryAbs {
    pub server_command_frame: u32,
    pub client_command_frame: u32,
    pub entries: Seq<CommandEntryAbs>,
}

impl ResimulationEntry {
    pub open spec fn abs(self) -> ResimulationEntryAbs {
        ResimulationEntryAbs {
            server_command_frame: self.server_command_frame,
            client_command_frame: self.client_command_frame,
            entries: entries_abs(self.entries@),
        }
    }
}

pub struct ResimulationBuffer {
    pub entries: Vec<ResimulationEntry>,
}

impl ResimulationBuffer {
    pub open spec fn abs(self) -> Seq<ResimulationEntryAbs> {
        self.entries@.map_values(|e: ResimulationEntry| e.abs())
    }

    pub fn new() -> (r: Self)
        ensures
            r.abs() == Seq::<ResimulationEntryAbs>::empty(),
    {
        let r = ResimulationBuffer { entries: Vec::new() };
        proof {
            assert(r.abs() =~= Seq::<ResimulationEntryAbs>::empty());
        }
        r
    }

    /// Appends one batch of records to replay.
    pub fn push(
        &mut self,
        server_command_frame: u32,
        client_command_frame: u32,
        entries: Vec<ClientCommandBufferEntry>,
    )
        ensures
            final(self).abs() == old(self).abs().push(ResimulationEntryAbs {
                server_command_frame,
                client_command_frame,
                entries: entries_abs(entries@),
            }),
    {
        let ghost pre = self.abs();
        let ghost e = entries_abs(entries@);
        self.entries.push(ResimulationEntry {
            server_command_frame,
            client_command_frame,
            entries,
        });
        proof {
            assert(self.abs() =~= pre.push(ResimulationEntryAbs {
                server_command_frame,
                client_command_frame,
                entries: e,
            }));
        }
    }

    /// Hands every pending batch to the simulation collaborator and empties
    /// the queue: each batch is consumed exactly once.
    pub fn drain(&mut self) -> (out: Vec<ResimulationEntry>)
        ensures
            out@.map_values(|e: ResimulationEntry| e.abs()) == old(self).abs(),
            final(self).abs() == Seq::<ResimulationEntryAbs>::empty(),
    {
        let mut out: Vec<ResimulationEntry> = Vec::new();
        core::mem::swap(&mut out, &mut self.entries);
        proof {
            assert(self.abs() =~= Seq::<ResimulationEntryAbs>::empty());
        }
        out
    }

    pub fn len(&self) -> (n: usize)
        ensures
            n == self.abs().len(),
    {
        self.entries.len()
    }
}

} // verus!
