//! Logical command-frame clock with adaptive rate control.
//!
//! The client owns a monotonically increasing tick counter. `try_tick` is a
//! non-blocking poll: it advances the counter once the caller-supplied
//! monotonic clock reading shows that one effective tick duration has elapsed.
//! The effective duration is the nominal duration scaled by a speed factor;
//! the factor is kept in sixteenths so that every value the drift-correction
//! policy uses (14/16 through 18/16) is exact in integers.

use vstd::prelude::*;

use crate::error::SyncError;

verus! {

/// Assumed nominal one-way-plus-processing delay, in frames.
pub const DEFAULT_LAG: i32 = 200;

/// Extra frames of lead seeded on first contact with the server.
pub const FIRST_CONTACT_LEAD: u32 = 3;

/// Speed factor denominator: factors are counted in sixteenths.
pub const SPEED_UNIT: u32 = 16;

/// Largest nominal tick duration, chosen so that scaling by 18/16 cannot
/// overflow a `u64`.
pub const MAX_NOMINAL_MICROS: u64 = 0x0100_0000_0000_0000;

pub struct CommandFrameTicker {
    pub current_frame: u32,
    pub nominal_micros: u64,
    pub effective_micros: u64,
    pub speed_sixteenths: u32,
    pub last_tick_micros: u64,
}

impl CommandFrameTicker {
    /// Internal consistency: the nominal duration is positive and small enough
    /// to scale, the speed factor is one of the five the policy uses, and the
    /// effective duration is the nominal one scaled by it.
    pub open spec fn wf(self) -> bool {
        &&& 1 <= self.nominal_micros <= MAX_NOMINAL_MICROS
        &&& 14 <= self.speed_sixteenths <= 18
        &&& self.effective_micros == self.nominal_micros as int * self.speed_sixteenths as int
            / (SPEED_UNIT as int)
    }

    pub open spec fn frame(self) -> u32 {
        self.current_frame
    }

    pub open spec fn nominal(self) -> u64 {
        self.nominal_micros
    }

    pub open spec fn speed(self) -> u32 {
        self.speed_sixteenths
    }

    pub open spec fn effective(self) -> u64 {
        self.effective_micros
    }

    pub open spec fn last_tick(self) -> u64 {
        self.last_tick_micros
    }

    /// A fresh clock at frame zero, running at nominal speed, whose last tick
    /// is the given clock reading.
    pub fn new(nominal_micros: u64, now_micros: u64) -> (t: Self)
        requires
            1 <= nominal_micros <= MAX_NOMINAL_MICROS,
        ensures
            t.wf(),
            t.frame() == 0,
            t.nominal() == nominal_micros,
            t.speed() == SPEED_UNIT,
            t.effective() == nominal_micros,
            t.last_tick() == now_micros,
    {
        proof {
            assert(nominal_micros * 16 / 16 == nominal_micros) by (nonlinear_arith);
        }
        CommandFrameTicker {
            current_frame: 0,
            nominal_micros,
            effective_micros: nominal_micros * SPEED_UNIT as u64 / SPEED_UNIT as u64,
            speed_sixteenths: SPEED_UNIT,
            last_tick_micros: now_micros,
        }
    }

    pub fn command_frame(&self) -> (f: u32)
        ensures
            f == self.frame(),
    {
        self.current_frame
    }

    /// The nominal tick duration the clock was configured with.
    pub fn default_simulation_speed(&self) -> (d: u64)
        ensures
            d == self.nominal(),
    {
        self.nominal_micros
    }

    pub fn speed_sixteenths(&self) -> (s: u32)
        ensures
            s == self.speed(),
    {
        self.speed_sixteenths
    }

    /// Hard-resets the tick counter without touching the rate.
    pub fn set_command_frame(&mut self, frame: u32)
        ensures
            final(self).current_frame == frame,
            final(self).nominal_micros == old(self).nominal_micros,
            final(self).effective_micros == old(self).effective_micros,
            final(self).speed_sixteenths == old(self).speed_sixteenths,
            final(self).last_tick_micros == old(self).last_tick_micros,
            old(self).wf() ==> final(self).wf(),
    {
        self.current_frame = frame;
    }

    /// Changes the effective tick duration going forward: the nominal duration
    /// is rescaled by the given factor in sixteenths. The counter is untouched.
    pub fn adjust_simulation(&mut self, speed_sixteenths: u32)
        requires
            old(self).wf(),
            14 <= speed_sixteenths <= 18,
        ensures
            final(self).wf(),
            final(self).current_frame == old(self).current_frame,
            final(self).nominal_micros == old(self).nominal_micros,
            final(self).speed_sixteenths == speed_sixteenths,
            final(self).effective_micros == old(self).nominal_micros as int
                * speed_sixteenths as int / (SPEED_UNIT as int),
            final(self).last_tick_micros == old(self).last_tick_micros,
    {
        proof {
            assert(self.nominal_micros * speed_sixteenths <= MAX_NOMINAL_MICROS * 18)
                by (nonlinear_arith)
                requires
                    1 <= self.nominal_micros <= MAX_NOMINAL_MICROS,
                    14 <= speed_sixteenths <= 18,
            ;
        }
        self.speed_sixteenths = speed_sixteenths;
        self.effective_micros = self.nominal_micros * speed_sixteenths as u64
            / SPEED_UNIT as u64;
    }

    /// Cooperative, non-blocking poll: returns true and advances the counter
    /// exactly when one effective tick duration has elapsed since the last
    /// tick, as measured by the caller's monotonic clock reading.
    pub fn try_tick(&mut self, now_micros: u64) -> (ticked: bool)
        requires
            old(self).frame() < u32::MAX,
        ensures
            ticked == (now_micros >= old(self).last_tick()
                && now_micros - old(self).last_tick() >= old(self).effective()),
            ticked ==> final(self).current_frame == old(self).current_frame + 1
                && final(self).last_tick_micros == now_micros,
            !ticked ==> *final(self) == *old(self),
            final(self).nominal_micros == old(self).nominal_micros,
            final(self).effective_micros == old(self).effective_micros,
            final(self).speed_sixteenths == old(self).speed_sixteenths,
            old(self).wf() ==> final(self).wf(),
    {
        if now_micros >= self.last_tick_micros
            && now_micros - self.last_tick_micros >= self.effective_micros {
            self.current_frame = self.current_frame + 1;
            self.last_tick_micros = now_micros;
            true
        } else {
            false
        }
    }
}

/// Drift-correction policy, run once per received state update before the
/// update is applied.
///
/// `offset` is the server-reported view of how the client's command frame
/// relates to the server's. An offset equal to the assumed lag needs no
/// correction. An offset outside [-30, 30] is a severe desync: the counter is
/// hard-reset to `server_command_frame + DEFAULT_LAG` and the speed factor to
/// one. Otherwise the speed factor is chosen by the banded thresholds below
/// and the effective tick duration is rescaled; the counter is untouched.
///
/// The only failure is a server frame so close to the top of the frame range
/// that the hard-reset target would not fit; the clock is then left unchanged.
pub fn adjust_simulation_speed(
    offset: i32,
    server_command_frame: u32,
    ticker: &mut CommandFrameTicker,
) -> (r: Result<(), SyncError>)
    requires
        old(ticker).wf(),
    ensures
        final(ticker).wf(),
        final(ticker).nominal_micros == old(ticker).nominal(),
        final(ticker).last_tick_micros == old(ticker).last_tick(),
        match drift_adjusted(*old(ticker), offset, server_command_frame) {
            Ok(t) => r is Ok && *final(ticker) == t,
            Err(e) => r is Err && r->Err_0 == e,
        },
        r is Err <==> (offset != DEFAULT_LAG && (offset < -30 || offset > 30)
            && server_command_frame > u32::MAX - (DEFAULT_LAG as u32)),
        r is Err ==> *final(ticker) == *old(ticker)
            && r->Err_0 == SyncError::FrameOutOfRange(server_command_frame),
        r is Ok && offset == DEFAULT_LAG ==> *final(ticker) == *old(ticker),
        r is Ok && offset != DEFAULT_LAG ==> {
            &&& final(ticker).speed() == drift_speed_sixteenths(offset)
            &&& final(ticker).effective() == old(ticker).nominal() as int
                * drift_speed_sixteenths(offset) as int / (SPEED_UNIT as int)
            &&& if offset < -30 || offset > 30 {
                final(ticker).frame() == server_command_frame + DEFAULT_LAG as u32
            } else {
                final(ticker).frame() == old(ticker).frame()
            }
        },
{
    if offset == DEFAULT_LAG {
        return Ok(());
    }

    let speed_sixteenths: u32;
    if offset < -30 || offset > 30 {
        if server_command_frame > u32::MAX - DEFAULT_LAG as u32 {
            return Err(SyncError::FrameOutOfRange(server_command_frame));
        }
        speed_sixteenths = 16;
        ticker.set_command_frame(server_command_frame + DEFAULT_LAG as u32);
    } else if offset < -15 {
        speed_sixteenths = 14;
    } else if offset < 0 {
        speed_sixteenths = 15;
    } else if offset > 15 {
        speed_sixteenths = 18;
    } else if offset > 8 {
        speed_sixteenths = 17;
    } else {
        speed_sixteenths = 16;
    }

    ticker.adjust_simulation(speed_sixteenths);
    Ok(())
}

/// The clock value the drift-correction policy leaves behind, as a function
/// of the old clock and the server's report; `Err` exactly when a hard reset
/// would overflow the frame range, in which case the clock is unchanged.
pub open spec fn drift_adjusted(
    t: CommandFrameTicker,
    offset: i32,
    server_frame: u32,
) -> Result<CommandFrameTicker, SyncError> {
    if offset == DEFAULT_LAG {
        Ok(t)
    } else if offset < -30 || offset > 30 {
        if server_frame > u32::MAX - (DEFAULT_LAG as u32) {
            Err(SyncError::FrameOutOfRange(server_frame))
        } else {
            Ok(CommandFrameTicker {
                current_frame: (server_frame + DEFAULT_LAG as u32) as u32,
                speed_sixteenths: 16,
                effective_micros: (t.nominal_micros as int * 16 / 16) as u64,
                ..t
            })
        }
    } else {
        Ok(CommandFrameTicker {
            speed_sixteenths: drift_speed_sixteenths(offset),
            effective_micros: (t.nominal_micros as int * drift_speed_sixteenths(offset) as int
                / 16) as u64,
            ..t
        })
    }
}

/// The speed factor, in sixteenths, that the drift-correction policy chooses
/// for a given offset (when the offset is not exactly the assumed lag).
pub open spec fn drift_speed_sixteenths(offset: i32) -> u32 {
    if offset < -30 || offset > 30 {
        16
    } else if offset < -15 {
        14
    } else if offset < 0 {
        15
    } else if offset > 15 {
        18
    } else if offset > 8 {
        17
    } else {
        16
    }
}

} // verus!
