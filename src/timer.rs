use vstd::prelude::*;

use crate::process::ProcessManager;

verus! {

/// Input clock of the programmable interval timer, in Hz.
pub const PIT_FREQUENCY: usize = 1193182;

/// Tick rate: 100 Hz, a tick every 10 ms.
pub const TARGET_FREQUENCY: usize = 100;

/// PIT command port.
pub const PIT_COMMAND_PORT: u16 = 0x43;

/// PIT channel 0 data port.
pub const PIT_DATA_PORT: u16 = 0x40;

/// Channel 0, low then high byte, square wave.
pub const PIT_MODE: u8 = 0x36;

/// Milliseconds of `ticks` ticks, held at the largest `usize`.
pub open spec fn uptime_ms(ticks: nat) -> nat {
    let ms = ticks * 1000 / (TARGET_FREQUENCY as nat);
    if ms > usize::MAX {
        usize::MAX as nat
    } else {
        ms
    }
}

/// Uptime never decreases as ticks go by.
pub proof fn lemma_uptime_monotonic(a: nat, b: nat)
    requires
        a <= b,
    ensures
        uptime_ms(a) <= uptime_ms(b),
{
    assert(a * 1000 / 100 <= b * 1000 / 100) by (nonlinear_arith)
        requires
            a <= b,
    {}
}

/// The PIT divisor that gives the tick rate, as the low and high bytes sent
/// to the data port.
pub fn divisor_bytes() -> (r: (u8, u8))
    ensures
        r.0 as int == (PIT_FREQUENCY / TARGET_FREQUENCY) % 256,
        r.1 as int == (PIT_FREQUENCY / TARGET_FREQUENCY) / 256,
{
    let divisor = PIT_FREQUENCY / TARGET_FREQUENCY;
    ((divisor % 256) as u8, (divisor / 256) as u8)
}

/// The tick counter.
pub struct Timer {
    ticks: usize,
}

impl Timer {
    pub closed spec fn ticks(&self) -> nat {
        self.ticks as nat
    }

    pub fn new() -> (r: Self)
        ensures
            r.ticks() == 0,
    {
        Timer { ticks: 0 }
    }

    /// Counts one tick; the count stays at the largest `usize` once there.
    pub fn tick(&mut self)
        ensures
            final(self).ticks() == if old(self).ticks() < usize::MAX { old(self).ticks() + 1 } else { old(self).ticks() },
    {
        self.ticks = self.ticks.saturating_add(1);
    }

    /// Ticks since start.
    pub fn get_ticks(&self) -> (r: usize)
        ensures
            r == self.ticks(),
    {
        self.ticks
    }

    /// Milliseconds since start.
    pub fn get_uptime_ms(&self) -> (r: usize)
        ensures
            r == uptime_ms(self.ticks()),
    {
        let ms: u128 = (self.ticks as u128) * 1000 / (TARGET_FREQUENCY as u128);
        if ms > usize::MAX as u128 {
            usize::MAX
        } else {
            ms as usize
        }
    }
}

/// A timer interrupt: one tick, then one scheduling step; the pid to run.
pub fn handle_interrupt(timer: &mut Timer, manager: &mut Option<ProcessManager>) -> (r: Option<usize>)
    requires
        crate::process::slot_wf(*old(manager)),
    ensures
        crate::process::slot_wf(*final(manager)),
        final(timer).ticks() >= old(timer).ticks(),
        final(timer).ticks() == if old(timer).ticks() < usize::MAX { old(timer).ticks() + 1 } else { old(timer).ticks() },
        match *old(manager) {
            None => r is None && *final(manager) is None,
            Some(m) => *final(manager) matches Some(n) && m@.schedule_spec(n@, r),
        },
{
    timer.tick();
    crate::process::tick(manager)
}

/// Ticks since start.
pub fn get_ticks(timer: &Timer) -> (r: usize)
    ensures
        r == timer.ticks(),
{
    timer.get_ticks()
}

/// Milliseconds since start.
pub fn get_uptime_ms(timer: &Timer) -> (r: usize)
    ensures
        r == uptime_ms(timer.ticks()),
{
    timer.get_uptime_ms()
}

/// The uptime at which a sleep of `ms` started at `now` ends.
pub fn sleep_target(now: usize, ms: usize) -> (r: usize)
    ensures
        r == if now + ms > usize::MAX { usize::MAX as int } else { now + ms },
{
    now.saturating_add(ms)
}

} // verus!
