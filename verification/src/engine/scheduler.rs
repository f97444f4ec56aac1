//! The scheduler: it turns press and release events into the set of held
//! keys, runs one step of the machine with that set, and hands out the frame
//! to present. Waiting between steps and moving events and frames between
//! threads are left to the caller.

use vstd::prelude::*;
use super::fault::Fault;
use super::key::Key;
use super::keypad::{after_events, HeldKeys};
use super::machine::{agrees, draws_random, stepped, Machine};
use super::vm::{booted, MAX_ROM_LENGTH, VM};

verus! {

/// The time from the start of one step to the start of the next, in
/// microseconds: a little over sixty steps each second.
pub const TICK_PERIOD_MICROS: u64 = 16_600;

/// How long to wait before the next step, in microseconds, when `elapsed`
/// microseconds have passed since the last one began: what is left of the
/// period, and nothing once the period is over.
pub open spec fn pause(elapsed: u64) -> u64 {
    if elapsed < TICK_PERIOD_MICROS {
        (TICK_PERIOD_MICROS - elapsed) as u64
    } else {
        0
    }
}

/// The state of the scheduler.
pub struct SchedulerState {
    /// The machine that it drives.
    pub machine: Machine,
    /// The keys held after the last batch of events.
    pub held: Set<Key>,
}

/// Whether a tick that started on `before` with `held` keys and returned
/// `published`, leaving the machine as `after`, did what `expected` says: on
/// success the machine is the expected one and its frame is published, on a
/// fault the fault is the expected one and the machine has not changed.
pub open spec fn publishes(
    expected: Result<Machine, Fault>,
    before: Machine,
    published: Result<Vec<u32>, Fault>,
    after: Machine,
) -> bool {
    match expected {
        Ok(machine) => {
            &&& after == machine
            &&& published matches Ok(frame)
            &&& frame@ == machine.frame
        },
        Err(fault) => {
            &&& after == before
            &&& published matches Err(found)
            &&& found == fault
        },
    }
}

/// A machine together with the keys held on its keypad.
pub struct Scheduler {
    vm: VM,
    keys: HeldKeys,
}

impl View for Scheduler {
    type V = SchedulerState;

    closed spec fn view(&self) -> SchedulerState {
        SchedulerState { machine: self.vm@, held: self.keys@ }
    }
}

impl Scheduler {
    /// The invariant of the scheduler: its machine is well formed.
    pub closed spec fn wf(&self) -> bool {
        self.vm.wf()
    }

    /// A scheduler for a machine with `rom` loaded and no key held.
    pub fn new(rom: &[u8]) -> (scheduler: Scheduler)
        requires
            rom@.len() <= MAX_ROM_LENGTH,
        ensures
            scheduler.wf(),
            scheduler@.machine == booted(rom@),
            scheduler@.held == Set::<Key>::empty(),
    {
        Scheduler { vm: VM::new(rom), keys: HeldKeys::new() }
    }

    /// The machine.
    pub fn vm(&self) -> (vm: &VM)
        ensures
            vm@ == self@.machine,
            self.wf() ==> vm.wf(),
    {
        &self.vm
    }

    /// The keys held after the last batch of events.
    pub fn held_keys(&self) -> (keys: &HeldKeys)
        ensures
            keys@ == self@.held,
    {
        &self.keys
    }

    /// How long to wait before the next tick, in microseconds, when `elapsed`
    /// microseconds have passed since the last one began.
    pub fn pause_micros(elapsed: u64) -> (wait: u64)
        ensures
            wait == pause(elapsed),
    {
        if elapsed < TICK_PERIOD_MICROS {
            TICK_PERIOD_MICROS - elapsed
        } else {
            0
        }
    }

    /// Runs one tick: takes in the events that have arrived since the last
    /// one, presses first, then runs one step of the machine with the keys
    /// now held and returns the frame to present. The step is the one that
    /// `stepped` describes: for the random-number operation with the byte
    /// that was drawn, whichever it is, for every other instruction with any
    /// byte. The events are taken in whether or not the step faults.
    pub fn tick(&mut self, pressed: &[Key], released: &[Key]) -> (published: Result<
        Vec<u32>,
        Fault,
    >)
        requires
            old(self).wf(),
        ensures
            final(self).wf(),
            final(self)@.held == after_events(old(self)@.held, pressed@, released@),
            exists|random: u8|
                publishes(
                    #[trigger] stepped(old(self)@.machine, final(self)@.held, random),
                    old(self)@.machine,
                    published,
                    final(self)@.machine,
                ),
            !draws_random(old(self)@.machine) ==> publishes(
                stepped(old(self)@.machine, final(self)@.held, 0),
                old(self)@.machine,
                published,
                final(self)@.machine,
            ),
    {
        let ghost before = self@.machine;
        self.keys.update(pressed, released);
        let keys = self.keys.snapshot();
        let result = self.vm.tick(keys.as_slice());
        let published = match result {
            Ok(()) => Ok(self.vm.get_current_frame()),
            Err(fault) => Err(fault),
        };
        proof {
            let random = choose|random: u8|
                agrees(
                    #[trigger] stepped(before, keys@.to_set(), random),
                    before,
                    result,
                    self@.machine,
                );
            assert(publishes(
                stepped(before, self@.held, random),
                before,
                published,
                self@.machine,
            ));
        }
        published
    }
}

} // verus!
