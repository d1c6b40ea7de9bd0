use vstd::prelude::*;

use crate::connections::{connection_rows, shown_owner, ConnectionOwnership, ConnectionRow};
use crate::store::{count_segment, ConnectionKey, NetworkUtilization, UtilizationRecord};
use crate::traffic::{parse_frame, spec_parse, InterfaceIdentity};

verus! {

/// The number of units that run until shutdown: capture, render and input.
pub const UNITS: u8 = 3;

/// A key press, as far as the session cares.
#[derive(PartialEq, Eq, Structural, Clone, Copy, Debug)]
pub enum InputEvent {
    Char(char),
    Ctrl(char),
    Other,
}

pub open spec fn spec_is_quit(e: InputEvent) -> bool {
    e == InputEvent::Ctrl('c') || e == InputEvent::Char('q')
}

/// Whether `e` is the quit gesture: `q`, or Ctrl-C.
pub fn is_quit(e: &InputEvent) -> (r: bool)
    ensures
        r == spec_is_quit(*e),
{
    match e {
        InputEvent::Char(c) => *c == 'q',
        InputEvent::Ctrl(c) => *c == 'c',
        InputEvent::Other => false,
    }
}

#[derive(PartialEq, Eq, Structural, Clone, Copy, Debug)]
pub enum Phase {
    Running,
    ShuttingDown,
    Stopped,
}

/// The life of the whole process: running until a quit gesture, shutting down
/// until every unit has been joined, then stopped for good.
pub struct Session {
    phase: Phase,
    joined: u8,
}

impl Session {
    pub closed spec fn wf(&self) -> bool {
        &&& self.joined <= UNITS
        &&& self.phase == Phase::Running ==> self.joined == 0
        &&& self.phase == Phase::ShuttingDown ==> self.joined < UNITS
        &&& self.phase == Phase::Stopped ==> self.joined == UNITS
    }

    pub fn new() -> (r: Session)
        ensures
            r.wf(),
            r.spec_phase() == Phase::Running,
            r.spec_joined() == 0,
    {
        Session { phase: Phase::Running, joined: 0 }
    }

    pub closed spec fn spec_phase(&self) -> Phase {
        self.phase
    }

    pub closed spec fn spec_joined(&self) -> u8 {
        self.joined
    }

    pub fn phase(&self) -> (r: Phase)
        ensures
            r == self.spec_phase(),
    {
        self.phase
    }

    /// How many units have returned and been joined.
    pub fn joined(&self) -> (r: u8)
        ensures
            r == self.spec_joined(),
    {
        self.joined
    }

    /// A unit met a failure it cannot recover from: a running session starts
    /// shutting down, so that every unit stops and is joined.
    pub fn on_fatal_failure(&mut self)
        requires
            old(self).wf(),
        ensures
            final(self).wf(),
            final(self).spec_joined() == old(self).spec_joined(),
            final(self).spec_phase() == (if old(self).spec_phase() == Phase::Running {
                Phase::ShuttingDown
            } else {
                old(self).spec_phase()
            }),
    {
        if self.is_running() {
            self.phase = Phase::ShuttingDown;
        }
    }

    /// The shared run signal: true only while running.
    pub fn is_running(&self) -> (r: bool)
        ensures
            r == (self.spec_phase() == Phase::Running),
    {
        match self.phase {
            Phase::Running => true,
            _ => false,
        }
    }

    /// Handles one input event. A quit gesture while running begins the
    /// shutdown; any other event changes nothing. Returns whether the input unit
    /// stops reading: exactly on a quit gesture.
    pub fn on_input(&mut self, e: &InputEvent) -> (stop: bool)
        requires
            old(self).wf(),
        ensures
            final(self).wf(),
            stop == spec_is_quit(*e),
            final(self).spec_joined() == old(self).spec_joined(),
            final(self).spec_phase() == (if stop && old(self).spec_phase() == Phase::Running {
                Phase::ShuttingDown
            } else {
                old(self).spec_phase()
            }),
    {
        let stop = is_quit(e);
        if stop && self.is_running() {
            self.phase = Phase::ShuttingDown;
        }
        stop
    }

    /// Records that one more unit has returned and been joined; the last of
    /// them stops the session.
    pub fn on_unit_joined(&mut self)
        requires
            old(self).wf(),
            old(self).spec_phase() == Phase::ShuttingDown,
        ensures
            final(self).wf(),
            final(self).spec_joined() == old(self).spec_joined() + 1,
            final(self).spec_phase() == (if final(self).spec_joined() == UNITS {
                Phase::Stopped
            } else {
                Phase::ShuttingDown
            }),
    {
        self.joined = self.joined + 1;
        if self.joined == UNITS {
            self.phase = Phase::Stopped;
        }
    }
}

#[derive(PartialEq, Eq, Structural, Clone, Copy, Debug)]
pub enum RenderAction {
    /// Clear the screen and hide the cursor.
    SetUpTerminal,
    /// Draw one tick, then wait for the next.
    Tick,
    /// Clear the screen and show the cursor again.
    RestoreTerminal,
    /// Return from the render unit.
    Exit,
}

/// Where the render unit stands in its own life: whether it has set the
/// terminal up, and whether it has restored it.
#[derive(PartialEq, Eq, Structural, Clone, Copy, Debug)]
pub struct RenderUnit {
    pub set_up: bool,
    pub restored: bool,
}

pub open spec fn spec_render_step(u: RenderUnit, running: bool) -> (RenderUnit, RenderAction) {
    if !u.set_up {
        (RenderUnit { set_up: true, ..u }, RenderAction::SetUpTerminal)
    } else if running && !u.restored {
        (u, RenderAction::Tick)
    } else if !u.restored {
        (RenderUnit { restored: true, ..u }, RenderAction::RestoreTerminal)
    } else {
        (u, RenderAction::Exit)
    }
}

/// How many times a render unit that starts in `u`, and sees the run signal
/// take the values `signals` one per step, restores the terminal.
pub open spec fn restore_count(u: RenderUnit, signals: Seq<bool>) -> nat
    decreases signals.len(),
{
    if signals.len() == 0 {
        0
    } else {
        let (next, action) = spec_render_step(u, signals[0]);
        (if action == RenderAction::RestoreTerminal { 1nat } else { 0nat }) + restore_count(
            next,
            signals.skip(1),
        )
    }
}

impl RenderUnit {
    pub fn new() -> (r: RenderUnit)
        ensures
            !r.set_up,
            !r.restored,
    {
        RenderUnit { set_up: false, restored: false }
    }

    /// A terminal operation failed: the unit restores the terminal if it has
    /// not done so yet, and then only exits.
    pub fn on_failure(&mut self) -> (r: RenderAction)
        ensures
            final(self).set_up,
            final(self).restored,
            r == (if old(self).restored {
                RenderAction::Exit
            } else {
                RenderAction::RestoreTerminal
            }),
    {
        self.set_up = true;
        if self.restored {
            RenderAction::Exit
        } else {
            self.restored = true;
            RenderAction::RestoreTerminal
        }
    }

    /// The next thing the render unit does, given the run signal: set the
    /// terminal up once, tick while running, then restore it once and exit.
    pub fn next_action(&mut self, running: bool) -> (r: RenderAction)
        ensures
            (*final(self), r) == spec_render_step(*old(self), running),
    {
        if !self.set_up {
            self.set_up = true;
            RenderAction::SetUpTerminal
        } else if running && !self.restored {
            RenderAction::Tick
        } else if !self.restored {
            self.restored = true;
            RenderAction::RestoreTerminal
        } else {
            RenderAction::Exit
        }
    }
}

/// However the run signal goes, a render unit restores the terminal at most
/// once, and not at all if it had already done so.
pub proof fn lemma_terminal_restored_at_most_once(u: RenderUnit, signals: Seq<bool>)
    ensures
        restore_count(u, signals) <= (if u.restored { 0int } else { 1int }),
    decreases signals.len(),
{
    if signals.len() > 0 {
        let (next, action) = spec_render_step(u, signals[0]);
        lemma_terminal_restored_at_most_once(next, signals.skip(1));
    }
}

/// Whether the run signal is down at some step of `signals`.
pub open spec fn drops(signals: Seq<bool>) -> bool {
    exists|j: int| 0 <= j < signals.len() && !signals[j]
}

/// A render unit that has set the terminal up and not restored it restores it
/// exactly once over any run of steps in which the signal is down at least
/// once, and never over a run in which it stays up (so not while it ticks).
pub proof fn lemma_set_up_unit_restores_once(u: RenderUnit, signals: Seq<bool>)
    requires
        u.set_up,
        !u.restored,
    ensures
        restore_count(u, signals) == (if drops(signals) { 1int } else { 0int }),
    decreases signals.len(),
{
    if signals.len() > 0 {
        let rest = signals.skip(1);
        if !signals[0] {
            lemma_terminal_restored_at_most_once(RenderUnit { restored: true, ..u }, rest);
        } else {
            lemma_set_up_unit_restores_once(u, rest);
            if drops(signals) {
                let j = choose|j: int| 0 <= j < signals.len() && !signals[j];
                assert(!rest[j - 1]);
            }
            if drops(rest) {
                let j = choose|j: int| 0 <= j < rest.len() && !rest[j];
                assert(!signals[j + 1]);
            }
        }
    }
}

/// A fresh render unit sets the terminal up at its first step, and restores it
/// exactly once if the run signal is down at any later step, never otherwise.
pub proof fn lemma_terminal_restored_exactly_once(signals: Seq<bool>)
    requires
        signals.len() > 0,
    ensures
        spec_render_step(RenderUnit { set_up: false, restored: false }, signals[0]).1
            == RenderAction::SetUpTerminal,
        restore_count(RenderUnit { set_up: false, restored: false }, signals) == (if drops(
            signals.skip(1),
        ) {
            1int
        } else {
            0int
        }),
{
    let ready = RenderUnit { set_up: true, restored: false };
    lemma_set_up_unit_restores_once(ready, signals.skip(1));
}

/// The capture unit's work on one frame read from `interface`: a frame that
/// carries a segment is counted into `store`; any other frame leaves it as it
/// was. Returns whether the frame was counted.
pub fn capture_frame(store: &mut NetworkUtilization, frame: &Vec<u8>, interface: &InterfaceIdentity) -> (r: bool)
    requires
        old(store).wf(),
        frame@.len() <= u64::MAX,
    ensures
        final(store).wf(),
        r == spec_parse(frame@, interface.addresses@).is_some(),
        final(store)@ == match spec_parse(frame@, interface.addresses@) {
            Some(s) => count_segment(old(store)@, s),
            None => old(store)@,
        },
{
    match parse_frame(frame, &interface.addresses) {
        Some(segment) => {
            store.update(&segment);
            true
        },
        None => false,
    }
}

/// The render unit's work on one tick: takes everything counted since the
/// last tick out of `store`, leaving it empty, and joins each connection's
/// record with its owner in this tick's `owners`.
pub fn render_tick(store: &mut NetworkUtilization, owners: &ConnectionOwnership) -> (r: Vec<ConnectionRow>)
    requires
        old(store).wf(),
        owners.wf(),
    ensures
        final(store).wf(),
        final(store)@ == Map::<ConnectionKey, UtilizationRecord>::empty(),
        forall|i: int, j: int| 0 <= i < j < r@.len() ==> r@[i].key != r@[j].key,
        forall|i: int|
            0 <= i < r@.len() ==> #[trigger] old(store)@.contains_key(r@[i].key) && old(store)@[r@[i].key]
                == r@[i].record && r@[i].process@ == shown_owner(owners@, r@[i].key),
        forall|k: ConnectionKey| #[trigger] old(store)@.contains_key(k) ==> exists|i: int| 0 <= i < r@.len() && r@[i].key == k,
{
    let snapshot = store.snapshot_and_reset();
    connection_rows(&snapshot, owners)
}

} // verus!
