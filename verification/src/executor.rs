//! The toggle engine of the device: which actions are running, what a
//! chord that fired changes about that, and what a running action sends.
//!
//! The engine decides; the caller acts. It starts a worker where the engine
//! says `Start`, stops and joins it where the engine says `Stop`, and lets
//! each worker ask `worker_step` before every pulse.

use vstd::prelude::*;
use crate::codec::{action_bytes, mask_byte, parse_action};
use crate::keys::{code2keycode, code_usage, lemma_usage_code_of_code, Code};
use crate::mapping::{Action, Mapping, Trigger};

verus! {

/// The time from one pulse of a running action to the next, in
/// milliseconds.
pub const CADENCE_MS: u64 = 100;

/// The report that releases every key: eight zero bytes.
pub open spec fn release_bytes() -> Seq<u8> {
    seq![0u8, 0u8, 0u8, 0u8, 0u8, 0u8, 0u8, 0u8]
}

/// The report that presses a key combination: the modifier bitmask in
/// byte 0, the usage ID of the key in byte 2, zero elsewhere.
pub open spec fn report_bytes(modifiers: Option<u8>, code: Code) -> Seq<u8> {
    seq![mask_byte(modifiers), 0u8, code_usage(code), 0u8, 0u8, 0u8, 0u8, 0u8]
}

/// The report that presses the combination of a key action; the reserved
/// action has none.
pub fn key_report(action: &Action) -> (report: Option<[u8; 8]>)
    ensures
        match *action {
            Action::Key(m, c) => report matches Some(r) && r@ == report_bytes(m, c),
            Action::Smart => report is None,
        },
{
    match action {
        Action::Key(m, c) => {
            let mask: u8 = match m {
                None => 0,
                Some(mask) => *mask,
            };
            let r: [u8; 8] = [mask, 0, code2keycode(c), 0, 0, 0, 0, 0];
            assert(r@ =~= report_bytes(*m, *c));
            Some(r)
        },
        Action::Smart => None,
    }
}

/// The wire changes nothing about what a key action sends: every key
/// action, representable or not, is read back from its bytes as a key
/// action with the report that it had.
pub proof fn lemma_wire_keeps_report(modifiers: Option<u8>, code: Code, rest: Seq<u8>)
    ensures
        match parse_action(action_bytes(Action::Key(modifiers, code)) + rest) {
            Ok((Action::Key(m, c), n)) => n == 3 && report_bytes(m, c) == report_bytes(
                modifiers,
                code,
            ),
            _ => false,
        },
{
    lemma_usage_code_of_code(code);
}

/// One pulse as the bytes that go to the HID device: the report, then at
/// once the report that releases every key.
pub fn press_and_release(inp_rpt: &[u8]) -> (pulse: Vec<u8>)
    ensures
        pulse@ == inp_rpt@ + release_bytes(),
{
    let mut pulse: Vec<u8> = Vec::new();
    let n: usize = inp_rpt.len();
    let mut i: usize = 0;
    while i < n
        invariant
            n == inp_rpt.len(),
            i <= n,
            pulse@ == inp_rpt@.take(i as int),
        decreases n - i,
    {
        pulse.push(inp_rpt[i]);
        assert(pulse@ =~= inp_rpt@.take(i + 1));
        i += 1;
    }
    assert(inp_rpt@.take(n as int) =~= inp_rpt@);
    let mut k: usize = 0;
    while k < 8
        invariant
            k <= 8,
            pulse@ == inp_rpt@ + release_bytes().take(k as int),
        decreases 8 - k,
    {
        pulse.push(0);
        assert(pulse@ =~= inp_rpt@ + release_bytes().take(k + 1));
        k += 1;
    }
    assert(release_bytes().take(8) =~= release_bytes());
    pulse
}

/// What a worker does next.
#[derive(Debug, PartialEq, Eq)]
pub enum Pulse {
    /// Write these bytes, then wait one cadence and ask again.
    Emit(Vec<u8>),
    /// The action was cancelled: end without writing.
    Cancelled,
    /// The last write failed: end without writing.
    Failed,
}

/// The next step of the worker that pulses `report`. `keep_running` is the
/// cancellation flag of the worker as it stands now, `last_write_ok` tells
/// whether the pulse before this one, if there was one, reached the
/// device. A worker that is cancelled or has failed writes nothing more.
pub fn worker_step(keep_running: bool, last_write_ok: bool, report: &[u8]) -> (next: Pulse)
    ensures
        !last_write_ok ==> next == Pulse::Failed,
        last_write_ok && !keep_running ==> next == Pulse::Cancelled,
        last_write_ok && keep_running ==> (next matches Pulse::Emit(bytes) && bytes@ == report@
            + release_bytes()),
{
    if !last_write_ok {
        Pulse::Failed
    } else if !keep_running {
        Pulse::Cancelled
    } else {
        Pulse::Emit(press_and_release(report))
    }
}

/// What the caller of the engine is to do after a chord fired.
#[derive(Clone, Copy, Debug, PartialEq, Eq, Structural)]
pub enum Command {
    /// The action was idle: start a worker that pulses its report.
    Start(Action),
    /// The action was running: cancel its worker and wait for it to end.
    Stop(Action),
    /// The chord is bound to the reserved action, which does nothing yet.
    Unimplemented,
    /// The chord is not bound: nothing happens.
    Unmapped,
}

/// The running actions and the command after chord `t` fired while
/// `running` were the running actions and `table` was the table: a chord
/// bound to a key action starts it if it is idle and stops it if it runs.
pub open spec fn toggle(running: Set<Action>, table: Map<Trigger, Action>, t: Trigger) -> (
    Set<Action>,
    Command,
) {
    if !table.contains_key(t) {
        (running, Command::Unmapped)
    } else if table[t] is Smart {
        (running, Command::Unimplemented)
    } else if running.contains(table[t]) {
        (running.remove(table[t]), Command::Stop(table[t]))
    } else {
        (running.insert(table[t]), Command::Start(table[t]))
    }
}

/// The running actions after chord `t` fired `n` times in a row.
pub open spec fn toggle_times(
    running: Set<Action>,
    table: Map<Trigger, Action>,
    t: Trigger,
    n: nat,
) -> Set<Action>
    decreases n,
{
    if n == 0 {
        running
    } else {
        toggle(toggle_times(running, table, t, (n - 1) as nat), table, t).0
    }
}

/// A chord bound to a key action changes the state of that action and of
/// no other: it starts the action where it was idle and stops it where it
/// ran.
pub proof fn lemma_toggle_flips(running: Set<Action>, table: Map<Trigger, Action>, t: Trigger)
    requires
        table.contains_key(t),
        table[t] is Key,
    ensures
        toggle(running, table, t).0.contains(table[t]) == !running.contains(table[t]),
        forall|b: Action|
            b != table[t] ==> toggle(running, table, t).0.contains(b) == running.contains(b),
        toggle(running, table, t).1 == if running.contains(table[t]) {
            Command::Stop(table[t])
        } else {
            Command::Start(table[t])
        },
{
}

/// The same chord twice leaves the running actions as they were.
pub proof fn lemma_toggle_twice(running: Set<Action>, table: Map<Trigger, Action>, t: Trigger)
    ensures
        toggle(toggle(running, table, t).0, table, t).0 == running,
{
    let once = toggle(running, table, t).0;
    let twice = toggle(once, table, t).0;
    assert(twice =~= running);
}

/// The same chord `n` times: its key action runs afterwards if and only if
/// it ran before and `n` is even, or was idle before and `n` is odd; every
/// other action is as it was.
pub proof fn lemma_toggle_cycle(
    running: Set<Action>,
    table: Map<Trigger, Action>,
    t: Trigger,
    n: nat,
)
    requires
        table.contains_key(t),
        table[t] is Key,
    ensures
        toggle_times(running, table, t, n).contains(table[t]) == (running.contains(table[t]) == (n
            % 2 == 0)),
        forall|b: Action|
            b != table[t] ==> toggle_times(running, table, t, n).contains(b) == running.contains(
                b,
            ),
    decreases n,
{
    if n > 0 {
        lemma_toggle_cycle(running, table, t, (n - 1) as nat);
        lemma_toggle_flips(toggle_times(running, table, t, (n - 1) as nat), table, t);
    }
}

/// A chord that is not bound starts nothing, stops nothing and changes
/// nothing.
pub proof fn lemma_toggle_unmapped(running: Set<Action>, table: Map<Trigger, Action>, t: Trigger)
    requires
        !table.contains_key(t),
    ensures
        toggle(running, table, t) == (running, Command::Unmapped),
{
}

/// The set of the actions that are running. At most one worker runs for an
/// action.
pub struct Executor {
    running: Vec<Action>,
}

impl View for Executor {
    type V = Set<Action>;

    /// The running actions.
    closed spec fn view(&self) -> Set<Action> {
        self.running@.to_set()
    }
}

impl Executor {
    /// No action is listed twice.
    #[verifier::type_invariant]
    pub closed spec fn wf(&self) -> bool {
        self.running@.no_duplicates()
    }

    /// The engine in which no action runs.
    pub fn new() -> (e: Executor)
        ensures
            e@ == Set::<Action>::empty(),
            e.wf(),
    {
        let e = Executor { running: Vec::new() };
        assert(e.running@.to_set() =~= Set::<Action>::empty());
        e
    }

    /// The place of `action` among the running actions.
    fn place_of(&self, action: &Action) -> (place: Option<usize>)
        ensures
            match place {
                Some(i) => i < self.running@.len() && self.running@[i as int] == *action,
                None => !self.running@.contains(*action),
            },
    {
        let n: usize = self.running.len();
        let mut i: usize = 0;
        while i < n
            invariant
                n == self.running.len(),
                i <= n,
                forall|j: int| 0 <= j < i ==> self.running@[j] != *action,
            decreases n - i,
        {
            if self.running[i] == *action {
                return Some(i);
            }
            i += 1;
        }
        None
    }

    /// Whether `action` runs.
    pub fn is_active(&self, action: &Action) -> (active: bool)
        ensures
            active == self@.contains(*action),
    {
        self.place_of(action).is_some()
    }

    /// The number of running actions.
    pub fn active_count(&self) -> (n: usize)
        ensures
            n == self@.len(),
    {
        proof {
            use_type_invariant(self);
            self.running@.unique_seq_to_set();
        }
        self.running.len()
    }

    /// Takes note that chord `trigger` fired while `table` is the table, and
    /// says what is to be done about it.
    pub fn on_trigger(&mut self, table: &Mapping, trigger: &Trigger) -> (command: Command)
        ensures
            (final(self)@, command) == toggle(old(self)@, table@, *trigger),
            final(self).wf(),
    {
        proof {
            use_type_invariant(&*self);
        }
        let action = match table.lookup(trigger) {
            None => {
                return Command::Unmapped;
            },
            Some(Action::Smart) => {
                return Command::Unimplemented;
            },
            Some(action) => action,
        };
        let place = self.place_of(&action);
        let mut list: Vec<Action> = Vec::new();
        core::mem::swap(&mut self.running, &mut list);
        let ghost before = list@;
        let command = match place {
            Some(i) => {
                list.remove(i);
                proof {
                    lemma_remove_from_list(before, i as int);
                }
                Command::Stop(action)
            },
            None => {
                list.push(action);
                proof {
                    lemma_push_to_list(before, action);
                }
                Command::Start(action)
            },
        };
        self.running = list;
        command
    }

    /// Takes note that the worker of `action` has ended by itself, as it
    /// does when a write fails: the action is idle from now on.
    pub fn on_worker_exit(&mut self, action: &Action)
        ensures
            final(self)@ == old(self)@.remove(*action),
            final(self).wf(),
    {
        proof {
            use_type_invariant(&*self);
        }
        match self.place_of(action) {
            Some(i) => {
                let mut list: Vec<Action> = Vec::new();
                core::mem::swap(&mut self.running, &mut list);
                proof {
                    lemma_remove_from_list(list@, i as int);
                }
                list.remove(i);
                self.running = list;
            },
            None => {
                assert(self.running@.to_set().remove(*action) =~= self.running@.to_set());
            },
        }
    }
}

proof fn lemma_remove_from_list(list: Seq<Action>, i: int)
    requires
        list.no_duplicates(),
        0 <= i < list.len(),
    ensures
        list.remove(i).no_duplicates(),
        list.remove(i).to_set() == list.to_set().remove(list[i]),
{
    let shorter = list.remove(i);
    assert forall|a: int, b: int| 0 <= a < shorter.len() && 0 <= b < shorter.len() && a
        != b implies shorter[a] != shorter[b] by {
        let a0 = if a < i { a } else { a + 1 };
        let b0 = if b < i { b } else { b + 1 };
        assert(shorter[a] == list[a0] && shorter[b] == list[b0]);
    }
    assert forall|x: Action| shorter.to_set().contains(x) <==> list.to_set().remove(
        list[i],
    ).contains(x) by {
        if shorter.contains(x) {
            let a = choose|a: int| 0 <= a < shorter.len() && shorter[a] == x;
            let a0 = if a < i { a } else { a + 1 };
            assert(list[a0] == x);
        }
        if list.contains(x) && x != list[i] {
            let a0 = choose|a0: int| 0 <= a0 < list.len() && list[a0] == x;
            let a = if a0 < i { a0 } else { a0 - 1 };
            assert(shorter[a] == x);
        }
    }
    assert(shorter.to_set() =~= list.to_set().remove(list[i]));
}

proof fn lemma_push_to_list(list: Seq<Action>, action: Action)
    requires
        list.no_duplicates(),
        !list.contains(action),
    ensures
        list.push(action).no_duplicates(),
        list.push(action).to_set() == list.to_set().insert(action),
{
    let longer = list.push(action);
    assert forall|x: Action| longer.to_set().contains(x) <==> list.to_set().insert(
        action,
    ).contains(x) by {
        if longer.contains(x) {
            let a = choose|a: int| 0 <= a < longer.len() && longer[a] == x;
            if a < list.len() {
                assert(list[a] == x);
            }
        }
        if list.contains(x) {
            let a = choose|a: int| 0 <= a < list.len() && list[a] == x;
            assert(longer[a] == x);
        }
        assert(longer[list.len() as int] == action);
    }
    assert(longer.to_set() =~= list.to_set().insert(action));
}

} // verus!
