//! Compiled scripts: trigger tracking, the activation decision, dispatch of
//! raw input events, and the pass counter of a running task.
use std::sync::Arc;
use vstd::arithmetic::div_mod::{lemma_fundamental_div_mod, lemma_fundamental_div_mod_converse};
use vstd::prelude::*;

use crate::event::{EventType, Method, Trigger};

verus! {

/// What the runtime must do for a script after an activation.
#[derive(Clone, Copy, Debug, PartialEq, Eq, Structural)]
pub enum Command {
    /// Notify "started", spawn a task running the program, keep its handle.
    Start,
    /// Cancel the held task, notify "stopped", drop the handle.
    Stop,
}

/// The mathematical content of a [`Script`].
pub ghost struct ScriptView {
    pub title: Seq<char>,
    pub delay: u64,
    pub repeat: usize,
    pub methods: Seq<Method>,
    pub task: bool,
    pub trigger: Seq<(Trigger, bool)>,
}

/// A compiled script.
pub struct Script {
    pub title: Arc<String>,
    /// Delay after each injected event, in milliseconds.
    pub delay: u64,
    /// Number of passes per run; 0 runs forever.
    pub repeat: usize,
    /// The program, shared by every run.
    pub methods: Arc<Vec<Method>>,
    /// Whether a task handle is held for this script.
    pub task: bool,
    /// One "currently pressed" flag per trigger of the combination.
    pub trigger: Vec<(Trigger, bool)>,
}

impl View for Script {
    type V = ScriptView;

    open spec fn view(&self) -> ScriptView {
        ScriptView {
            title: self.title@,
            delay: self.delay,
            repeat: self.repeat,
            methods: self.methods@,
            task: self.task,
            trigger: self.trigger@,
        }
    }
}

/// The flags after setting the flag of `t` (if it has one) to `v`.
pub open spec fn set_flag(flags: Seq<(Trigger, bool)>, t: Trigger, v: bool) -> Seq<(Trigger, bool)> {
    flags.map_values(|p: (Trigger, bool)| if p.0 == t { (p.0, v) } else { p })
}

/// `t` is one of the triggers of the combination.
pub open spec fn participates(flags: Seq<(Trigger, bool)>, t: Trigger) -> bool {
    exists|i: int| 0 <= i < flags.len() && #[trigger] flags[i].0 == t
}

/// Every trigger of the combination is held.
pub open spec fn all_pressed(flags: Seq<(Trigger, bool)>) -> bool {
    forall|i: int| 0 <= i < flags.len() ==> #[trigger] flags[i].1
}

/// The activation decision: a held task is cancelled when the script runs
/// forever or the task has not finished; otherwise a fresh run starts.
pub open spec fn run_spec(s: ScriptView, finished: bool) -> Command {
    if s.task && (s.repeat == 0 || !finished) {
        Command::Stop
    } else {
        Command::Start
    }
}

/// The script after an activation that decided `c`.
pub open spec fn after_command(s: ScriptView, c: Command) -> ScriptView {
    ScriptView { task: c == Command::Start, ..s }
}

/// A press of `t`: its flag is set, and when it takes part in the combination
/// and all flags are then set, the script is activated.
pub open spec fn down_spec(s: ScriptView, t: Trigger, finished: bool) -> (ScriptView, Option<Command>) {
    let s1 = ScriptView { trigger: set_flag(s.trigger, t, true), ..s };
    if participates(s.trigger, t) && all_pressed(s1.trigger) {
        let c = run_spec(s1, finished);
        (after_command(s1, c), Some(c))
    } else {
        (s1, None)
    }
}

/// A release of `t`: its flag is cleared; never an activation.
pub open spec fn up_spec(s: ScriptView, t: Trigger) -> ScriptView {
    ScriptView { trigger: set_flag(s.trigger, t, false), ..s }
}

/// Sets the flag of `t`, if the combination has one, to `v`; tells whether it had one.
fn set_flag_in(flags: &mut Vec<(Trigger, bool)>, t: &Trigger, v: bool) -> (found: bool)
    ensures
        final(flags)@ == set_flag(old(flags)@, *t, v),
        found == participates(old(flags)@, *t),
{
    let ghost start = flags@;
    let mut found = false;
    let mut i: usize = 0;
    while i < flags.len()
        invariant
            0 <= i <= flags.len(),
            flags@.len() == start.len(),
            forall|j: int| 0 <= j < i ==> flags@[j] == set_flag(start, *t, v)[j],
            forall|j: int| i <= j < flags@.len() ==> flags@[j] == start[j],
            found == exists|j: int| 0 <= j < i && #[trigger] start[j].0 == *t,
        decreases flags.len() - i,
    {
        let p = flags[i];
        assert(p == start[i as int]);
        if p.0 == *t {
            flags.set(i, (p.0, v));
            found = true;
        }
        assert(found == exists|j: int| 0 <= j < i + 1 && #[trigger] start[j].0 == *t) by {
            if p.0 == *t {
                assert(start[i as int].0 == *t);
            }
        }
        i += 1;
    }
    assert(flags@ =~= set_flag(start, *t, v));
    found
}

/// Whether every flag is set.
fn all_set(flags: &Vec<(Trigger, bool)>) -> (r: bool)
    ensures
        r == all_pressed(flags@),
{
    let mut i: usize = 0;
    while i < flags.len()
        invariant
            0 <= i <= flags.len(),
            forall|j: int| 0 <= j < i ==> #[trigger] flags@[j].1,
        decreases flags.len() - i,
    {
        if !flags[i].1 {
            return false;
        }
        i += 1;
    }
    true
}

impl Script {
    /// The activation decision (see [`run_spec`]). `finished` tells whether
    /// the held task, if any, has completed on its own.
    pub fn run(&mut self, finished: bool) -> (r: Command)
        ensures
            r == run_spec(old(self)@, finished),
            final(self)@ == after_command(old(self)@, r),
    {
        if self.task && (self.repeat == 0 || !finished) {
            self.task = false;
            Command::Stop
        } else {
            self.task = true;
            Command::Start
        }
    }

    /// A press of trigger `key`; returns the activation decision if there was one.
    pub fn down(&mut self, key: &Trigger, finished: bool) -> (r: Option<Command>)
        ensures
            (final(self)@, r) == down_spec(old(self)@, *key, finished),
    {
        let found = set_flag_in(&mut self.trigger, key, true);
        if found && all_set(&self.trigger) {
            Some(self.run(finished))
        } else {
            None
        }
    }

    /// A release of trigger `key`.
    pub fn up(&mut self, key: &Trigger)
        ensures
            final(self)@ == up_spec(old(self)@, *key),
    {
        let _ = set_flag_in(&mut self.trigger, key, false);
    }
}


/// The effect of one raw input event on one script: presses and releases of
/// its triggers update its flags (presses may activate it); anything else is
/// ignored.
pub open spec fn dispatch_spec(s: ScriptView, e: EventType, finished: bool) -> (ScriptView, Option<Command>) {
    match e {
        EventType::KeyPress(k) => down_spec(s, Trigger::Key(k), finished),
        EventType::KeyRelease(k) => (up_spec(s, Trigger::Key(k)), None),
        EventType::ButtonPress(b) => down_spec(s, Trigger::Mouse(b), finished),
        EventType::ButtonRelease(b) => (up_spec(s, Trigger::Mouse(b)), None),
        _ => (s, None),
    }
}

/// The activations that event `e` causes among the first `n` scripts, in
/// script order, each with the script's index.
pub open spec fn commands_upto(
    scripts: Seq<ScriptView>,
    e: EventType,
    finished: Seq<bool>,
    n: nat,
) -> Seq<(usize, Command)>
    decreases n,
{
    if n == 0 {
        Seq::empty()
    } else {
        let prev = commands_upto(scripts, e, finished, (n - 1) as nat);
        match dispatch_spec(scripts[n - 1], e, finished[n - 1]).1 {
            Some(c) => prev.push(((n - 1) as usize, c)),
            None => prev,
        }
    }
}

/// All compiled scripts, owned by the dispatcher.
pub struct ScriptList(pub Vec<Script>);

impl ScriptList {
    pub open spec fn views(&self) -> Seq<ScriptView> {
        self.0@.map_values(|s: Script| s@)
    }

    /// Handles one raw input event: every script sees it, in order.
    /// `finished[i]` tells whether the task held for script `i` has completed.
    /// Returns the activation decisions, with the index of each script.
    pub fn handle(&mut self, event: &EventType, finished: &Vec<bool>) -> (r: Vec<(usize, Command)>)
        requires
            finished.len() == old(self).0.len(),
        ensures
            final(self).0.len() == old(self).0.len(),
            forall|i: int|
                0 <= i < old(self).0.len() ==> final(self).views()[i] == dispatch_spec(
                    old(self).views()[i],
                    *event,
                    finished@[i],
                ).0,
            r@ == commands_upto(old(self).views(), *event, finished@, old(self).0.len() as nat),
    {
        let ghost start = self.views();
        let mut rest: Vec<Script> = Vec::new();
        std::mem::swap(&mut rest, &mut self.0);
        let n = rest.len();
        let mut out: Vec<Script> = Vec::new();
        let mut cmds: Vec<(usize, Command)> = Vec::new();
        let mut i: usize = 0;
        while i < n
            invariant
                n == start.len(),
                n == finished.len(),
                0 <= i <= n,
                rest.len() == n - i,
                out.len() == i,
                forall|j: int| 0 <= j < rest.len() ==> #[trigger] rest@[j]@ == start[i + j],
                forall|j: int|
                    0 <= j < i ==> #[trigger] out@[j]@ == dispatch_spec(start[j], *event, finished@[j]).0,
                cmds@ == commands_upto(start, *event, finished@, i as nat),
            decreases n - i,
        {
            let mut s = rest.remove(0);
            let c = match event {
                EventType::KeyPress(k) => s.down(&Trigger::Key(*k), finished[i]),
                EventType::KeyRelease(k) => {
                    s.up(&Trigger::Key(*k));
                    None
                },
                EventType::ButtonPress(b) => s.down(&Trigger::Mouse(*b), finished[i]),
                EventType::ButtonRelease(b) => {
                    s.up(&Trigger::Mouse(*b));
                    None
                },
                _ => None,
            };
            if let Some(c) = c {
                cmds.push((i, c));
            }
            out.push(s);
            i += 1;
        }
        self.0 = out;
        cmds
    }
}

/// Position of a running task in its program: the pass and the instruction.
pub struct Runner {
    /// Passes to make; 0 makes passes forever.
    pub repeat: usize,
    /// Length of the program.
    pub len: usize,
    /// Passes completed (stays 0 when running forever).
    pub pass: usize,
    /// Index of the next instruction.
    pub index: usize,
}

impl Runner {
    pub open spec fn wf(self) -> bool {
        &&& (self.len == 0 ==> self.index == 0)
        &&& (self.len > 0 ==> self.index < self.len)
        &&& (self.repeat == 0 ==> self.pass == 0)
        &&& (self.repeat > 0 ==> self.pass <= self.repeat)
    }

    /// The runner at the start of a run.
    pub open spec fn start(repeat: usize, len: usize) -> Runner {
        Runner { repeat, len, pass: 0, index: 0 }
    }

    /// One step: the index of the instruction to execute next and the runner
    /// after it, or `None` once the run is over (after `repeat` passes, or at
    /// once for an empty program).
    pub open spec fn step(self) -> (Runner, Option<usize>) {
        if self.len == 0 || (self.repeat > 0 && self.pass >= self.repeat) {
            (self, None)
        } else if self.index + 1 < self.len {
            (Runner { index: (self.index + 1) as usize, ..self }, Some(self.index))
        } else {
            let pass = if self.repeat == 0 { 0 } else { (self.pass + 1) as usize };
            (Runner { index: 0, pass, ..self }, Some(self.index))
        }
    }

    /// The runner after `n` steps.
    pub open spec fn after(self, n: nat) -> Runner
        decreases n,
    {
        if n == 0 {
            self
        } else {
            self.after((n - 1) as nat).step().0
        }
    }

    /// What step number `n` (counting from 0) yields.
    pub open spec fn output(self, n: nat) -> Option<usize> {
        self.after(n).step().1
    }

    pub fn new(repeat: usize, len: usize) -> (r: Runner)
        ensures
            r == Runner::start(repeat, len),
            r.wf(),
    {
        Runner { repeat, len, pass: 0, index: 0 }
    }

    /// Advances by one instruction (see [`Runner::step`]).
    pub fn next(&mut self) -> (r: Option<usize>)
        requires
            old(self).wf(),
        ensures
            (*final(self), r) == old(self).step(),
            final(self).wf(),
    {
        if self.len == 0 || (self.repeat > 0 && self.pass >= self.repeat) {
            None
        } else if self.index + 1 < self.len {
            let i = self.index;
            self.index = i + 1;
            Some(i)
        } else {
            let i = self.index;
            self.index = 0;
            if self.repeat > 0 {
                self.pass = self.pass + 1;
            }
            Some(i)
        }
    }
}


/// Where a run stands after `n` steps, while it lasts: pass `n / len`,
/// instruction `n % len`.
proof fn lemma_runner_after(repeat: usize, len: usize, n: nat)
    requires
        len > 0,
        repeat == 0 || n <= repeat * len,
    ensures
        Runner::start(repeat, len).after(n) == (Runner {
            repeat,
            len,
            pass: if repeat == 0 { 0 } else { (n / (len as nat)) as usize },
            index: (n % (len as nat)) as usize,
        }),
    decreases n,
{
    let l = len as int;
    if n == 0 {
        lemma_fundamental_div_mod_converse(0, l, 0, 0);
    } else {
        let m = (n - 1) as nat;
        lemma_runner_after(repeat, len, m);
        lemma_fundamental_div_mod(m as int, l);
        let q = m as int / l;
        let r = m as int % l;
        if repeat > 0 {
            assert(q < repeat) by (nonlinear_arith)
                requires m as int == l * q + r, 0 <= r, m < repeat * l, l > 0;
        }
        assert(n as int == q * l + r + 1) by (nonlinear_arith)
            requires m as int == l * q + r, n == m + 1;
        if r + 1 < l {
            lemma_fundamental_div_mod_converse(n as int, l, q, r + 1);
        } else {
            assert(n as int == (q + 1) * l + 0) by (nonlinear_arith)
                requires n as int == q * l + r + 1, r + 1 == l;
            lemma_fundamental_div_mod_converse(n as int, l, q + 1, 0);
        }
    }
}

/// A run of a script with `repeat` > 0 passes executes its program exactly
/// `repeat` times in order (step `n` executes instruction `n % len`), and then
/// ends.
pub proof fn lemma_finite_run(repeat: usize, len: usize)
    requires
        repeat > 0,
        len > 0,
    ensures
        forall|n: nat| n < repeat * len ==> #[trigger] Runner::start(repeat, len).output(n) == Some(
            (n % (len as nat)) as usize,
        ),
        Runner::start(repeat, len).output((repeat * len) as nat) is None,
{
    assert forall|n: nat| n < repeat * len implies #[trigger] Runner::start(repeat, len).output(n) == Some(
        (n % (len as nat)) as usize,
    ) by {
        lemma_runner_after(repeat, len, n);
        lemma_fundamental_div_mod(n as int, len as int);
        assert((n / (len as nat)) < repeat) by (nonlinear_arith)
            requires n < repeat * len, n as int == len * (n as int / len as int) + n as int % len as int,
                0 <= n as int % len as int, len > 0;
    }
    let t = (repeat * len) as nat;
    lemma_runner_after(repeat, len, t);
    lemma_fundamental_div_mod_converse(t as int, len as int, repeat as int, 0);
}

/// A run of a script with repeat 0 executes its program in order forever.
pub proof fn lemma_endless_run(len: usize)
    requires
        len > 0,
    ensures
        forall|n: nat| #[trigger] Runner::start(0, len).output(n) == Some((n % (len as nat)) as usize),
{
    assert forall|n: nat| #[trigger] Runner::start(0, len).output(n) == Some(
        (n % (len as nat)) as usize,
    ) by {
        lemma_runner_after(0, len, n);
        lemma_fundamental_div_mod(n as int, len as int);
    }
}

/// A script with a finite repeat count and no task starts on activation, and
/// once that run has finished, activating it again starts a fresh run.
pub proof fn lemma_finite_restart(s: ScriptView, f: bool)
    requires
        s.repeat > 0,
        !s.task,
    ensures
        run_spec(s, f) == Command::Start,
        run_spec(after_command(s, Command::Start), true) == Command::Start,
        after_command(after_command(s, Command::Start), Command::Start).task,
{
}

/// A script that runs forever starts on its first activation and is
/// cancelled by the second, whatever the state of its task.
pub proof fn lemma_endless_toggle(s: ScriptView, f1: bool, f2: bool)
    requires
        s.repeat == 0,
        !s.task,
    ensures
        run_spec(s, f1) == Command::Start,
        run_spec(after_command(s, Command::Start), f2) == Command::Stop,
        !after_command(after_command(s, Command::Start), Command::Stop).task,
{
}

/// With a combination of two triggers `a` and `b`: once both are pressed,
/// releasing `a` and pressing it again activates the script again, although
/// `b` was never released.
pub proof fn lemma_repress_activates(s: ScriptView, a: Trigger, b: Trigger, f1: bool, f2: bool, f3: bool)
    requires
        s.trigger.len() == 2,
        s.trigger[0].0 == a,
        s.trigger[1].0 == b,
        a != b,
    ensures
        ({
            let (s1, c1) = down_spec(s, a, f1);
            let (s2, c2) = down_spec(s1, b, f2);
            let s3 = up_spec(s2, a);
            let (s4, c4) = down_spec(s3, a, f3);
            &&& c2 is Some
            &&& c4 is Some
        }),
{
    let (s1, c1) = down_spec(s, a, f1);
    let (s2, c2) = down_spec(s1, b, f2);
    let s3 = up_spec(s2, a);
    let (s4, c4) = down_spec(s3, a, f3);
    assert(s.trigger[0].0 == a);
    assert(s1.trigger[1].0 == b);
    assert(s2.trigger[0].1 && s2.trigger[1].1);
    assert(all_pressed(s2.trigger));
    assert(s3.trigger[0].0 == a);
    assert(s4.trigger[0].1 && s4.trigger[1].1);
    assert(all_pressed(s4.trigger));
}

} // verus!
