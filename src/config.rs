//! The declarative script document and its compiler into instruction programs.
use std::sync::Arc;
use vstd::prelude::*;

use crate::event::{Button, Custom, EventType, Key, Method, Trigger};
use crate::script::{Script, ScriptList, ScriptView};
use crate::start::Restart;

verus! {

/// One authored step of a script.
/// Pointer coordinates are in thousandths of a pixel.
pub enum ScriptEvent {
    /// Press and release a button.
    Click(Button),
    /// Release a button.
    ClickUp(Button),
    /// Press a button.
    ClickDown(Button),
    /// Move to a position, then click there.
    ClickOn(Button, i32, i32),
    /// Move to the first position, press, move to the second, release.
    ClickTo(Button, i32, i32, i32, i32),
    /// Press and release a key.
    Key(Key),
    /// Release a key.
    KeyUp(Key),
    /// Press a key.
    KeyDown(Key),
    /// Press all keys in order, then release them all in order.
    Keys(Vec<Key>),
    /// Move the pointer.
    Move(i32, i32),
    /// Turn the wheel.
    Scroll(i64, i64),
    /// Sleep for this many milliseconds.
    Sleep(u64),
    /// End the process with this code.
    Exit(i32),
    /// A block of steps, repeated.
    Block { repeat: usize, block: Block },
}

/// The body of a block: the name of a registered block, or the steps themselves.
pub enum Block {
    Name(String),
    Block(Vec<MethodConfig>),
}

/// A step with an optional delay (milliseconds) appended after it.
pub struct MethodConfig {
    pub event: ScriptEvent,
    pub await_: Option<u64>,
}

/// The definition of one script.
pub struct ScriptConfig {
    pub title: String,
    /// Number of passes per run; 0 runs forever.
    pub repeat: usize,
    /// Overrides the document's delay.
    pub delay: Option<u64>,
    /// The combination that activates the script.
    pub trigger: Vec<Trigger>,
    pub methods: Vec<MethodConfig>,
}

/// The declarative document.
pub struct Config {
    /// Delay after each injected event, in milliseconds.
    pub delay: u64,
    /// Pointer scale factor, in thousandths.
    pub scaling: u32,
    /// Pointer offset, in thousandths of a pixel.
    pub offset: (i32, i32),
    pub scripts: Vec<ScriptConfig>,
    pub start: Restart,
    /// Named blocks; a name resolves to its first entry.
    pub blocks: Vec<(String, Vec<MethodConfig>)>,
}

/// Why a document does not compile.
#[derive(Debug)]
pub enum CompileError {
    /// Two scripts share a title.
    DuplicateTitle,
    /// No block is registered under this name.
    MissingBlock(String),
    /// The named block refers to itself among its own steps.
    SelfReference(String),
    /// A repeated block produced no instruction to drop the last of.
    EmptyBlock,
    /// References through this name nest deeper than there are named blocks,
    /// so they run in a cycle and would never finish expanding.
    Cycle(String),
}

/// A calibrated pointer coordinate: `(v + off) / scale`, rounded down, with
/// `v`, `off` and the result in thousandths of a pixel and `scale` in thousandths.
pub open spec fn calibrate(v: i32, off: i32, scale: u32) -> int {
    ((v + off) * 1000) / (scale as int)
}

pub open spec fn press_keys(keys: Seq<Key>) -> Seq<Method> {
    keys.map_values(|k: Key| Method::Event(EventType::KeyPress(k)))
}

pub open spec fn release_keys(keys: Seq<Key>) -> Seq<Method> {
    keys.map_values(|k: Key| Method::Event(EventType::KeyRelease(k)))
}

/// `s` concatenated `k` times.
pub open spec fn repeat_seq(s: Seq<Method>, k: nat) -> Seq<Method>
    decreases k,
{
    if k == 0 {
        Seq::empty()
    } else {
        repeat_seq(s, (k - 1) as nat) + s
    }
}

/// A block body repeated `k` times, without its last instruction; an error
/// when there is none to drop.
pub open spec fn expand(s: Seq<Method>, k: nat) -> Result<Seq<Method>, CompileError> {
    let r = repeat_seq(s, k);
    if r.len() == 0 {
        Err(CompileError::EmptyBlock)
    } else {
        Ok(r.drop_last())
    }
}

/// `nodes` holds, at top level, a reference to the block named `name`.
pub open spec fn refers_to(nodes: Seq<MethodConfig>, name: Seq<char>) -> bool {
    exists|i: int| 0 <= i < nodes.len() && #[trigger] nodes[i].event.names(name)
}

/// The index of the first block named `name` at or after `i`.
pub open spec fn find_from(blocks: Seq<(String, Vec<MethodConfig>)>, name: Seq<char>, i: int) -> Option<int>
    decreases blocks.len() - i,
{
    if i < 0 || i >= blocks.len() {
        None
    } else if blocks[i].0@ == name {
        Some(i)
    } else {
        find_from(blocks, name, i + 1)
    }
}

/// The view of a compile result.
pub open spec fn result_view(r: Result<Vec<Method>, CompileError>) -> Result<Seq<Method>, CompileError> {
    match r {
        Ok(v) => Ok(v@),
        Err(e) => Err(e),
    }
}

impl ScriptEvent {
    /// This step is a reference to the block named `name`.
    pub open spec fn names(&self, name: Seq<char>) -> bool {
        match self {
            ScriptEvent::Block { block: Block::Name(n), .. } => n@ == name,
            _ => false,
        }
    }

    /// Whether this step is a reference to the block named `name`.
    pub fn block_has(&self, name: &String) -> (r: bool)
        ensures
            r == self.names(name@),
    {
        match self {
            ScriptEvent::Block { block: Block::Name(n), .. } => *n == *name,
            _ => false,
        }
    }
}

impl Config {
    pub open spec fn wf(&self) -> bool {
        self.scaling > 0
    }

    pub open spec fn move_spec(&self, x: i32, y: i32) -> Method {
        Method::Event(
            EventType::MouseMove {
                x: calibrate(x, self.offset.0, self.scaling) as i64,
                y: calibrate(y, self.offset.1, self.scaling) as i64,
            },
        )
    }

    /// The instructions of a step that is not a block.
    pub open spec fn gesture(&self, e: ScriptEvent) -> Seq<Method> {
        match e {
            ScriptEvent::Click(b) => seq![
                Method::Event(EventType::ButtonPress(b)),
                Method::Event(EventType::ButtonRelease(b)),
            ],
            ScriptEvent::ClickUp(b) => seq![Method::Event(EventType::ButtonRelease(b))],
            ScriptEvent::ClickDown(b) => seq![Method::Event(EventType::ButtonPress(b))],
            ScriptEvent::ClickOn(b, x, y) => seq![
                self.move_spec(x, y),
                Method::Event(EventType::ButtonPress(b)),
                Method::Event(EventType::ButtonRelease(b)),
            ],
            ScriptEvent::ClickTo(b, x, y, x2, y2) => seq![
                self.move_spec(x, y),
                Method::Event(EventType::ButtonPress(b)),
                self.move_spec(x2, y2),
                Method::Event(EventType::ButtonRelease(b)),
            ],
            ScriptEvent::Key(k) => seq![
                Method::Event(EventType::KeyPress(k)),
                Method::Event(EventType::KeyRelease(k)),
            ],
            ScriptEvent::KeyUp(k) => seq![Method::Event(EventType::KeyRelease(k))],
            ScriptEvent::KeyDown(k) => seq![Method::Event(EventType::KeyPress(k))],
            ScriptEvent::Keys(ks) => press_keys(ks@) + release_keys(ks@),
            ScriptEvent::Move(x, y) => seq![self.move_spec(x, y)],
            ScriptEvent::Scroll(dx, dy) => seq![
                Method::Event(EventType::Wheel { delta_x: dx, delta_y: dy }),
            ],
            ScriptEvent::Sleep(n) => seq![Method::Custom(Custom::Sleep(n))],
            ScriptEvent::Exit(c) => seq![Method::Custom(Custom::Exit(c))],
            ScriptEvent::Block { .. } => Seq::empty(),
        }
    }

    /// Compiles steps in order, stopping at the first error. `fuel` bounds how
    /// deeply references to named blocks may nest.
    pub open spec fn compile_seq(&self, nodes: Seq<MethodConfig>, fuel: nat) -> Result<Seq<Method>, CompileError>
        decreases fuel, nodes, 1nat,
    {
        if nodes.len() == 0 {
            Ok(Seq::empty())
        } else {
            match self.compile_seq(nodes.drop_last(), fuel) {
                Err(e) => Err(e),
                Ok(a) => match self.compile_node(nodes.last(), fuel) {
                    Err(e) => Err(e),
                    Ok(b) => Ok(a + b),
                },
            }
        }
    }

    /// Compiles one step, followed by its await delay if it has one.
    pub open spec fn compile_node(&self, node: MethodConfig, fuel: nat) -> Result<Seq<Method>, CompileError>
        decreases fuel, node, 0nat,
    {
        let body = match node.event {
            ScriptEvent::Block { repeat, block } => match block {
                Block::Block(v) => match self.compile_seq(v@, fuel) {
                    Err(e) => Err(e),
                    Ok(s) => expand(s, repeat as nat),
                },
                Block::Name(n) => match find_from(self.blocks@, n@, 0) {
                    None => Err(CompileError::MissingBlock(n)),
                    Some(i) => {
                        let b = self.blocks@[i].1@;
                        if refers_to(b, n@) {
                            Err(CompileError::SelfReference(n))
                        } else if fuel == 0 {
                            Err(CompileError::Cycle(n))
                        } else {
                            match self.compile_seq(b, (fuel - 1) as nat) {
                                Err(e) => Err(e),
                                Ok(s) => expand(s, repeat as nat),
                            }
                        }
                    },
                },
            },
            e => Ok(self.gesture(e)),
        };
        match body {
            Err(e) => Err(e),
            Ok(s) => match node.await_ {
                Some(n) => Ok(s.push(Method::Custom(Custom::Sleep(n)))),
                None => Ok(s),
            },
        }
    }

    /// The program of a list of steps: references to named blocks may nest as
    /// deep as there are named blocks.
    pub open spec fn compile(&self, nodes: Seq<MethodConfig>) -> Result<Seq<Method>, CompileError> {
        self.compile_seq(nodes, self.blocks@.len())
    }
}


proof fn lemma_repeat_len(s: Seq<Method>, k: nat)
    ensures
        repeat_seq(s, k).len() == k * s.len(),
    decreases k,
{
    if k > 0 {
        let p = (k - 1) as nat;
        lemma_repeat_len(s, p);
        assert(repeat_seq(s, k).len() == p * s.len() + s.len());
        assert(k * s.len() == p * s.len() + s.len()) by (nonlinear_arith)
            requires p == k - 1;
    } else {
        assert(0 * s.len() == 0);
    }
}

/// Once a prefix of the steps fails, the whole list fails the same way.
proof fn lemma_prefix_err(cfg: &Config, s: Seq<MethodConfig>, k: int, fuel: nat)
    requires
        0 <= k <= s.len(),
        cfg.compile_seq(s.subrange(0, k), fuel) is Err,
    ensures
        cfg.compile_seq(s, fuel) == cfg.compile_seq(s.subrange(0, k), fuel),
    decreases s.len(),
{
    if k < s.len() {
        let d = s.drop_last();
        assert(d.subrange(0, k) =~= s.subrange(0, k));
        lemma_prefix_err(cfg, d, k, fuel);
    } else {
        assert(s.subrange(0, k) =~= s);
    }
}

/// Expands a compiled block body: `body` concatenated `repeat` times, then
/// the last instruction dropped; `EmptyBlock` when that leaves nothing to drop.
pub fn repeat_block(body: &Vec<Method>, repeat: usize) -> (r: Result<Vec<Method>, CompileError>)
    ensures
        result_view(r) == expand(body@, repeat as nat),
{
    proof {
        lemma_repeat_len(body@, repeat as nat);
    }
    if repeat == 0 || body.len() == 0 {
        proof {
            assert(repeat as nat * body@.len() == 0) by (nonlinear_arith)
                requires repeat == 0 || body@.len() == 0;
        }
        return Err(CompileError::EmptyBlock);
    }
    let mut out: Vec<Method> = Vec::new();
    let mut j: usize = 0;
    while j < repeat
        invariant
            0 <= j <= repeat,
            out@ == repeat_seq(body@, j as nat),
        decreases repeat - j,
    {
        let mut t: usize = 0;
        while t < body.len()
            invariant
                0 <= t <= body.len(),
                out@ == repeat_seq(body@, j as nat) + body@.subrange(0, t as int),
            decreases body.len() - t,
        {
            out.push(body[t]);
            t += 1;
            assert(out@ =~= repeat_seq(body@, j as nat) + body@.subrange(0, t as int));
        }
        assert(body@.subrange(0, body@.len() as int) =~= body@);
        j += 1;
    }
    proof {
        assert(repeat as nat * body@.len() > 0) by (nonlinear_arith)
            requires repeat > 0, body@.len() > 0;
    }
    out.pop();
    Ok(out)
}

/// The index of the first block named `name`.
fn find_block(blocks: &Vec<(String, Vec<MethodConfig>)>, name: &String) -> (r: Option<usize>)
    ensures
        match r {
            Some(i) => find_from(blocks@, name@, 0) == Some(i as int),
            None => find_from(blocks@, name@, 0) is None,
        },
        r matches Some(i) ==> i < blocks.len(),
{
    let mut i: usize = 0;
    while i < blocks.len()
        invariant
            0 <= i <= blocks.len(),
            find_from(blocks@, name@, 0) == find_from(blocks@, name@, i as int),
        decreases blocks.len() - i,
    {
        if blocks[i].0 == *name {
            return Some(i);
        }
        i += 1;
    }
    None
}

/// Whether `nodes` holds, at top level, a reference to the block named `name`.
fn block_refers(nodes: &Vec<MethodConfig>, name: &String) -> (r: bool)
    ensures
        r == refers_to(nodes@, name@),
{
    let mut i: usize = 0;
    while i < nodes.len()
        invariant
            0 <= i <= nodes.len(),
            forall|j: int| 0 <= j < i ==> !(#[trigger] nodes@[j].event.names(name@)),
        decreases nodes.len() - i,
    {
        if nodes[i].event.block_has(name) {
            return true;
        }
        i += 1;
    }
    false
}

impl Config {
    /// The pointer move to a calibrated position.
    pub fn mouse_move(&self, x: i32, y: i32) -> (r: EventType)
        requires
            self.wf(),
        ensures
            Method::Event(r) == self.move_spec(x, y),
    {
        EventType::MouseMove {
            x: calibrate_exec(x, self.offset.0, self.scaling),
            y: calibrate_exec(y, self.offset.1, self.scaling),
        }
    }
}

impl Config {
    /// Appends the instructions of a step that is not a block.
    fn push_gesture(&self, res: &mut Vec<Method>, e: &ScriptEvent)
        requires
            self.wf(),
        ensures
            final(res)@ == old(res)@ + self.gesture(*e),
    {
        let ghost start = res@;
        match e {
            ScriptEvent::Click(b) => {
                res.push(Method::mouse_down(*b));
                res.push(Method::mouse_up(*b));
            },
            ScriptEvent::ClickUp(b) => res.push(Method::mouse_up(*b)),
            ScriptEvent::ClickDown(b) => res.push(Method::mouse_down(*b)),
            ScriptEvent::ClickOn(b, x, y) => {
                res.push(Method::Event(self.mouse_move(*x, *y)));
                res.push(Method::mouse_down(*b));
                res.push(Method::mouse_up(*b));
            },
            ScriptEvent::ClickTo(b, x, y, x2, y2) => {
                res.push(Method::Event(self.mouse_move(*x, *y)));
                res.push(Method::mouse_down(*b));
                res.push(Method::Event(self.mouse_move(*x2, *y2)));
                res.push(Method::mouse_up(*b));
            },
            ScriptEvent::Key(k) => {
                res.push(Method::key_down(*k));
                res.push(Method::key_up(*k));
            },
            ScriptEvent::KeyUp(k) => res.push(Method::key_up(*k)),
            ScriptEvent::KeyDown(k) => res.push(Method::key_down(*k)),
            ScriptEvent::Keys(keys) => {
                let mut i: usize = 0;
                while i < keys.len()
                    invariant
                        0 <= i <= keys.len(),
                        res@ == start + press_keys(keys@.subrange(0, i as int)),
                    decreases keys.len() - i,
                {
                    res.push(Method::key_down(keys[i]));
                    i += 1;
                    assert(press_keys(keys@.subrange(0, i as int)) =~= press_keys(
                        keys@.subrange(0, i - 1),
                    ).push(Method::Event(EventType::KeyPress(keys@[i - 1]))));
                }
                assert(keys@.subrange(0, keys@.len() as int) =~= keys@);
                let ghost mid = res@;
                let mut i: usize = 0;
                while i < keys.len()
                    invariant
                        0 <= i <= keys.len(),
                        res@ == mid + release_keys(keys@.subrange(0, i as int)),
                    decreases keys.len() - i,
                {
                    res.push(Method::key_up(keys[i]));
                    i += 1;
                    assert(release_keys(keys@.subrange(0, i as int)) =~= release_keys(
                        keys@.subrange(0, i - 1),
                    ).push(Method::Event(EventType::KeyRelease(keys@[i - 1]))));
                }
            },
            ScriptEvent::Move(x, y) => res.push(Method::Event(self.mouse_move(*x, *y))),
            ScriptEvent::Scroll(dx, dy) => res.push(
                Method::Event(EventType::Wheel { delta_x: *dx, delta_y: *dy }),
            ),
            ScriptEvent::Sleep(n) => res.push(Method::Custom(Custom::Sleep(*n))),
            ScriptEvent::Exit(c) => res.push(Method::Custom(Custom::Exit(*c))),
            ScriptEvent::Block { .. } => {},
        }
        assert(res@ =~= start + self.gesture(*e));
    }

    /// Compiles one step (see [`Config::compile_node`]).
    fn node_methods(&self, node: &MethodConfig, fuel: usize) -> (r: Result<Vec<Method>, CompileError>)
        requires
            self.wf(),
        ensures
            result_view(r) == self.compile_node(*node, fuel as nat),
        decreases fuel, *node, 0nat,
    {
        let mut res: Vec<Method> = Vec::new();
        match &node.event {
            ScriptEvent::Block { repeat, block } => {
                let body = match block {
                    Block::Block(v) => match self.to_methods(v, fuel) {
                        Ok(b) => b,
                        Err(e) => return Err(e),
                    },
                    Block::Name(n) => {
                        let i = match find_block(&self.blocks, n) {
                            Some(i) => i,
                            None => return Err(CompileError::MissingBlock(n.clone())),
                        };
                        let b = &self.blocks[i].1;
                        if block_refers(b, n) {
                            return Err(CompileError::SelfReference(n.clone()));
                        }
                        if fuel == 0 {
                            return Err(CompileError::Cycle(n.clone()));
                        }
                        match self.to_methods(b, fuel - 1) {
                            Ok(b) => b,
                            Err(e) => return Err(e),
                        }
                    },
                };
                res = match repeat_block(&body, *repeat) {
                    Ok(r) => r,
                    Err(e) => return Err(e),
                };
            },
            e => {
                self.push_gesture(&mut res, e);
                assert(res@ =~= self.gesture(*e));
            },
        }
        if let Some(n) = node.await_ {
            res.push(Method::Custom(Custom::Sleep(n)));
        }
        Ok(res)
    }

    /// Compiles steps in order (see [`Config::compile_seq`]).
    fn to_methods(&self, methods: &Vec<MethodConfig>, fuel: usize) -> (r: Result<Vec<Method>, CompileError>)
        requires
            self.wf(),
        ensures
            result_view(r) == self.compile_seq(methods@, fuel as nat),
        decreases fuel, methods@, 1nat,
    {
        let mut res: Vec<Method> = Vec::new();
        let mut i: usize = 0;
        assert(methods@.subrange(0, 0) =~= Seq::<MethodConfig>::empty());
        while i < methods.len()
            invariant
                self.wf(),
                0 <= i <= methods.len(),
                self.compile_seq(methods@.subrange(0, i as int), fuel as nat) == Ok::<Seq<Method>, CompileError>(res@),
            decreases methods.len() - i,
        {
            let ghost pre = methods@.subrange(0, i as int);
            let ghost cur = methods@.subrange(0, i + 1);
            assert(cur.drop_last() =~= pre);
            assert(cur.last() == methods@[i as int]);
            match self.node_methods(&methods[i], fuel) {
                Ok(part) => {
                    let mut part = part;
                    res.append(&mut part);
                },
                Err(e) => {
                    proof {
                        lemma_prefix_err(self, methods@, i + 1, fuel as nat);
                    }
                    return Err(e);
                },
            }
            i += 1;
        }
        assert(methods@.subrange(0, methods@.len() as int) =~= methods@);
        Ok(res)
    }
}

/// The titles of the scripts are pairwise distinct.
pub open spec fn titles_distinct(scripts: Seq<ScriptConfig>) -> bool {
    forall|i: int, j: int|
        0 <= i < j < scripts.len() ==> #[trigger] scripts[i].title@ != #[trigger] scripts[j].title@
}

/// The triggers in order of first appearance, each once.
pub open spec fn dedup(s: Seq<Trigger>) -> Seq<Trigger>
    decreases s.len(),
{
    if s.len() == 0 {
        Seq::empty()
    } else {
        let d = dedup(s.drop_last());
        if d.contains(s.last()) {
            d
        } else {
            d.push(s.last())
        }
    }
}

/// One released flag per distinct trigger.
pub open spec fn initial_flags(ts: Seq<Trigger>) -> Seq<(Trigger, bool)> {
    dedup(ts).map_values(|t: Trigger| (t, false))
}

impl Config {
    /// The compiled form of script `c` with program `methods`.
    pub open spec fn script_spec(&self, c: ScriptConfig, methods: Seq<Method>) -> ScriptView {
        ScriptView {
            title: c.title@,
            delay: match c.delay {
                Some(d) => d,
                None => self.delay,
            },
            repeat: c.repeat,
            methods,
            task: false,
            trigger: initial_flags(c.trigger@),
        }
    }

    /// The first `n` scripts compiled, or the first error among them.
    pub open spec fn load_upto(&self, n: nat) -> Result<Seq<ScriptView>, CompileError>
        decreases n,
    {
        if n == 0 {
            Ok(Seq::empty())
        } else {
            match self.load_upto((n - 1) as nat) {
                Err(e) => Err(e),
                Ok(p) => match self.compile(self.scripts@[n - 1].methods@) {
                    Err(e) => Err(e),
                    Ok(m) => Ok(p.push(self.script_spec(self.scripts@[n - 1], m))),
                },
            }
        }
    }

    /// The whole document compiled: titles are checked first, then every
    /// script in order.
    pub open spec fn load_spec(&self) -> Result<Seq<ScriptView>, CompileError> {
        if !titles_distinct(self.scripts@) {
            Err(CompileError::DuplicateTitle)
        } else {
            self.load_upto(self.scripts@.len())
        }
    }
}

proof fn lemma_load_err(cfg: &Config, k: nat, n: nat)
    requires
        k <= n,
        cfg.load_upto(k) is Err,
    ensures
        cfg.load_upto(n) == cfg.load_upto(k),
    decreases n,
{
    if k < n {
        lemma_load_err(cfg, k, (n - 1) as nat);
    }
}

/// Whether the titles are pairwise distinct.
fn titles_unique(scripts: &Vec<ScriptConfig>) -> (r: bool)
    ensures
        r == titles_distinct(scripts@),
{
    let mut j: usize = 0;
    while j < scripts.len()
        invariant
            0 <= j <= scripts.len(),
            forall|a: int, b: int|
                0 <= a < b < j ==> #[trigger] scripts@[a].title@ != #[trigger] scripts@[b].title@,
        decreases scripts.len() - j,
    {
        let mut i: usize = 0;
        while i < j
            invariant
                0 <= i <= j < scripts.len(),
                forall|a: int| 0 <= a < i ==> #[trigger] scripts@[a].title@ != scripts@[j as int].title@,
            decreases j - i,
        {
            if scripts[i].title == scripts[j].title {
                return false;
            }
            i += 1;
        }
        j += 1;
    }
    true
}

/// One released flag per distinct trigger, in order of first appearance.
fn flags_of(ts: &Vec<Trigger>) -> (r: Vec<(Trigger, bool)>)
    ensures
        r@ == initial_flags(ts@),
{
    let mut r: Vec<(Trigger, bool)> = Vec::new();
    let mut i: usize = 0;
    assert(ts@.subrange(0, 0) =~= Seq::<Trigger>::empty());
    assert(r@ =~= initial_flags(ts@.subrange(0, 0)));
    while i < ts.len()
        invariant
            0 <= i <= ts.len(),
            r@ == initial_flags(ts@.subrange(0, i as int)),
        decreases ts.len() - i,
    {
        let t = ts[i];
        let ghost pre = ts@.subrange(0, i as int);
        let ghost d = dedup(pre);
        assert(ts@.subrange(0, i + 1).drop_last() =~= pre);
        let mut seen = false;
        let mut j: usize = 0;
        while j < r.len()
            invariant
                0 <= j <= r.len(),
                r@ == initial_flags(pre),
                d == dedup(pre),
                r@.len() == d.len(),
                seen == exists|k: int| 0 <= k < j && #[trigger] d[k] == t,
            decreases r.len() - j,
        {
            assert(r@[j as int].0 == d[j as int]);
            if r[j].0 == t {
                seen = true;
            }
            assert(seen == exists|k: int| 0 <= k < j + 1 && #[trigger] d[k] == t) by {
                if r@[j as int].0 == t {
                    assert(d[j as int] == t);
                }
            }
            j += 1;
        }
        assert(seen == d.contains(t));
        if !seen {
            r.push((t, false));
            assert(r@ =~= initial_flags(ts@.subrange(0, i + 1)));
        }
        i += 1;
    }
    assert(ts@.subrange(0, ts@.len() as int) =~= ts@);
    r
}

impl Config {
    /// Compiles a list of steps against this document's blocks and calibration.
    pub fn compile_steps(&self, methods: &Vec<MethodConfig>) -> (r: Result<Vec<Method>, CompileError>)
        requires
            self.wf(),
        ensures
            result_view(r) == self.compile(methods@),
    {
        self.to_methods(methods, self.blocks.len())
    }

    /// Compiles the document into its scripts, in order, or fails with the
    /// first error; never a part of the scripts.
    pub fn load(&self) -> (r: Result<ScriptList, CompileError>)
        requires
            self.wf(),
        ensures
            match r {
                Ok(list) => self.load_spec() == Ok::<Seq<ScriptView>, CompileError>(list.views()),
                Err(e) => self.load_spec() == Err::<Seq<ScriptView>, CompileError>(e),
            },
    {
        if !titles_unique(&self.scripts) {
            return Err(CompileError::DuplicateTitle);
        }
        let mut out: Vec<Script> = Vec::new();
        let mut i: usize = 0;
        assert(out@.map_values(|s: Script| s@) =~= Seq::<ScriptView>::empty());
        while i < self.scripts.len()
            invariant
                self.wf(),
                titles_distinct(self.scripts@),
                0 <= i <= self.scripts.len(),
                self.load_upto(i as nat) == Ok::<Seq<ScriptView>, CompileError>(
                    out@.map_values(|s: Script| s@),
                ),
            decreases self.scripts.len() - i,
        {
            let item = &self.scripts[i];
            let methods = match self.compile_steps(&item.methods) {
                Ok(m) => m,
                Err(e) => {
                    proof {
                        lemma_load_err(self, (i + 1) as nat, self.scripts@.len());
                    }
                    return Err(e);
                },
            };
            let delay = match item.delay {
                Some(d) => d,
                None => self.delay,
            };
            let script = Script {
                title: Arc::new(item.title.clone()),
                delay,
                repeat: item.repeat,
                methods: Arc::new(methods),
                task: false,
                trigger: flags_of(&item.trigger),
            };
            let ghost before = out@;
            out.push(script);
            assert(out@.map_values(|s: Script| s@) =~= before.map_values(|s: Script| s@).push(script@));
            i += 1;
        }
        Ok(ScriptList(out))
    }
}

/// A single step compiles to what compiling it alone as a node gives.
proof fn lemma_single(cfg: &Config, node: MethodConfig, fuel: nat)
    ensures
        cfg.compile_seq(seq![node], fuel) == cfg.compile_node(node, fuel),
{
    let s = seq![node];
    assert(s.drop_last() =~= Seq::<MethodConfig>::empty());
    assert(s.last() == node);
    assert(cfg.compile_seq(Seq::<MethodConfig>::empty(), fuel) == Ok::<Seq<Method>, CompileError>(Seq::empty()));
    assert(cfg.compile_seq(s.drop_last(), fuel) == Ok::<Seq<Method>, CompileError>(Seq::empty()));
    if let Ok(b) = cfg.compile_node(node, fuel) {
        assert(Seq::<Method>::empty() + b =~= b);
    }
}

proof fn lemma_find_none(blocks: Seq<(String, Vec<MethodConfig>)>, name: Seq<char>, i: int)
    requires
        0 <= i,
        forall|k: int| i <= k < blocks.len() ==> #[trigger] blocks[k].0@ != name,
    ensures
        find_from(blocks, name, i) is None,
    decreases blocks.len() - i,
{
    if i < blocks.len() {
        lemma_find_none(blocks, name, i + 1);
    }
}

proof fn lemma_find_first(blocks: Seq<(String, Vec<MethodConfig>)>, name: Seq<char>, i: int, k: int)
    requires
        0 <= i <= k < blocks.len(),
        blocks[k].0@ == name,
        forall|j: int| i <= j < k ==> #[trigger] blocks[j].0@ != name,
    ensures
        find_from(blocks, name, i) == Some(k),
    decreases k - i,
{
    if i < k {
        lemma_find_first(blocks, name, i + 1, k);
    }
}

proof fn lemma_load_ok(cfg: &Config, n: nat)
    requires
        n <= cfg.scripts@.len(),
        forall|i: int| 0 <= i < n ==> #[trigger] cfg.compile(cfg.scripts@[i].methods@) is Ok,
    ensures
        cfg.load_upto(n) is Ok,
        cfg.load_upto(n)->Ok_0.len() == n,
        forall|i: int| 0 <= i < n ==> #[trigger] cfg.load_upto(n)->Ok_0[i].title == cfg.scripts@[i].title@,
    decreases n,
{
    if n > 0 {
        lemma_load_ok(cfg, (n - 1) as nat);
        assert(cfg.compile(cfg.scripts@[n - 1].methods@) is Ok);
    }
}

/// A document whose scripts have pairwise distinct titles, and whose steps
/// all compile, compiles to exactly one script per definition, in order.
pub proof fn lemma_distinct_titles_load(cfg: &Config)
    requires
        titles_distinct(cfg.scripts@),
        forall|i: int| 0 <= i < cfg.scripts@.len() ==> #[trigger] cfg.compile(cfg.scripts@[i].methods@) is Ok,
    ensures
        cfg.load_spec() is Ok,
        cfg.load_spec()->Ok_0.len() == cfg.scripts@.len(),
        forall|i: int|
            0 <= i < cfg.scripts@.len() ==> #[trigger] cfg.load_spec()->Ok_0[i].title == cfg.scripts@[i].title@,
{
    lemma_load_ok(cfg, cfg.scripts@.len());
}

/// Two scripts that share a title make the whole document fail with
/// `DuplicateTitle`, whatever else it holds.
pub proof fn lemma_shared_title_fails(cfg: &Config, i: int, j: int)
    requires
        0 <= i < j < cfg.scripts@.len(),
        cfg.scripts@[i].title@ == cfg.scripts@[j].title@,
    ensures
        cfg.load_spec() == Err::<Seq<ScriptView>, CompileError>(CompileError::DuplicateTitle),
{
}

/// A reference to a name under which no block is registered fails with
/// `MissingBlock`.
pub proof fn lemma_missing_block(cfg: &Config, name: String, repeat: usize, await_: Option<u64>)
    requires
        forall|k: int| 0 <= k < cfg.blocks@.len() ==> #[trigger] cfg.blocks@[k].0@ != name@,
    ensures
        cfg.compile(seq![MethodConfig { event: ScriptEvent::Block { repeat, block: Block::Name(name) }, await_ }])
            == Err::<Seq<Method>, CompileError>(CompileError::MissingBlock(name)),
{
    lemma_find_none(cfg.blocks@, name@, 0);
    lemma_single(
        cfg,
        MethodConfig { event: ScriptEvent::Block { repeat, block: Block::Name(name) }, await_ },
        cfg.blocks@.len(),
    );
}

/// A reference to a block whose own steps refer to it by name fails with
/// `SelfReference`. (Only such direct references are caught this way.)
pub proof fn lemma_self_reference(cfg: &Config, name: String, repeat: usize, await_: Option<u64>, k: int)
    requires
        0 <= k < cfg.blocks@.len(),
        cfg.blocks@[k].0@ == name@,
        forall|j: int| 0 <= j < k ==> #[trigger] cfg.blocks@[j].0@ != name@,
        refers_to(cfg.blocks@[k].1@, name@),
    ensures
        cfg.compile(seq![MethodConfig { event: ScriptEvent::Block { repeat, block: Block::Name(name) }, await_ }])
            == Err::<Seq<Method>, CompileError>(CompileError::SelfReference(name)),
{
    lemma_find_first(cfg.blocks@, name@, 0, k);
    lemma_single(
        cfg,
        MethodConfig { event: ScriptEvent::Block { repeat, block: Block::Name(name) }, await_ },
        cfg.blocks@.len(),
    );
}

/// A block repeated `k` >= 1 times whose steps compile to a non-empty `s`
/// compiles to `s` concatenated `k` times without its last instruction.
pub proof fn lemma_block_repeat(cfg: &Config, body: Vec<MethodConfig>, k: usize)
    requires
        cfg.compile(body@) is Ok,
        cfg.compile(body@)->Ok_0.len() > 0,
        k >= 1,
    ensures
        cfg.compile(seq![MethodConfig { event: ScriptEvent::Block { repeat: k, block: Block::Block(body) }, await_: None }])
            == Ok::<Seq<Method>, CompileError>(repeat_seq(cfg.compile(body@)->Ok_0, k as nat).drop_last()),
{
    let s = cfg.compile(body@)->Ok_0;
    lemma_repeat_len(s, k as nat);
    assert(k as nat * s.len() > 0) by (nonlinear_arith)
        requires k >= 1, s.len() > 0;
    lemma_single(
        cfg,
        MethodConfig { event: ScriptEvent::Block { repeat: k, block: Block::Block(body) }, await_: None },
        cfg.blocks@.len(),
    );
}

/// A click compiles to a press and a release of the button; a click at a
/// position is preceded by a move to the calibrated position.
pub proof fn lemma_click(cfg: &Config, b: Button, x: i32, y: i32)
    ensures
        cfg.compile(seq![MethodConfig { event: ScriptEvent::Click(b), await_: None }])
            == Ok::<Seq<Method>, CompileError>(seq![
                Method::Event(EventType::ButtonPress(b)),
                Method::Event(EventType::ButtonRelease(b)),
            ]),
        cfg.compile(seq![MethodConfig { event: ScriptEvent::ClickOn(b, x, y), await_: None }])
            == Ok::<Seq<Method>, CompileError>(seq![
                Method::Event(EventType::MouseMove {
                    x: calibrate(x, cfg.offset.0, cfg.scaling) as i64,
                    y: calibrate(y, cfg.offset.1, cfg.scaling) as i64,
                }),
                Method::Event(EventType::ButtonPress(b)),
                Method::Event(EventType::ButtonRelease(b)),
            ]),
{
    lemma_single(cfg, MethodConfig { event: ScriptEvent::Click(b), await_: None }, cfg.blocks@.len());
    lemma_single(cfg, MethodConfig { event: ScriptEvent::ClickOn(b, x, y), await_: None }, cfg.blocks@.len());
}

fn calibrate_exec(v: i32, off: i32, scale: u32) -> (r: i64)
    requires
        scale > 0,
    ensures
        r == calibrate(v, off, scale),
{
    let n: i64 = (v as i64 + off as i64) * 1000;
    let s: i64 = scale as i64;
    if n >= 0 {
        n / s
    } else {
        let m: i64 = -n;
        let q: i64 = (m + s - 1) / s;
        proof {
            let ni = n as int;
            let si = s as int;
            let qi = q as int;
            assert(qi * si >= m as int && (qi - 1) * si < m as int) by (nonlinear_arith)
                requires qi == (m as int + si - 1) / si, si > 0, m as int > 0;
            assert(ni / si == -qi) by (nonlinear_arith)
                requires qi * si >= -ni, (qi - 1) * si < -ni, si > 0;
        }
        -q
    }
}

} // verus!
