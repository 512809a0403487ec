use ms::config::{Block, CompileError, Config, MethodConfig, ScriptConfig, ScriptEvent};
use ms::event::{Button, Custom, EventType, Key, Method, Trigger};
use ms::start::Restart;

fn step(event: ScriptEvent) -> MethodConfig {
    MethodConfig { event, await_: None }
}

fn doc(scripts: Vec<ScriptConfig>, blocks: Vec<(String, Vec<MethodConfig>)>) -> Config {
    Config { delay: 20, scaling: 1000, offset: (0, 0), scripts, start: Restart::Many, blocks }
}

fn script(title: &str, methods: Vec<MethodConfig>) -> ScriptConfig {
    ScriptConfig {
        title: title.to_string(),
        repeat: 1,
        delay: None,
        trigger: vec![Trigger::Key(Key(1))],
        methods,
    }
}

fn named(name: &str, repeat: usize) -> MethodConfig {
    step(ScriptEvent::Block { repeat, block: Block::Name(name.to_string()) })
}

fn kd(k: u32) -> Method {
    Method::Event(EventType::KeyPress(Key(k)))
}

fn ku(k: u32) -> Method {
    Method::Event(EventType::KeyRelease(Key(k)))
}

#[test]
fn distinct_titles_compile_in_order() {
    let mut c = doc(
        vec![
            script("a", vec![step(ScriptEvent::Key(Key(1)))]),
            script("b", vec![step(ScriptEvent::Sleep(5))]),
            script("c", vec![]),
        ],
        vec![],
    );
    c.scripts[1].delay = Some(7);
    c.scripts[2].trigger = vec![Trigger::Key(Key(3)), Trigger::Mouse(Button(1)), Trigger::Key(Key(3))];
    let list = c.load().unwrap();
    assert_eq!(list.0.len(), 3);
    let titles: Vec<String> = list.0.iter().map(|s| (*s.title).clone()).collect();
    assert_eq!(titles, vec!["a", "b", "c"]);
    assert_eq!(list.0[0].delay, 20);
    assert_eq!(list.0[1].delay, 7);
    assert_eq!(*list.0[0].methods, vec![kd(1), ku(1)]);
    assert_eq!(*list.0[1].methods, vec![Method::Custom(Custom::Sleep(5))]);
    assert_eq!(list.0[2].trigger, vec![(Trigger::Key(Key(3)), false), (Trigger::Mouse(Button(1)), false)]);
    assert!(list.0.iter().all(|s| !s.task));
}

#[test]
fn shared_title_fails() {
    let c = doc(vec![script("x", vec![]), script("y", vec![]), script("x", vec![])], vec![]);
    assert!(matches!(c.load(), Err(CompileError::DuplicateTitle)));
}

#[test]
fn missing_block_fails() {
    let c = doc(vec![script("x", vec![named("nowhere", 1)])], vec![]);
    match c.load() {
        Err(CompileError::MissingBlock(n)) => assert_eq!(n, "nowhere"),
        _ => panic!("expected a missing block"),
    }
}

#[test]
fn direct_self_reference_fails() {
    let blocks = vec![("loop".to_string(), vec![step(ScriptEvent::Key(Key(1))), named("loop", 1)])];
    let c = doc(vec![script("x", vec![named("loop", 2)])], blocks);
    match c.load() {
        Err(CompileError::SelfReference(n)) => assert_eq!(n, "loop"),
        _ => panic!("expected a self reference"),
    }
}

#[test]
fn indirect_cycle_is_no_self_reference() {
    let blocks = vec![
        ("a".to_string(), vec![named("b", 1)]),
        ("b".to_string(), vec![named("a", 1)]),
    ];
    let c = doc(vec![], blocks);
    let r = c.compile_steps(&vec![named("a", 1)]);
    assert!(matches!(r, Err(CompileError::Cycle(_))));
    assert!(!matches!(r, Err(CompileError::SelfReference(_))));
}

#[test]
fn repeated_block_drops_last() {
    let body = vec![step(ScriptEvent::Key(Key(4)))];
    let c = doc(vec![], vec![]);
    let r = c.compile_steps(&vec![step(ScriptEvent::Block { repeat: 3, block: Block::Block(body) })]).unwrap();
    assert_eq!(r, vec![kd(4), ku(4), kd(4), ku(4), kd(4)]);
}

#[test]
fn named_block_repeats() {
    let blocks = vec![("tap".to_string(), vec![step(ScriptEvent::KeyDown(Key(2))), step(ScriptEvent::Sleep(9))])];
    let c = doc(vec![], blocks);
    let r = c.compile_steps(&vec![named("tap", 2), step(ScriptEvent::KeyUp(Key(2)))]).unwrap();
    assert_eq!(r, vec![kd(2), Method::Custom(Custom::Sleep(9)), kd(2), ku(2)]);
}

#[test]
fn empty_block_fails() {
    let c = doc(vec![], vec![("none".to_string(), vec![])]);
    assert!(matches!(c.compile_steps(&vec![named("none", 3)]), Err(CompileError::EmptyBlock)));
    let once = vec![step(ScriptEvent::Key(Key(1)))];
    let r = c.compile_steps(&vec![step(ScriptEvent::Block { repeat: 0, block: Block::Block(once) })]);
    assert!(matches!(r, Err(CompileError::EmptyBlock)));
}

#[test]
fn single_block_pass_loses_its_last_step() {
    let body = vec![step(ScriptEvent::Key(Key(6)))];
    let c = doc(vec![], vec![]);
    let r = c.compile_steps(&vec![MethodConfig {
        event: ScriptEvent::Block { repeat: 1, block: Block::Block(body) },
        await_: Some(30),
    }]);
    assert_eq!(r.unwrap(), vec![kd(6), Method::Custom(Custom::Sleep(30))]);
}

#[test]
fn click_and_click_at() {
    let mut c = doc(vec![], vec![]);
    c.scaling = 1250;
    c.offset = (10_000, -2_000);
    let b = Button(1);
    let r = c.compile_steps(&vec![step(ScriptEvent::Click(b))]).unwrap();
    assert_eq!(r, vec![Method::mouse_down(b), Method::mouse_up(b)]);
    let r = c.compile_steps(&vec![step(ScriptEvent::ClickOn(b, 90_000, 52_000))]).unwrap();
    assert_eq!(
        r,
        vec![
            Method::Event(EventType::MouseMove { x: 80_000, y: 40_000 }),
            Method::mouse_down(b),
            Method::mouse_up(b),
        ]
    );
}

#[test]
fn calibration_rounds_down() {
    let mut c = doc(vec![], vec![]);
    c.scaling = 3000;
    assert_eq!(c.mouse_move(-1000, 1000), EventType::MouseMove { x: -334, y: 333 });
}

#[test]
fn drag_keys_scroll_and_await() {
    let c = doc(vec![], vec![]);
    let b = Button(2);
    let r = c
        .compile_steps(&vec![
            step(ScriptEvent::ClickTo(b, 1, 2, 3, 4)),
            step(ScriptEvent::Keys(vec![Key(1), Key(2)])),
            MethodConfig { event: ScriptEvent::Scroll(0, -1), await_: Some(15) },
            step(ScriptEvent::Exit(3)),
        ])
        .unwrap();
    assert_eq!(
        r,
        vec![
            Method::Event(EventType::MouseMove { x: 1, y: 2 }),
            Method::mouse_down(b),
            Method::Event(EventType::MouseMove { x: 3, y: 4 }),
            Method::mouse_up(b),
            kd(1),
            kd(2),
            ku(1),
            ku(2),
            Method::Event(EventType::Wheel { delta_x: 0, delta_y: -1 }),
            Method::Custom(Custom::Sleep(15)),
            Method::Custom(Custom::Exit(3)),
        ]
    );
}

#[test]
fn first_error_wins() {
    let c = doc(vec![], vec![]);
    let r = c.compile_steps(&vec![named("first", 1), named("second", 1)]);
    match r {
        Err(CompileError::MissingBlock(n)) => assert_eq!(n, "first"),
        _ => panic!("expected the first missing block"),
    }
}
