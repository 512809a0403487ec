use std::sync::Arc;

use ms::event::{Action, Button, Custom, EventType, Key, Method, Pause, Trigger};
use ms::script::{Command, Runner, Script, ScriptList};
use ms::start::Commands;

fn script(repeat: usize, triggers: Vec<Trigger>) -> Script {
    Script {
        title: Arc::new("s".to_string()),
        delay: 10,
        repeat,
        methods: Arc::new(vec![Method::key_down(Key(1)), Method::key_up(Key(1))]),
        task: false,
        trigger: triggers.into_iter().map(|t| (t, false)).collect(),
    }
}

#[test]
fn finite_run_makes_exact_passes() {
    let mut r = Runner::new(3, 2);
    let mut seen = vec![];
    while let Some(i) = r.next() {
        seen.push(i);
    }
    assert_eq!(seen, vec![0, 1, 0, 1, 0, 1]);
    assert_eq!(r.next(), None);
}

#[test]
fn finite_script_restarts_after_finishing() {
    let mut s = script(3, vec![Trigger::Key(Key(1))]);
    assert_eq!(s.run(false), Command::Start);
    assert!(s.task);
    assert_eq!(s.run(false), Command::Stop);
    assert!(!s.task);
    assert_eq!(s.run(false), Command::Start);
    assert_eq!(s.run(true), Command::Start);
    assert!(s.task);
}

#[test]
fn endless_script_toggles() {
    let mut s = script(0, vec![Trigger::Key(Key(1))]);
    assert_eq!(s.run(true), Command::Start);
    assert_eq!(s.run(true), Command::Stop);
    let mut r = Runner::new(0, 2);
    let seen: Vec<Option<usize>> = (0..5).map(|_| r.next()).collect();
    assert_eq!(seen, vec![Some(0), Some(1), Some(0), Some(1), Some(0)]);
}

#[test]
fn empty_program_run_ends() {
    let mut r = Runner::new(0, 0);
    assert_eq!(r.next(), None);
}

#[test]
fn repress_of_one_key_activates_again() {
    let a = Key(1);
    let b = Key(2);
    let mut list = ScriptList(vec![script(0, vec![Trigger::Key(a), Trigger::Key(b)])]);
    let done = vec![false];
    assert!(list.handle(&EventType::KeyPress(a), &done).is_empty());
    assert_eq!(list.handle(&EventType::KeyPress(b), &done), vec![(0, Command::Start)]);
    assert!(list.handle(&EventType::KeyRelease(a), &done).is_empty());
    assert_eq!(list.handle(&EventType::KeyPress(a), &done), vec![(0, Command::Stop)]);
}

#[test]
fn held_key_repeat_toggles() {
    let a = Key(1);
    let mut list = ScriptList(vec![script(0, vec![Trigger::Key(a)])]);
    let done = vec![false];
    assert_eq!(list.handle(&EventType::KeyPress(a), &done), vec![(0, Command::Start)]);
    assert_eq!(list.handle(&EventType::KeyPress(a), &done), vec![(0, Command::Stop)]);
}

#[test]
fn unrelated_events_are_ignored() {
    let mut list = ScriptList(vec![
        script(1, vec![Trigger::Mouse(Button(1))]),
        script(1, vec![Trigger::Key(Key(5))]),
    ]);
    let done = vec![true, true];
    assert!(list.handle(&EventType::KeyPress(Key(9)), &done).is_empty());
    assert!(list.handle(&EventType::MouseMove { x: 1, y: 1 }, &done).is_empty());
    assert!(list.handle(&EventType::KeyPress(Key(1)), &done).is_empty());
    assert_eq!(list.handle(&EventType::ButtonPress(Button(1)), &done), vec![(0, Command::Start)]);
    assert!(list.0[0].trigger[0].1);
    assert!(list.handle(&EventType::ButtonRelease(Button(1)), &done).is_empty());
    assert!(!list.0[0].trigger[0].1);
}

#[test]
fn several_scripts_share_a_trigger() {
    let k = Key(3);
    let mut list = ScriptList(vec![script(2, vec![Trigger::Key(k)]), script(0, vec![Trigger::Key(k)])]);
    let done = vec![false, false];
    assert_eq!(list.handle(&EventType::KeyPress(k), &done), vec![(0, Command::Start), (1, Command::Start)]);
}

#[test]
fn up_clears_flag() {
    let mut s = script(1, vec![Trigger::Key(Key(1)), Trigger::Key(Key(2))]);
    assert_eq!(s.down(&Trigger::Key(Key(1)), false), None);
    s.up(&Trigger::Key(Key(1)));
    assert_eq!(s.down(&Trigger::Key(Key(2)), false), None);
    assert_eq!(s.down(&Trigger::Key(Key(1)), false), Some(Command::Start));
}

#[test]
fn actions_of_instructions() {
    let mv = EventType::MouseMove { x: 5, y: 6 };
    assert_eq!(Method::Event(mv).action(40), Action::Inject(mv, Pause::Micros(100)));
    let kp = EventType::KeyPress(Key(1));
    assert_eq!(Method::Event(kp).action(40), Action::Inject(kp, Pause::Millis(40)));
    assert_eq!(Method::Custom(Custom::Sleep(7)).action(40), Action::Sleep(7));
    assert_eq!(Method::Custom(Custom::Exit(2)).action(40), Action::Exit(2));
}

#[test]
fn default_command_runs_config_toml() {
    match Commands::default() {
        Commands::Run { config } => assert_eq!(config, "config.toml"),
        _ => panic!("expected the run command"),
    }
}
