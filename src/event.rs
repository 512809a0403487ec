//! The instruction model: primitive, already-resolved input operations.
use vstd::prelude::*;

verus! {

/// A keyboard key, identified by a code.
#[derive(Clone, Copy, Debug, PartialEq, Eq, Hash, Structural)]
pub struct Key(pub u32);

/// A mouse button, identified by a code.
#[derive(Clone, Copy, Debug, PartialEq, Eq, Hash, Structural)]
pub struct Button(pub u32);

/// A physical input source that can take part in an activation combination.
#[derive(Clone, Copy, Debug, PartialEq, Eq, Hash, Structural)]
pub enum Trigger {
    Key(Key),
    Mouse(Button),
}

/// An input event, as observed from the input hook or as injected.
/// Pointer coordinates are in thousandths of a pixel.
#[derive(Clone, Copy, Debug, PartialEq, Eq, Structural)]
pub enum EventType {
    KeyPress(Key),
    KeyRelease(Key),
    ButtonPress(Button),
    ButtonRelease(Button),
    MouseMove { x: i64, y: i64 },
    Wheel { delta_x: i64, delta_y: i64 },
}

/// Operations that are carried out by the runtime itself rather than injected.
#[derive(Clone, Copy, Debug, PartialEq, Eq, Structural)]
pub enum Custom {
    /// Suspend for this many milliseconds.
    Sleep(u64),
    /// End the whole process with this exit code.
    Exit(i32),
}

/// One instruction of a compiled program.
#[derive(Clone, Copy, Debug, PartialEq, Eq, Structural)]
pub enum Method {
    /// An event handed to the injector.
    Event(EventType),
    /// A timing or process operation.
    Custom(Custom),
}

/// How long to wait after an injected event.
#[derive(Clone, Copy, Debug, PartialEq, Eq, Structural)]
pub enum Pause {
    Micros(u64),
    Millis(u64),
}

/// What the runtime does for one instruction.
#[derive(Clone, Copy, Debug, PartialEq, Eq, Structural)]
pub enum Action {
    /// Inject the event (a failure is reported and skipped), then wait.
    Inject(EventType, Pause),
    /// Suspend for this many milliseconds.
    Sleep(u64),
    /// Terminate the process with this code.
    Exit(i32),
}

/// The fixed pause after a pointer move, in microseconds.
pub const MOVE_PAUSE_MICROS: u64 = 100;

/// The action the runtime takes for instruction `m` in a script whose
/// per-instruction delay is `delay` milliseconds.
pub open spec fn action_of(m: Method, delay: u64) -> Action {
    match m {
        Method::Event(e) => match e {
            EventType::MouseMove { .. } => Action::Inject(e, Pause::Micros(MOVE_PAUSE_MICROS)),
            _ => Action::Inject(e, Pause::Millis(delay)),
        },
        Method::Custom(Custom::Sleep(n)) => Action::Sleep(n),
        Method::Custom(Custom::Exit(c)) => Action::Exit(c),
    }
}

impl Method {
    pub fn key_down(key: Key) -> (r: Self)
        ensures
            r == Method::Event(EventType::KeyPress(key)),
    {
        Method::Event(EventType::KeyPress(key))
    }

    pub fn key_up(key: Key) -> (r: Self)
        ensures
            r == Method::Event(EventType::KeyRelease(key)),
    {
        Method::Event(EventType::KeyRelease(key))
    }

    pub fn mouse_down(button: Button) -> (r: Self)
        ensures
            r == Method::Event(EventType::ButtonPress(button)),
    {
        Method::Event(EventType::ButtonPress(button))
    }

    pub fn mouse_up(button: Button) -> (r: Self)
        ensures
            r == Method::Event(EventType::ButtonRelease(button)),
    {
        Method::Event(EventType::ButtonRelease(button))
    }

    /// Decides what executing this instruction means: a pointer move is
    /// followed by a short fixed pause, any other event by the script's delay;
    /// a sleep is its own delay, and an exit ends the process.
    pub fn action(&self, delay: u64) -> (r: Action)
        ensures
            r == action_of(*self, delay),
    {
        match self {
            Method::Event(e) => match e {
                EventType::MouseMove { .. } => Action::Inject(*e, Pause::Micros(MOVE_PAUSE_MICROS)),
                _ => Action::Inject(*e, Pause::Millis(delay)),
            },
            Method::Custom(Custom::Sleep(n)) => Action::Sleep(*n),
            Method::Custom(Custom::Exit(c)) => Action::Exit(*c),
        }
    }
}

} // verus!
