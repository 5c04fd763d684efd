//! The tutorial: which step the player is at, and what each step lets
//! through to the session.

use vstd::prelude::*;
use crate::data::StoredData;
use crate::main_game::{Event, KEY_C, KEY_R, KEY_SPACE};

verus! {

/// How long a step's text is held back after the step began, in
/// microseconds.
pub const TIMEOUT: u32 = 5_000_000;

/// A step of the tutorial. A step with a timer shows its text, and accepts
/// its key, once the timer has run out.
#[derive(Clone, Copy, Debug, PartialEq, Eq, Structural)]
pub enum TutorialState {
    WelcomeText,
    PendulumDesc,
    PendulumDescRunning { timer: u32 },
    SetupDesc,
    TargetDesc { timer: u32 },
    LastText { timer: u32 },
    Done,
}

/// The buttons under the welcome text.
#[derive(Clone, Copy, Debug, PartialEq, Eq, Structural)]
pub enum TutorialButton {
    Skip,
    Next,
}

/// The tutorial of one session.
#[derive(Debug)]
pub struct Tutorial {
    state: TutorialState,
}

/// Whether `event` is the release of key `code` with shift held or not as
/// `shift` says.
pub open spec fn is_key(event: Event, code: u32, shift: bool) -> bool {
    event matches Event::KeyUp { code: c, shift: s } && c == code && s == shift
}

/// Whether `event` is the release of key `code`.
pub open spec fn is_key_any(event: Event, code: u32) -> bool {
    event matches Event::KeyUp { code: c, .. } && c == code
}

impl TutorialState {
    /// The step after `event`, and whether the session gets to see the
    /// event. `button` is the button that the event pressed, if any.
    pub open spec fn after_event(self, event: Event, button: Option<TutorialButton>) -> (
        TutorialState,
        bool,
    ) {
        match self {
            TutorialState::WelcomeText => match button {
                Some(TutorialButton::Skip) => (TutorialState::Done, false),
                Some(TutorialButton::Next) => (TutorialState::PendulumDesc, false),
                None => (self, false),
            },
            TutorialState::PendulumDesc => if is_key_any(event, KEY_SPACE) {
                (TutorialState::PendulumDescRunning { timer: TIMEOUT }, true)
            } else {
                (self, false)
            },
            TutorialState::PendulumDescRunning { timer } => if timer == 0 && is_key(
                event,
                KEY_R,
                true,
            ) {
                (TutorialState::SetupDesc, true)
            } else {
                (self, false)
            },
            TutorialState::SetupDesc => if is_key_any(event, KEY_SPACE) {
                (TutorialState::TargetDesc { timer: TIMEOUT }, true)
            } else {
                (self, event.from_mouse() || is_key(event, KEY_R, true))
            },
            TutorialState::TargetDesc { timer } => if timer == 0 && is_key(event, KEY_R, false) {
                (TutorialState::LastText { timer: TIMEOUT }, true)
            } else {
                (self, false)
            },
            TutorialState::LastText { timer } => if (timer == 0 && event.from_mouse())
                || is_key_any(event, KEY_C) {
                (self, true)
            } else if timer == 0 && is_key_any(event, KEY_SPACE) {
                (TutorialState::Done, true)
            } else {
                (self, false)
            },
            TutorialState::Done => (self, true),
        }
    }

    /// Whether `event` ends the tutorial at this step.
    pub open spec fn finishes(self, event: Event, button: Option<TutorialButton>) -> bool {
        !(self is Done) && self.after_event(event, button).0 is Done
    }

    /// The step after a tick of `delta_time` microseconds, and whether the
    /// step's text is up, so that the session is to pause.
    pub open spec fn after_update(self, delta_time: u32) -> (TutorialState, bool) {
        match self {
            TutorialState::PendulumDescRunning { timer } => if timer == 0 {
                (self, true)
            } else {
                (TutorialState::PendulumDescRunning { timer: run_down(timer, delta_time) }, false)
            },
            TutorialState::TargetDesc { timer } => if timer == 0 {
                (self, true)
            } else {
                (TutorialState::TargetDesc { timer: run_down(timer, delta_time) }, false)
            },
            TutorialState::LastText { timer } => if timer == 0 {
                (self, true)
            } else {
                (TutorialState::LastText { timer: run_down(timer, delta_time) }, false)
            },
            _ => (self, false),
        }
    }
}

/// A timer after `delta_time` more microseconds: it stops at zero.
pub open spec fn run_down(timer: u32, delta_time: u32) -> u32 {
    if timer > delta_time {
        (timer - delta_time) as u32
    } else {
        0
    }
}

/// Runs a timer down by `delta_time`.
fn count_down(timer: u32, delta_time: u32) -> (left: u32)
    ensures
        left == run_down(timer, delta_time),
{
    if timer > delta_time {
        timer - delta_time
    } else {
        0
    }
}

/// Tells whether `event` is the release of key `code`, and if so whether
/// shift was held.
fn key_of(event: &Event, code: u32) -> (shift: Option<bool>)
    ensures
        match shift {
            Some(s) => is_key(*event, code, s),
            None => !is_key_any(*event, code),
        },
{
    match event {
        Event::KeyUp { code: c, shift } => if *c == code {
            Some(*shift)
        } else {
            None
        },
        _ => None,
    }
}

impl Tutorial {
    /// The step the tutorial is at.
    pub closed spec fn view(&self) -> TutorialState {
        self.state
    }

    /// A tutorial at its welcome.
    pub fn new() -> (tutorial: Self)
        ensures
            tutorial@ == TutorialState::WelcomeText,
    {
        Self { state: TutorialState::WelcomeText }
    }

    /// The step the tutorial is at.
    pub fn state(&self) -> (state: TutorialState)
        ensures
            state == self@,
    {
        self.state
    }

    /// Ends the tutorial, and notes in `data` that the player has passed it.
    pub fn finish(&mut self, data: &mut StoredData)
        ensures
            final(self)@ == TutorialState::Done,
            *final(data) == (StoredData { passed_tutorial: true, ..*old(data) }),
    {
        self.state = TutorialState::Done;
        data.passed_tutorial = true;
    }

    /// Takes `event`, which pressed `button` if any, and tells whether the
    /// session is to see it. Where the event ends the tutorial, `data` notes
    /// that the player has passed it.
    pub fn on_event(
        &mut self,
        event: &Event,
        button: Option<TutorialButton>,
        data: &mut StoredData,
    ) -> (pass: bool)
        ensures
            final(self)@ == old(self)@.after_event(*event, button).0,
            pass == old(self)@.after_event(*event, button).1,
            *final(data) == if old(self)@.finishes(*event, button) {
                StoredData { passed_tutorial: true, ..*old(data) }
            } else {
                *old(data)
            },
    {
        match self.state {
            TutorialState::WelcomeText => {
                match button {
                    Some(TutorialButton::Skip) => {
                        self.finish(data);
                    },
                    Some(TutorialButton::Next) => {
                        self.state = TutorialState::PendulumDesc;
                    },
                    None => {},
                }
                false
            },
            TutorialState::PendulumDesc => {
                if key_of(event, KEY_SPACE).is_some() {
                    self.state = TutorialState::PendulumDescRunning { timer: TIMEOUT };
                    true
                } else {
                    false
                }
            },
            TutorialState::PendulumDescRunning { timer } => {
                if timer == 0 && key_of(event, KEY_R) == Some(true) {
                    self.state = TutorialState::SetupDesc;
                    true
                } else {
                    false
                }
            },
            TutorialState::SetupDesc => {
                if key_of(event, KEY_SPACE).is_some() {
                    self.state = TutorialState::TargetDesc { timer: TIMEOUT };
                    true
                } else {
                    event.is_mouse() || key_of(event, KEY_R) == Some(true)
                }
            },
            TutorialState::TargetDesc { timer } => {
                if timer == 0 && key_of(event, KEY_R) == Some(false) {
                    self.state = TutorialState::LastText { timer: TIMEOUT };
                    true
                } else {
                    false
                }
            },
            TutorialState::LastText { timer } => {
                if (timer == 0 && event.is_mouse()) || key_of(event, KEY_C).is_some() {
                    true
                } else if timer == 0 && key_of(event, KEY_SPACE).is_some() {
                    self.finish(data);
                    true
                } else {
                    false
                }
            },
            TutorialState::Done => true,
        }
    }

    /// Lets `delta_time` microseconds pass, and tells whether the step's text
    /// is up, so that the session is to pause.
    pub fn on_update(&mut self, delta_time: u32) -> (pause: bool)
        ensures
            final(self)@ == old(self)@.after_update(delta_time).0,
            pause == old(self)@.after_update(delta_time).1,
    {
        match self.state {
            TutorialState::PendulumDescRunning { timer } => {
                if timer == 0 {
                    return true;
                }
                self.state = TutorialState::PendulumDescRunning {
                    timer: count_down(timer, delta_time),
                };
            },
            TutorialState::TargetDesc { timer } => {
                if timer == 0 {
                    return true;
                }
                self.state = TutorialState::TargetDesc { timer: count_down(timer, delta_time) };
            },
            TutorialState::LastText { timer } => {
                if timer == 0 {
                    return true;
                }
                self.state = TutorialState::LastText { timer: count_down(timer, delta_time) };
            },
            _ => {},
        }
        false
    }
}

} // verus!
