//! The top of the control core: the event dispatcher that turns button
//! events into shared-flag writes and commands, and the trigger state
//! machine that ties the kill button to the LED countdown and the HID
//! kill command.
//!
//! Holding the kill button arms the countdown; only a button held through
//! the whole choreography fires the kill command (hold to confirm). After
//! firing, the controller waits out a one-second grace period, then blocks
//! until the operator releases the button before re-arming. The host loop
//! drives `TriggerController::step` — once per poll interval while idle or
//! waiting for release, once after the grace period — and owns every
//! delay.

use vstd::prelude::*;

use crate::button_handler::Button;
use crate::button_handler::Event;
use crate::event_bus::Signal;
use crate::hid::TransportError;
use crate::keyboard_handler::KeyboardHandler;
use crate::keyboard_handler::kill_report;
use crate::keyboard_handler::lock_report;
use crate::keyboard_handler::release_report;
use crate::led_handler::AbortScript;
use crate::led_handler::LedHandler;
use crate::led_handler::cut;
use crate::led_handler::stop_frames;
use crate::led_handler::stop_ok;
use crate::led_handler::stop_used;

verus! {

/// How often the host loop re-reads the kill-armed flag while the trigger
/// idles or waits for release, in milliseconds.
pub const POLL_INTERVAL_MILLIS: u64 = 20;

/// The grace period after firing, in milliseconds: time for the host-side
/// shortcut to take effect before the controller watches for release.
pub const POST_FIRE_GRACE_MILLIS: u64 = 1000;

/// A one-shot command for the HID emitter, carried through the command
/// mailbox. A second publish before consumption overwrites the first:
/// commands are idempotent triggers, not queued work.
#[derive(Clone, Copy, PartialEq, Eq, Structural, Debug)]
pub enum Command {
    Kill,
    Lock,
}

/// The process-wide flags, each written by the dispatcher alone and read
/// by one reactive task.
pub struct SharedFlags {
    /// The kill button is currently held (arms the trigger).
    pub kill_button_pressed: bool,
    /// The mouse wiggler is enabled.
    pub enable_wiggle: bool,
}

impl SharedFlags {
    pub fn new() -> (f: SharedFlags)
        ensures
            !f.kill_button_pressed,
            !f.enable_wiggle,
    {
        SharedFlags { kill_button_pressed: false, enable_wiggle: false }
    }
}

/// The flags after one button event is dispatched: the kill button drives
/// the kill-armed flag edge for edge, the wiggle button drives the wiggle
/// flag, the lock button touches no flag.
pub open spec fn dispatch_flags(f: SharedFlags, button: Button, event: Event) -> SharedFlags {
    match (button, event) {
        (Button::Kill, Event::Pressed) => SharedFlags {
            kill_button_pressed: true,
            enable_wiggle: f.enable_wiggle,
        },
        (Button::Kill, Event::Released) => SharedFlags {
            kill_button_pressed: false,
            enable_wiggle: f.enable_wiggle,
        },
        (Button::Wiggle, Event::Pressed) => SharedFlags {
            kill_button_pressed: f.kill_button_pressed,
            enable_wiggle: true,
        },
        (Button::Wiggle, Event::Released) => SharedFlags {
            kill_button_pressed: f.kill_button_pressed,
            enable_wiggle: false,
        },
        (Button::Lock, _) => f,
    }
}

/// Whether one button event publishes the lock command: only a lock-button
/// press does.
pub open spec fn dispatch_publishes_lock(button: Button, event: Event) -> bool {
    button is Lock && event is Pressed
}

/// Dispatch one debounced button event: flag writes and the lock command,
/// nothing else.
pub fn handle_button_signal(
    button: Button,
    event: Event,
    flags: &mut SharedFlags,
    keyboard_command: &mut Signal<Command>,
)
    ensures
        *final(flags) == dispatch_flags(*old(flags), button, event),
        final(keyboard_command).pending() == (if dispatch_publishes_lock(button, event) {
            Some(Command::Lock)
        } else {
            old(keyboard_command).pending()
        }),
{
    match (button, event) {
        (Button::Kill, Event::Pressed) => flags.kill_button_pressed = true,
        (Button::Kill, Event::Released) => flags.kill_button_pressed = false,
        (Button::Lock, Event::Pressed) => keyboard_command.publish(Command::Lock),
        (Button::Lock, Event::Released) => (),
        (Button::Wiggle, Event::Pressed) => flags.enable_wiggle = true,
        (Button::Wiggle, Event::Released) => flags.enable_wiggle = false,
    }
}

/// Emit the HID pair for one command drained from the command mailbox.
pub fn handle_command(handler: &mut KeyboardHandler, command: Command) -> (r: (
    Result<(), TransportError>,
    Result<(), TransportError>,
))
    ensures
        final(handler).writer().log() == old(handler).writer().log().push(
            match command {
                Command::Kill => kill_report(),
                Command::Lock => lock_report(),
            },
        ).push(release_report()),
        r.0 is Ok <==> old(handler).writer().outcome(0),
        r.1 is Ok <==> old(handler).writer().outcome(1),
{
    match command {
        Command::Kill => handler.handle_kill(),
        Command::Lock => handler.handle_lock(),
    }
}

/// Where the trigger is in its cycle.
#[derive(Clone, Copy, PartialEq, Eq, Structural, Debug)]
pub enum TriggerState {
    /// Watching the kill-armed flag.
    Idle,
    /// The kill command was just fired; the host loop waits out a
    /// one-second grace period before the next step.
    PostFire,
    /// Blocking until the operator releases the kill button.
    WaitRelease,
}

/// The trigger state machine.
pub struct TriggerController {
    state: TriggerState,
}

impl TriggerController {
    pub closed spec fn state(self) -> TriggerState {
        self.state
    }

    pub fn new() -> (c: TriggerController)
        ensures
            c.state() is Idle,
    {
        TriggerController { state: TriggerState::Idle }
    }

    /// The current state, for the host loop to pick its next delay.
    pub fn current_state(&self) -> (s: TriggerState)
        ensures
            s == self.state(),
    {
        self.state
    }

    /// One step of the trigger cycle, driven by the host loop with the
    /// kill-armed flag as currently read.
    ///
    /// Idle and armed, it plays the countdown, polling the abort script —
    /// each answer one sample of "the button is no longer held". Only a
    /// run on which every answer said keep going publishes the kill
    /// command (exactly one publish: the mailbox slot); an aborted run
    /// publishes nothing and returns to idle. After firing, one step ends
    /// the grace period, and further steps leave everything untouched
    /// until the flag reads false.
    pub fn step(
        &mut self,
        kill_pressed: bool,
        led: &mut LedHandler,
        abort: &mut AbortScript,
        commands: &mut Signal<Command>,
    )
        requires
            old(led).wf(),
        ensures
            final(led).wf(),
            (old(self).state() is Idle && !kill_pressed) ==> {
                &&& final(self).state() is Idle
                &&& final(led).frames() == old(led).frames()
                &&& final(commands).pending() == old(commands).pending()
                &&& final(abort).future() == old(abort).future()
            },
            (old(self).state() is Idle && kill_pressed) ==> {
                &&& final(led).frames() == old(led).frames() + stop_frames(old(abort).future())
                &&& final(abort).future() == cut(
                    old(abort).future(),
                    stop_used(old(abort).future()),
                )
                &&& stop_ok(old(abort).future()) ==> final(self).state() is PostFire
                    && final(commands).pending() == Some(Command::Kill)
                &&& !stop_ok(old(abort).future()) ==> final(self).state() is Idle
                    && final(commands).pending() == old(commands).pending()
            },
            old(self).state() is PostFire ==> {
                &&& final(self).state() is WaitRelease
                &&& final(led).frames() == old(led).frames()
                &&& final(commands).pending() == old(commands).pending()
                &&& final(abort).future() == old(abort).future()
            },
            (old(self).state() is WaitRelease && kill_pressed) ==> {
                &&& final(self).state() is WaitRelease
                &&& final(led).frames() == old(led).frames()
                &&& final(commands).pending() == old(commands).pending()
                &&& final(abort).future() == old(abort).future()
            },
            (old(self).state() is WaitRelease && !kill_pressed) ==> {
                &&& final(self).state() is Idle
                &&& final(led).frames() == old(led).frames()
                &&& final(commands).pending() == old(commands).pending()
                &&& final(abort).future() == old(abort).future()
            },
    {
        match self.state {
            TriggerState::Idle => {
                if kill_pressed {
                    let res = led.stop_sequence(abort);
                    if res.is_ok() {
                        commands.publish(Command::Kill);
                        self.state = TriggerState::PostFire;
                        // the host loop sleeps the one-second grace period
                    }
                }
                // otherwise the host loop sleeps one poll interval
            },
            TriggerState::PostFire => {
                self.state = TriggerState::WaitRelease;
            },
            TriggerState::WaitRelease => {
                if !kill_pressed {
                    self.state = TriggerState::Idle;
                }
                // while held, the host loop sleeps one poll interval
            },
        }
    }
}

} // verus!
