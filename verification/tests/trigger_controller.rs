use kill_switch::button_handler::Button;
use kill_switch::button_handler::Event;
use kill_switch::event_bus::Signal;
use kill_switch::hid::HidTransport;
use kill_switch::keyboard_handler::KeyboardHandler;
use kill_switch::led_handler::AbortScript;
use kill_switch::led_handler::LedHandler;
use kill_switch::rgb_led::LedRing;
use kill_switch::rgb_led::off;
use kill_switch::trigger::Command;
use kill_switch::trigger::SharedFlags;
use kill_switch::trigger::TriggerController;
use kill_switch::trigger::TriggerState;
use kill_switch::trigger::handle_button_signal;
use kill_switch::trigger::handle_command;

fn fresh_led() -> LedHandler {
    LedHandler::new(LedRing::new())
}

#[test]
fn holding_through_the_whole_countdown_fires_exactly_one_kill() {
    let mut ctl = TriggerController::new();
    let mut led = fresh_led();
    let mut commands: Signal<Command> = Signal::new();
    let mut script = AbortScript::never();
    ctl.step(true, &mut led, &mut script, &mut commands);
    assert_eq!(ctl.current_state(), TriggerState::PostFire);
    assert_eq!(led.frame_count(), 134);
    assert_eq!(commands.take(), Some(Command::Kill));
    assert_eq!(commands.take(), None);
}

#[test]
fn releasing_before_completion_publishes_nothing_and_returns_to_idle() {
    let mut ctl = TriggerController::new();
    let mut led = fresh_led();
    let mut commands: Signal<Command> = Signal::new();
    // keep going through the opening look and 19 sweep checks, then abort
    let mut answers = vec![false; 20];
    answers.push(true);
    let mut script = AbortScript::new(answers);
    ctl.step(true, &mut led, &mut script, &mut commands);
    assert_eq!(ctl.current_state(), TriggerState::Idle);
    assert_eq!(commands.take(), None);
    // the aborted countdown still blanked the ring on its way out
    let last = led.frame_count() - 1;
    assert_eq!(led.frame_at(last), &off());
}

#[test]
fn an_unarmed_idle_step_does_nothing() {
    let mut ctl = TriggerController::new();
    let mut led = fresh_led();
    let mut commands: Signal<Command> = Signal::new();
    let mut script = AbortScript::never();
    ctl.step(false, &mut led, &mut script, &mut commands);
    assert_eq!(ctl.current_state(), TriggerState::Idle);
    assert_eq!(led.frame_count(), 0);
    assert_eq!(commands.take(), None);
}

#[test]
fn end_to_end_kill_press_hold_fire_wait_for_release() {
    let mut flags = SharedFlags::new();
    let mut commands: Signal<Command> = Signal::new();
    let mut ctl = TriggerController::new();
    let mut led = fresh_led();

    // the kill button's Pressed event arms the trigger
    handle_button_signal(Button::Kill, Event::Pressed, &mut flags, &mut commands);
    assert!(flags.kill_button_pressed);
    assert_eq!(commands.take(), None);

    // held through the whole choreography: exactly one Kill published
    let mut script = AbortScript::never();
    ctl.step(flags.kill_button_pressed, &mut led, &mut script, &mut commands);
    assert_eq!(ctl.current_state(), TriggerState::PostFire);
    assert_eq!(led.frame_count(), 134);

    // the emitter drains the one command and sends the HID pair
    let mut kh = KeyboardHandler::new(HidTransport::flawless());
    let cmd = commands.take().expect("one kill command pending");
    let _ = handle_command(&mut kh, cmd);
    assert_eq!(kh.log_len(), 2);
    assert_eq!(kh.log_at(0), &vec![0x03u8, 0x00, 0x6C, 0x00, 0x00, 0x00, 0x00, 0x00]);

    // one simulated second later the controller watches for release
    ctl.step(flags.kill_button_pressed, &mut led, &mut script, &mut commands);
    assert_eq!(ctl.current_state(), TriggerState::WaitRelease);

    // further time passing changes nothing while the button stays held
    for _ in 0..5 {
        ctl.step(flags.kill_button_pressed, &mut led, &mut script, &mut commands);
        assert_eq!(ctl.current_state(), TriggerState::WaitRelease);
        assert_eq!(led.frame_count(), 134);
        assert_eq!(commands.take(), None);
    }

    // the Released event disarms, and the controller re-arms
    handle_button_signal(Button::Kill, Event::Released, &mut flags, &mut commands);
    assert!(!flags.kill_button_pressed);
    ctl.step(flags.kill_button_pressed, &mut led, &mut script, &mut commands);
    assert_eq!(ctl.current_state(), TriggerState::Idle);
}

#[test]
fn a_lock_press_publishes_the_lock_command_and_nothing_else() {
    let mut flags = SharedFlags::new();
    let mut commands: Signal<Command> = Signal::new();
    handle_button_signal(Button::Lock, Event::Pressed, &mut flags, &mut commands);
    assert!(!flags.kill_button_pressed);
    assert!(!flags.enable_wiggle);
    assert_eq!(commands.take(), Some(Command::Lock));

    handle_button_signal(Button::Lock, Event::Released, &mut flags, &mut commands);
    assert_eq!(commands.take(), None);

    let mut kh = KeyboardHandler::new(HidTransport::flawless());
    let _ = handle_command(&mut kh, Command::Lock);
    assert_eq!(kh.log_len(), 2);
    assert_eq!(kh.log_at(0), &vec![0x08u8, 0x00, 0x0F, 0x00, 0x00, 0x00, 0x00, 0x00]);
}

#[test]
fn the_wiggle_button_drives_the_wiggle_flag_edge_for_edge() {
    let mut flags = SharedFlags::new();
    let mut commands: Signal<Command> = Signal::new();
    handle_button_signal(Button::Wiggle, Event::Pressed, &mut flags, &mut commands);
    assert!(flags.enable_wiggle);
    assert_eq!(commands.take(), None);
    handle_button_signal(Button::Wiggle, Event::Released, &mut flags, &mut commands);
    assert!(!flags.enable_wiggle);
}
