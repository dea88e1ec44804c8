use kill_switch::button_handler::Button;
use kill_switch::button_handler::ButtonHandler;
use kill_switch::button_handler::Event;
use kill_switch::button_handler::Wiring;

/// A trace of line levels built from (level, sample count) runs.
fn trace(segments: &[(bool, usize)]) -> Vec<bool> {
    let mut levels = Vec::new();
    for &(level, n) in segments {
        for _ in 0..n {
            levels.push(level);
        }
    }
    levels
}

#[test]
fn bounce_shorter_than_settle_emits_nothing() {
    // normally open: idle high, pressed low; a 5 ms disturbance
    let mut h = ButtonHandler::new(Button::Kill, Wiring::NormallyOpen);
    let levels = trace(&[(false, 5), (true, 30)]);
    let events = h.run_trace(&levels);
    assert!(events.is_empty());
}

#[test]
fn press_of_exactly_the_settle_window_is_invisible() {
    // the line is back at idle on the sample that closes the window
    let mut h = ButtonHandler::new(Button::Kill, Wiring::NormallyOpen);
    let levels = trace(&[(false, 10), (true, 10)]);
    let events = h.run_trace(&levels);
    assert!(events.is_empty());
}

#[test]
fn press_longer_than_settle_emits_pressed_then_released() {
    let mut h = ButtonHandler::new(Button::Kill, Wiring::NormallyOpen);
    let levels = trace(&[(true, 3), (false, 11), (true, 5)]);
    let events = h.run_trace(&levels);
    assert_eq!(events, vec![Event::Pressed, Event::Released]);
}

#[test]
fn normally_closed_wiring_presses_on_high() {
    let mut h = ButtonHandler::new(Button::Lock, Wiring::NormallyClosed);
    let levels = trace(&[(false, 3), (true, 15), (false, 3)]);
    let events = h.run_trace(&levels);
    assert_eq!(events, vec![Event::Pressed, Event::Released]);
}

#[test]
fn two_presses_alternate_pressed_released() {
    let mut h = ButtonHandler::new(Button::Wiggle, Wiring::NormallyOpen);
    let levels = trace(&[(false, 15), (true, 5), (false, 15), (true, 5)]);
    let events = h.run_trace(&levels);
    assert_eq!(
        events,
        vec![Event::Pressed, Event::Released, Event::Pressed, Event::Released]
    );
}

#[test]
fn bounce_inside_the_window_is_absorbed() {
    // jitter during the settle window, then held well past it: one press
    let mut h = ButtonHandler::new(Button::Kill, Wiring::NormallyOpen);
    let levels = trace(&[(false, 2), (true, 2), (false, 2), (true, 2), (false, 20), (true, 5)]);
    let events = h.run_trace(&levels);
    assert_eq!(events, vec![Event::Pressed, Event::Released]);
}

#[test]
fn held_forever_emits_only_pressed() {
    let mut h = ButtonHandler::new(Button::Kill, Wiring::NormallyOpen);
    let levels = trace(&[(false, 40)]);
    let events = h.run_trace(&levels);
    assert_eq!(events, vec![Event::Pressed]);
}

#[test]
fn role_is_kept() {
    let h = ButtonHandler::new(Button::Lock, Wiring::NormallyOpen);
    assert_eq!(h.role(), Button::Lock);
}
