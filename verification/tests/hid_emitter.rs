use kill_switch::hid::HidTransport;
use kill_switch::hid::TransportError;
use kill_switch::keyboard_handler::KeyboardHandler;

#[test]
fn kill_always_issues_down_then_release_even_if_the_first_write_fails() {
    let t = HidTransport::new(vec![false]);
    let mut kh = KeyboardHandler::new(t);
    let (first, second) = kh.handle_kill();
    assert_eq!(first, Err(TransportError::Disabled));
    assert!(second.is_ok());
    assert_eq!(kh.log_len(), 2);
    // F17 under left control + left shift, then the all-zero release
    assert_eq!(kh.log_at(0), &vec![0x03u8, 0x00, 0x6C, 0x00, 0x00, 0x00, 0x00, 0x00]);
    assert_eq!(kh.log_at(1), &vec![0u8; 8]);
}

#[test]
fn both_writes_failing_still_attempts_both() {
    let t = HidTransport::new(vec![false, false]);
    let mut kh = KeyboardHandler::new(t);
    let (first, second) = kh.handle_kill();
    assert!(first.is_err());
    assert!(second.is_err());
    assert_eq!(kh.log_len(), 2);
}

#[test]
fn lock_presses_l_under_the_gui_key() {
    let t = HidTransport::flawless();
    let mut kh = KeyboardHandler::new(t);
    let (first, second) = kh.handle_lock();
    assert!(first.is_ok());
    assert!(second.is_ok());
    assert_eq!(kh.log_len(), 2);
    assert_eq!(kh.log_at(0), &vec![0x08u8, 0x00, 0x0F, 0x00, 0x00, 0x00, 0x00, 0x00]);
    assert_eq!(kh.log_at(1), &vec![0u8; 8]);
}

#[test]
fn handle_keys_lays_out_modifier_reserved_then_six_slots() {
    let t = HidTransport::flawless();
    let mut kh = KeyboardHandler::new(t);
    let _ = kh.handle_keys([1, 2, 3, 4, 5, 6], 0x40);
    assert_eq!(kh.log_at(0), &vec![0x40u8, 0x00, 1, 2, 3, 4, 5, 6]);
}

#[test]
fn consecutive_pairs_keep_their_order() {
    let t = HidTransport::new(vec![true, false, true, true]);
    let mut kh = KeyboardHandler::new(t);
    let (_, second) = kh.handle_kill();
    assert!(second.is_err());
    let (third, fourth) = kh.handle_lock();
    assert!(third.is_ok());
    assert!(fourth.is_ok());
    assert_eq!(kh.log_len(), 4);
    assert_eq!(kh.log_at(2), &vec![0x08u8, 0x00, 0x0F, 0x00, 0x00, 0x00, 0x00, 0x00]);
}
