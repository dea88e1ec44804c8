use kill_switch::hid::HidTransport;
use kill_switch::mouse_handler::MouseHandler;

#[test]
fn enabled_ticks_alternate_the_y_displacement() {
    let mut m = MouseHandler::new(HidTransport::flawless());
    assert_eq!(m.displacement(), 5);
    m.run_ticks(&vec![true; 6]);
    assert_eq!(m.log_len(), 6);
    // -5 first, then +5, strictly alternating
    assert_eq!(m.log_at(0), &vec![0x00u8, 0x00, 0xFB, 0x00, 0x00]);
    assert_eq!(m.log_at(1), &vec![0x00u8, 0x00, 0x05, 0x00, 0x00]);
    assert_eq!(m.log_at(2), &vec![0x00u8, 0x00, 0xFB, 0x00, 0x00]);
    assert_eq!(m.log_at(5), &vec![0x00u8, 0x00, 0x05, 0x00, 0x00]);
    assert_eq!(m.displacement(), 5);
}

#[test]
fn disabled_ticks_send_nothing_and_keep_the_displacement() {
    let mut m = MouseHandler::new(HidTransport::flawless());
    let _ = m.update_position();
    assert_eq!(m.displacement(), -5);
    m.run_ticks(&vec![false; 7]);
    assert_eq!(m.log_len(), 1);
    assert_eq!(m.displacement(), -5);
    // re-enabling resumes from the held displacement, not from a reset
    m.tick(true);
    assert_eq!(m.log_len(), 2);
    assert_eq!(m.log_at(1), &vec![0x00u8, 0x00, 0x05, 0x00, 0x00]);
}

#[test]
fn update_position_negates_and_reports_pure_y() {
    let mut m = MouseHandler::new(HidTransport::flawless());
    let sent = m.update_position();
    assert!(sent);
    assert_eq!(m.displacement(), -5);
    assert_eq!(m.log_at(0), &vec![0x00u8, 0x00, 0xFB, 0x00, 0x00]);
}

#[test]
fn a_failed_write_is_reported_but_changes_nothing() {
    let mut m = MouseHandler::new(HidTransport::new(vec![false]));
    let sent = m.update_position();
    assert!(!sent);
    // the attempt is still logged and the displacement still advanced
    assert_eq!(m.log_len(), 1);
    assert_eq!(m.displacement(), -5);
}

#[test]
fn mixed_ticks_only_advance_while_enabled() {
    let mut m = MouseHandler::new(HidTransport::flawless());
    m.run_ticks(&vec![true, false, false, true, false]);
    assert_eq!(m.log_len(), 2);
    assert_eq!(m.log_at(0), &vec![0x00u8, 0x00, 0xFB, 0x00, 0x00]);
    assert_eq!(m.log_at(1), &vec![0x00u8, 0x00, 0x05, 0x00, 0x00]);
    assert_eq!(m.displacement(), 5);
}
