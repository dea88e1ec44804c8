use kill_switch::event_bus::Signal;

#[test]
fn publish_twice_before_take_delivers_only_the_newest() {
    let mut bus: Signal<u32> = Signal::new();
    bus.publish(1);
    bus.publish(2);
    assert_eq!(bus.take(), Some(2));
    assert_eq!(bus.take(), None);
}

#[test]
fn publish_after_a_take_delivers_the_newest_subsequent_value() {
    let mut bus: Signal<u32> = Signal::new();
    bus.publish(1);
    assert_eq!(bus.take(), Some(1));
    bus.publish(3);
    assert_eq!(bus.take(), Some(3));
}

#[test]
fn a_fresh_mailbox_is_empty() {
    let mut bus: Signal<&str> = Signal::new();
    assert_eq!(bus.take(), None);
}

#[test]
fn values_move_through_unchanged() {
    let mut bus: Signal<(u8, bool)> = Signal::new();
    bus.publish((7, true));
    assert_eq!(bus.take(), Some((7, true)));
}
