use kill_switch::led_handler::AbortScript;
use kill_switch::led_handler::LedHandler;
use kill_switch::led_handler::full_color;
use kill_switch::rgb_led::LedRing;
use kill_switch::rgb_led::Rgb;
use kill_switch::rgb_led::blue;
use kill_switch::rgb_led::full_red;
use kill_switch::rgb_led::green;
use kill_switch::rgb_led::off;
use kill_switch::rgb_led::orange;
use kill_switch::rgb_led::pack_word;
use kill_switch::rgb_led::red;
use kill_switch::rgb_led::single;
use kill_switch::rgb_led::yellow;

fn fresh_handler() -> LedHandler {
    LedHandler::new(LedRing::new())
}

#[test]
fn abort_before_the_first_frame_blanks_and_aborts() {
    let mut h = fresh_handler();
    let mut script = AbortScript::new(vec![true]);
    let r = h.stop_sequence(&mut script);
    assert!(r.is_err());
    assert_eq!(h.frame_count(), 1);
    assert_eq!(h.frame_at(0), &off());
}

#[test]
fn never_aborting_plays_the_whole_choreography() {
    let mut h = fresh_handler();
    let mut script = AbortScript::never();
    let r = h.stop_sequence(&mut script);
    assert!(r.is_ok());
    // 4 colors x 2 sweeps x 16 positions, then 3 blinks of 2 frames each
    assert_eq!(h.frame_count(), 134);
    assert_eq!(h.frame_at(0), &single(0, green()));
    assert_eq!(h.frame_at(15), &single(15, green()));
    assert_eq!(h.frame_at(16), &single(0, green()));
    assert_eq!(h.frame_at(32), &single(0, blue()));
    assert_eq!(h.frame_at(64), &single(0, yellow()));
    assert_eq!(h.frame_at(127), &single(15, orange()));
    assert_eq!(h.frame_at(128), &full_red());
    assert_eq!(h.frame_at(129), &off());
    assert_eq!(h.frame_at(132), &full_red());
    assert_eq!(h.frame_at(133), &off());
}

#[test]
fn abort_during_a_sweep_blanks_at_once() {
    let mut h = fresh_handler();
    // keep going at the opening look and 4 sweep checks, abort on the 5th
    let mut script = AbortScript::new(vec![false, false, false, false, false, true]);
    let r = h.stop_sequence(&mut script);
    assert!(r.is_err());
    assert_eq!(h.frame_count(), 6);
    assert_eq!(h.frame_at(4), &single(4, green()));
    assert_eq!(h.frame_at(5), &off());
}

#[test]
fn abort_during_a_blink_hold_blanks_at_once() {
    let mut h = fresh_handler();
    // all 129 checks up to the blinks keep going, plus 3 hold ticks
    let mut answers = vec![false; 132];
    answers.push(true);
    let mut script = AbortScript::new(answers);
    let r = h.stop_sequence(&mut script);
    assert!(r.is_err());
    assert_eq!(h.frame_count(), 130);
    assert_eq!(h.frame_at(127), &single(15, orange()));
    assert_eq!(h.frame_at(128), &full_red());
    assert_eq!(h.frame_at(129), &off());
}

#[test]
fn a_single_circle_walks_the_ring() {
    let mut h = fresh_handler();
    let mut script = AbortScript::never();
    let r = h.circle(red(), &mut script);
    assert!(r.is_ok());
    assert_eq!(h.frame_count(), 16);
    for i in 0..16 {
        assert_eq!(h.frame_at(i), &single(i, red()));
    }
}

#[test]
fn a_single_blink_fills_then_blanks() {
    let mut h = fresh_handler();
    let mut script = AbortScript::never();
    let r = h.blink(red(), &mut script);
    assert!(r.is_ok());
    assert_eq!(h.frame_count(), 2);
    assert_eq!(h.frame_at(0), &full_color(red()));
    assert_eq!(h.frame_at(1), &off());
}

#[test]
fn frame_constructors_have_the_stated_shape() {
    let f = single(3, red());
    assert_eq!(f.len(), 16);
    for (i, px) in f.iter().enumerate() {
        if i == 3 {
            assert_eq!(*px, Rgb { r: 0xFF, g: 0x00, b: 0x00 });
        } else {
            assert_eq!(*px, Rgb { r: 0, g: 0, b: 0 });
        }
    }
    assert_eq!(full_red().len(), 16);
    assert_eq!(off().len(), 16);
}

#[test]
fn packing_puts_green_red_blue_in_the_top_bytes() {
    assert_eq!(pack_word(Rgb { r: 0x12, g: 0x34, b: 0x56 }), 0x3412_5600);
    assert_eq!(pack_word(Rgb { r: 0xFF, g: 0x00, b: 0x00 }), 0x00FF_0000);
}

#[test]
fn the_ring_logs_frames_and_their_packed_words() {
    let mut ring = LedRing::new();
    ring.write(single(3, red()));
    ring.write(off());
    assert_eq!(ring.frame_count(), 2);
    assert_eq!(ring.frame_at(0), &single(3, red()));
    assert_eq!(ring.words_at(0)[3], 0x00FF_0000);
    assert_eq!(ring.words_at(0)[0], 0);
    assert_eq!(ring.words_at(1)[7], 0);
}
