//! The palette and the shortcut key codes are deployment constants taken
//! from the crates the device firmware uses; these tests hold the
//! library's values to them.

use smart_leds::colors;
use usbd_hid::descriptor::KeyboardUsage;

use kill_switch::keyboard_handler::KILL_KEYCODE;
use kill_switch::keyboard_handler::LOCK_KEYCODE;
use kill_switch::rgb_led::blue;
use kill_switch::rgb_led::green;
use kill_switch::rgb_led::off_color;
use kill_switch::rgb_led::orange;
use kill_switch::rgb_led::red;
use kill_switch::rgb_led::yellow;

fn rgb_triple(c: kill_switch::rgb_led::Rgb) -> (u8, u8, u8) {
    (c.r, c.g, c.b)
}

fn smart_triple(c: smart_leds::RGB8) -> (u8, u8, u8) {
    (c.r, c.g, c.b)
}

#[test]
fn the_palette_matches_the_named_colors() {
    assert_eq!(rgb_triple(red()), smart_triple(colors::RED));
    assert_eq!(rgb_triple(green()), smart_triple(colors::GREEN));
    assert_eq!(rgb_triple(blue()), smart_triple(colors::BLUE));
    assert_eq!(rgb_triple(yellow()), smart_triple(colors::YELLOW));
    assert_eq!(rgb_triple(orange()), smart_triple(colors::ORANGE));
    assert_eq!(rgb_triple(off_color()), smart_triple(smart_leds::RGB8::default()));
}

#[test]
fn the_shortcut_key_codes_match_the_hid_usage_table() {
    assert_eq!(KILL_KEYCODE, KeyboardUsage::KeyboardF17 as u8);
    assert_eq!(LOCK_KEYCODE, KeyboardUsage::KeyboardLl as u8);
}

#[test]
fn the_report_structs_carry_the_same_fields() {
    // the wire layouts the library states mirror the report structs the
    // firmware serializes
    let kb = usbd_hid::descriptor::KeyboardReport {
        modifier: 0x03,
        reserved: 0,
        leds: 0,
        keycodes: [KILL_KEYCODE, 0, 0, 0, 0, 0],
    };
    assert_eq!(kb.modifier, 0x03);
    assert_eq!(kb.keycodes[0], KILL_KEYCODE);
    let ms = usbd_hid::descriptor::MouseReport { buttons: 0, x: 0, y: -5, wheel: 0, pan: 0 };
    assert_eq!(ms.y as u8, 0xFB);
}
