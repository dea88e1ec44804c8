//! Keyboard HID emitter: turns a logical command into a paired "keys down"
//! and "keys up" report transmission.
//!
//! A keyboard report is eight bytes: the modifier mask, one reserved byte,
//! then six key-code slots. The kill command presses F17 under
//! control+shift, the lock command presses L under the GUI (system) key;
//! both are deployment constants, the OS-side shortcut bindings. Both
//! reports of a pair are always attempted: a lost release report would
//! leave keys held on the host, which is worse than a dropped press.

use vstd::prelude::*;

use crate::hid::HidTransport;
use crate::hid::TransportError;

verus! {

/// Key code sent by the kill command (the HID usage of F17).
pub const KILL_KEYCODE: u8 = 0x6C;

/// Modifier mask sent by the kill command: left control + left shift.
pub const KILL_MODIFIERS: u8 = 0x03;

/// Key code sent by the lock command (the HID usage of the letter L).
pub const LOCK_KEYCODE: u8 = 0x0F;

/// Modifier mask sent by the lock command: the left GUI (system) key.
pub const LOCK_MODIFIERS: u8 = 0x08;

/// The eight wire bytes of a keyboard report: modifier mask, a reserved
/// zero byte, then the six key-code slots.
pub open spec fn keyboard_report(modifiers: u8, keycodes: Seq<u8>) -> Seq<u8> {
    seq![modifiers, 0u8] + keycodes
}

/// The all-zero "keys up" report that ends every pair.
pub open spec fn release_report() -> Seq<u8> {
    keyboard_report(0u8, seq![0u8, 0u8, 0u8, 0u8, 0u8, 0u8])
}

/// The "keys down" report of the kill command.
pub open spec fn kill_report() -> Seq<u8> {
    keyboard_report(KILL_MODIFIERS, seq![KILL_KEYCODE, 0u8, 0u8, 0u8, 0u8, 0u8])
}

/// The "keys down" report of the lock command.
pub open spec fn lock_report() -> Seq<u8> {
    keyboard_report(LOCK_MODIFIERS, seq![LOCK_KEYCODE, 0u8, 0u8, 0u8, 0u8, 0u8])
}

/// The keyboard emitter; it owns the keyboard end of the HID transport.
pub struct KeyboardHandler {
    keyboard_writer: HidTransport,
}

impl KeyboardHandler {
    /// The transport this emitter writes to.
    pub closed spec fn writer(self) -> HidTransport {
        self.keyboard_writer
    }

    pub fn new(keyboard_writer: HidTransport) -> (h: Self)
        ensures
            h.writer() == keyboard_writer,
    {
        KeyboardHandler { keyboard_writer }
    }

    /// Send one press-and-release pair: the given keys and modifiers down,
    /// then the all-zero release. Both writes are attempted whatever the
    /// transport answers; in particular a failed press never swallows the
    /// release.
    pub fn handle_keys(&mut self, key_codes: [u8; 6], modifiers: u8) -> (r: (
        Result<(), TransportError>,
        Result<(), TransportError>,
    ))
        ensures
            final(self).writer().log() == old(self).writer().log().push(
                keyboard_report(modifiers, key_codes@),
            ).push(release_report()),
            r.0 is Ok <==> old(self).writer().outcome(0),
            r.1 is Ok <==> old(self).writer().outcome(1),
            forall|i: int|
                0 <= i ==> #[trigger] final(self).writer().outcome(i) == old(self).writer().outcome(
                    i + 2,
                ),
    {
        let mut down: Vec<u8> = Vec::new();
        down.push(modifiers);
        down.push(0u8);
        let mut i: usize = 0;
        while i < 6
            invariant
                i <= 6,
                down@.len() == 2 + i,
                down@[0] == modifiers,
                down@[1] == 0u8,
                forall|j: int| 0 <= j < i ==> down@[2 + j] == key_codes@[j],
            decreases 6 - i,
        {
            down.push(key_codes[i]);
            i = i + 1;
        }
        assert(down@ =~= keyboard_report(modifiers, key_codes@));
        let first = self.keyboard_writer.send_report(down);

        let mut up: Vec<u8> = Vec::new();
        let mut j: usize = 0;
        while j < 8
            invariant
                j <= 8,
                up@.len() == j,
                forall|k: int| 0 <= k < j ==> up@[k] == 0u8,
            decreases 8 - j,
        {
            up.push(0u8);
            j = j + 1;
        }
        assert(up@ =~= release_report());
        let second = self.keyboard_writer.send_report(up);
        (first, second)
    }

    /// Emit the kill shortcut: F17 with control+shift down, then release.
    pub fn handle_kill(&mut self) -> (r: (
        Result<(), TransportError>,
        Result<(), TransportError>,
    ))
        ensures
            final(self).writer().log() == old(self).writer().log().push(kill_report()).push(
                release_report(),
            ),
            r.0 is Ok <==> old(self).writer().outcome(0),
            r.1 is Ok <==> old(self).writer().outcome(1),
            forall|i: int|
                0 <= i ==> #[trigger] final(self).writer().outcome(i) == old(self).writer().outcome(
                    i + 2,
                ),
    {
        let r = self.handle_keys([KILL_KEYCODE, 0, 0, 0, 0, 0], KILL_MODIFIERS);
        proof {
            assert(seq![KILL_KEYCODE, 0u8, 0u8, 0u8, 0u8, 0u8] =~= [
                KILL_KEYCODE,
                0u8,
                0u8,
                0u8,
                0u8,
                0u8,
            ]@);
        }
        r
    }

    /// Emit the lock shortcut: L with the GUI key down, then release.
    pub fn handle_lock(&mut self) -> (r: (
        Result<(), TransportError>,
        Result<(), TransportError>,
    ))
        ensures
            final(self).writer().log() == old(self).writer().log().push(lock_report()).push(
                release_report(),
            ),
            r.0 is Ok <==> old(self).writer().outcome(0),
            r.1 is Ok <==> old(self).writer().outcome(1),
            forall|i: int|
                0 <= i ==> #[trigger] final(self).writer().outcome(i) == old(self).writer().outcome(
                    i + 2,
                ),
    {
        let r = self.handle_keys([LOCK_KEYCODE, 0, 0, 0, 0, 0], LOCK_MODIFIERS);
        proof {
            assert(seq![LOCK_KEYCODE, 0u8, 0u8, 0u8, 0u8, 0u8] =~= [
                LOCK_KEYCODE,
                0u8,
                0u8,
                0u8,
                0u8,
                0u8,
            ]@);
        }
        r
    }

    /// Take the emitter apart, handing its transport back (the host loop
    /// drains the log into the real endpoint).
    pub fn into_writer(self) -> (t: HidTransport)
        ensures
            t == self.writer(),
    {
        self.keyboard_writer
    }

    /// The transport's log, for inspection.
    pub fn log_len(&self) -> (n: usize)
        ensures
            n == self.writer().log().len(),
    {
        self.keyboard_writer.log_len()
    }

    /// One attempted report, for inspection.
    pub fn log_at(&self, i: usize) -> (r: &Vec<u8>)
        requires
            i < self.writer().log().len(),
        ensures
            r@ == self.writer().log()[i as int],
    {
        self.keyboard_writer.log_at(i)
    }
}

} // verus!
