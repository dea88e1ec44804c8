//! Mouse wiggler: on a fixed period, while the wiggle flag is enabled,
//! emits a relative mouse movement whose Y displacement is the negation of
//! the previous one — a triangle-wave jitter that keeps the host awake.
//!
//! While the flag is disabled the period still elapses but nothing is sent
//! and the stored displacement does not advance, so re-enabling resumes
//! from whatever displacement was last held.

use vstd::prelude::*;

use crate::hid::HidTransport;

verus! {

/// The wiggle period, in milliseconds: the host loop samples the wiggle
/// flag and calls `tick` once per period.
pub const WIGGLE_PERIOD_MILLIS: u64 = 500;

/// A relative mouse report, as the five wire bytes carry it: buttons,
/// X and Y displacement, wheel and pan.
#[derive(Clone, Copy, PartialEq, Eq, Structural, Debug)]
pub struct MouseReport {
    pub buttons: u8,
    pub x: i8,
    pub y: i8,
    pub wheel: i8,
    pub pan: i8,
}

/// The five wire bytes of a mouse report.
pub open spec fn mouse_report_bytes(r: MouseReport) -> Seq<u8> {
    seq![r.buttons, r.x as u8, r.y as u8, r.wheel as u8, r.pan as u8]
}

/// The report a wiggle tick sends: pure Y displacement, nothing else.
pub open spec fn wiggle_report(y: i8) -> MouseReport {
    MouseReport { buttons: 0u8, x: 0i8, y: y, wheel: 0i8, pan: 0i8 }
}

/// One wiggle period: the stored displacement and what is emitted. While
/// enabled the displacement flips and is sent; while disabled nothing
/// moves and nothing is sent.
pub open spec fn wiggle_step(d: int, enabled: bool) -> (int, Option<int>) {
    if enabled {
        (-d, Some(-d))
    } else {
        (d, None)
    }
}

/// The displacement after a run of wiggle periods, and every Y value
/// emitted along the way.
pub open spec fn wiggle_run(d: int, enables: Seq<bool>) -> (int, Seq<int>)
    decreases enables.len(),
{
    if enables.len() == 0 {
        (d, Seq::<int>::empty())
    } else {
        let head = wiggle_step(d, enables[0]);
        let rest = wiggle_run(head.0, enables.skip(1));
        (
            rest.0,
            (match head.1 {
                Some(y) => seq![y],
                None => Seq::<int>::empty(),
            }) + rest.1,
        )
    }
}

/// The mouse emitter: the mouse end of the HID transport plus the stored
/// displacement.
pub struct MouseHandler {
    mouse_writer: HidTransport,
    current_move: i8,
}

impl MouseHandler {
    /// The transport this emitter writes to.
    pub closed spec fn writer(self) -> HidTransport {
        self.mouse_writer
    }

    /// The stored Y displacement.
    pub closed spec fn current_move(self) -> int {
        self.current_move as int
    }

    /// The stored displacement always admits negation (it is only ever
    /// five or minus five, but all the contracts need is that flipping it
    /// stays in range).
    pub closed spec fn wf(self) -> bool {
        self.current_move != i8::MIN
    }

    pub fn new(mouse_writer: HidTransport) -> (h: Self)
        ensures
            h.wf(),
            h.writer() == mouse_writer,
            h.current_move() == 5,
    {
        MouseHandler { mouse_writer, current_move: 5 }
    }

    /// Flip the stored displacement and send it as a pure Y movement. The
    /// write's outcome is returned to the caller but changes nothing: the
    /// next natural report is the retry.
    pub fn update_position(&mut self) -> (sent: bool)
        requires
            old(self).wf(),
        ensures
            final(self).wf(),
            final(self).current_move() == -old(self).current_move(),
            final(self).writer().log() == old(self).writer().log().push(
                mouse_report_bytes(wiggle_report(final(self).current_move() as i8)),
            ),
            sent <==> old(self).writer().outcome(0),
            forall|i: int|
                0 <= i ==> #[trigger] final(self).writer().outcome(i) == old(self).writer().outcome(
                    i + 1,
                ),
    {
        self.current_move = -self.current_move;

        let mut report: Vec<u8> = Vec::new();
        report.push(0u8);
        report.push(0i8 as u8);
        report.push(self.current_move as u8);
        report.push(0i8 as u8);
        report.push(0i8 as u8);
        assert(report@ =~= mouse_report_bytes(wiggle_report(self.current_move)));
        let r = self.mouse_writer.send_report(report);
        r.is_ok()
    }

    /// The stored displacement, for inspection.
    pub fn displacement(&self) -> (d: i8)
        ensures
            d as int == self.current_move(),
    {
        self.current_move
    }

    /// How many reports have been handed to the transport.
    pub fn log_len(&self) -> (n: usize)
        ensures
            n == self.writer().log().len(),
    {
        self.mouse_writer.log_len()
    }

    /// One attempted report, for inspection.
    pub fn log_at(&self, i: usize) -> (r: &Vec<u8>)
        requires
            i < self.writer().log().len(),
        ensures
            r@ == self.writer().log()[i as int],
    {
        self.mouse_writer.log_at(i)
    }

    /// One wiggle period with the flag as sampled: emit while enabled,
    /// stay silent and inert while disabled.
    pub fn tick(&mut self, enabled: bool)
        requires
            old(self).wf(),
        ensures
            final(self).wf(),
            final(self).current_move() == wiggle_step(old(self).current_move(), enabled).0,
            final(self).writer().log() == (match wiggle_step(
                old(self).current_move(),
                enabled,
            ).1 {
                Some(y) => old(self).writer().log().push(
                    mouse_report_bytes(wiggle_report(y as i8)),
                ),
                None => old(self).writer().log(),
            }),
    {
        if enabled {
            let _ = self.update_position();
        }
    }

    /// A run of wiggle periods, one flag sample per period.
    pub fn run_ticks(&mut self, enables: &Vec<bool>)
        requires
            old(self).wf(),
        ensures
            final(self).wf(),
            final(self).current_move() == wiggle_run(old(self).current_move(), enables@).0,
            final(self).writer().log() == old(self).writer().log() + wiggle_run(
                old(self).current_move(),
                enables@,
            ).1.map_values(|y: int| mouse_report_bytes(wiggle_report(y as i8))),
    {
        let ghost d0 = self.current_move();
        let ghost log0 = self.writer().log();
        let ghost f = |y: int| mouse_report_bytes(wiggle_report(y as i8));
        proof {
            assert(enables@.take(0) =~= Seq::<bool>::empty());
            assert(log0 + wiggle_run(d0, enables@.take(0)).1.map_values(f) =~= log0);
        }
        let mut i: usize = 0;
        while i < enables.len()
            invariant
                self.wf(),
                i <= enables@.len(),
                self.current_move() == wiggle_run(d0, enables@.take(i as int)).0,
                self.writer().log() == log0 + wiggle_run(d0, enables@.take(i as int)).1.map_values(
                    f,
                ),
                f == (|y: int| mouse_report_bytes(wiggle_report(y as i8))),
            decreases enables@.len() - i,
        {
            let ghost pre_d = self.current_move();
            proof {
                lemma_wiggle_run_snoc(d0, enables@, i as int);
            }
            self.tick(enables[i]);
            proof {
                let a = wiggle_run(d0, enables@.take(i as int)).1;
                let b = wiggle_run(d0, enables@.take(i as int + 1)).1;
                match wiggle_step(pre_d, enables@[i as int]).1 {
                    Some(y) => {
                        assert(b =~= a.push(y));
                        assert(b.map_values(f) =~= a.map_values(f).push(f(y)));
                        assert(log0 + b.map_values(f) =~= (log0 + a.map_values(f)).push(f(y)));
                    },
                    None => {
                        assert(b =~= a);
                    },
                }
            }
            i = i + 1;
        }
        proof {
            assert(enables@.take(enables@.len() as int) =~= enables@);
        }
    }
}

/// Extending the prefix run by one period appends that period's output.
proof fn lemma_wiggle_run_snoc(d: int, enables: Seq<bool>, i: int)
    requires
        0 <= i < enables.len(),
    ensures
        wiggle_run(d, enables.take(i + 1)).1 == wiggle_run(d, enables.take(i)).1 + (match wiggle_step(
            wiggle_run(d, enables.take(i)).0,
            enables[i],
        ).1 {
            Some(y) => seq![y],
            None => Seq::<int>::empty(),
        }),
        wiggle_run(d, enables.take(i + 1)).0 == wiggle_step(
            wiggle_run(d, enables.take(i)).0,
            enables[i],
        ).0,
    decreases i,
{
    if i == 0 {
        let t1 = enables.take(1);
        let head = wiggle_step(d, enables[0]);
        let emitted = (match head.1 {
            Some(y) => seq![y],
            None => Seq::<int>::empty(),
        });
        assert(t1.len() == 1);
        assert(t1[0] == enables[0]);
        assert(t1.skip(1) =~= Seq::<bool>::empty());
        assert(wiggle_run(head.0, t1.skip(1)) == (head.0, Seq::<int>::empty()));
        assert(wiggle_run(d, t1).1 == emitted + Seq::<int>::empty());
        assert(wiggle_run(d, t1).0 == head.0);
        assert(enables.take(0) =~= Seq::<bool>::empty());
        assert(wiggle_run(d, enables.take(0)) == (d, Seq::<int>::empty()));
        assert(Seq::<int>::empty() + emitted =~= emitted + Seq::<int>::empty());
    } else {
        let e2 = enables.skip(1);
        let d2 = wiggle_step(d, enables[0]).0;
        lemma_wiggle_run_snoc(d2, e2, i - 1);
        assert(enables.take(i + 1)[0] == enables[0]);
        assert(enables.take(i + 1).skip(1) =~= e2.take(i));
        assert(enables.take(i).skip(1) =~= e2.take(i - 1));
        assert(enables.take(i)[0] == enables[0]);
        assert(e2[i - 1] == enables[i]);
        assert(wiggle_run(d, enables.take(i + 1)).1 == (match wiggle_step(d, enables[0]).1 {
            Some(y) => seq![y],
            None => Seq::<int>::empty(),
        }) + wiggle_run(d2, e2.take(i)).1);
        assert((match wiggle_step(d, enables[0]).1 {
            Some(y) => seq![y],
            None => Seq::<int>::empty(),
        }) + (wiggle_run(d2, e2.take(i - 1)).1 + (match wiggle_step(
            wiggle_run(d2, e2.take(i - 1)).0,
            e2[i - 1],
        ).1 {
            Some(y) => seq![y],
            None => Seq::<int>::empty(),
        })) =~= ((match wiggle_step(d, enables[0]).1 {
            Some(y) => seq![y],
            None => Seq::<int>::empty(),
        }) + wiggle_run(d2, e2.take(i - 1)).1) + (match wiggle_step(
            wiggle_run(d2, e2.take(i - 1)).0,
            e2[i - 1],
        ).1 {
            Some(y) => seq![y],
            None => Seq::<int>::empty(),
        }));
    }
}

/// With the flag held enabled for a whole run, one report goes out every
/// period and the Y values strictly alternate, starting from the negation
/// of the stored displacement.
pub proof fn lemma_wiggle_enabled_alternates(d: int, enables: Seq<bool>)
    requires
        forall|i: int| 0 <= i < enables.len() ==> enables[i],
    ensures
        wiggle_run(d, enables).1.len() == enables.len(),
        forall|i: int|
            0 <= i < enables.len() ==> wiggle_run(d, enables).1[i] == (if i % 2 == 0 {
                -d
            } else {
                d
            }),
        wiggle_run(d, enables).0 == (if enables.len() % 2 == 0 {
            d
        } else {
            -d
        }),
    decreases enables.len(),
{
    if enables.len() > 0 {
        lemma_wiggle_enabled_alternates(-d, enables.skip(1));
        let rest = wiggle_run(-d, enables.skip(1));
        assert(wiggle_run(d, enables).1 == seq![-d] + rest.1);
        assert forall|i: int| 0 <= i < enables.len() implies wiggle_run(d, enables).1[i] == (if i % 2
            == 0 {
            -d
        } else {
            d
        }) by {
            if i > 0 {
                assert(wiggle_run(d, enables).1[i] == rest.1[i - 1]);
                assert((i - 1) % 2 == (if i % 2 == 0 {
                    1int
                } else {
                    0int
                }));
            }
        }
        assert((enables.len() - 1) % 2 == (if enables.len() % 2 == 0 {
            1int
        } else {
            0int
        }));
    }
}

/// With the flag held disabled, nothing is sent and the stored
/// displacement is exactly what it was, so a later re-enable resumes from
/// it.
pub proof fn lemma_wiggle_disabled_inert(d: int, enables: Seq<bool>)
    requires
        forall|i: int| 0 <= i < enables.len() ==> !enables[i],
    ensures
        wiggle_run(d, enables).1 == Seq::<int>::empty(),
        wiggle_run(d, enables).0 == d,
    decreases enables.len(),
{
    if enables.len() > 0 {
        lemma_wiggle_disabled_inert(d, enables.skip(1));
        assert(wiggle_run(d, enables).1 =~= Seq::<int>::empty());
    }
}

} // verus!
