//! The LED choreography sequencer: plays the fixed arming countdown on the
//! ring, polling an abort condition after every animation tick so a
//! released button cuts it short at once.
//!
//! The choreography: for each color of the palette (green, blue, yellow,
//! orange), twice, sweep a single lit pixel around the ring one position
//! per tick; then three times fill the whole ring red, hold ten ticks,
//! blank it, hold ten ticks. On the first abort answer the ring is blanked
//! and the run reports itself aborted.
//!
//! The abort condition is polled, not pushed: the sequencer takes a script
//! of abort answers — in the device each answer is one sample of "is the
//! kill button no longer held?" taken by the host loop between ticks — and
//! is verified against every script. The tick delays themselves pass in
//! the host loop.

use vstd::prelude::*;

use crate::rgb_led::LedRing;
use crate::rgb_led::RING_SIZE;
use crate::rgb_led::Rgb;
use crate::rgb_led::blue;
use crate::rgb_led::full_frame;
use crate::rgb_led::green;
use crate::rgb_led::off_frame;
use crate::rgb_led::orange;
use crate::rgb_led::red;
use crate::rgb_led::single;
use crate::rgb_led::single_frame;
use crate::rgb_led::spec_blue;
use crate::rgb_led::spec_green;
use crate::rgb_led::spec_orange;
use crate::rgb_led::spec_red;
use crate::rgb_led::spec_yellow;
use crate::rgb_led::yellow;

verus! {

/// Abort answers polled during one full unaborted run: one before any
/// frame, one per sweep position, one per hold tick.
pub const TOTAL_CHECKS: usize = 189;

/// The animation tick period, in milliseconds: the host loop waits this
/// long between a committed frame (or a held one) and the next abort poll.
pub const TICK_MILLIS: u64 = 50;

/// The answer a script gives at position `i`: past its end a script keeps
/// answering "keep going".
pub open spec fn ans(a: Seq<bool>, i: int) -> bool {
    0 <= i < a.len() && a[i]
}

/// The sequence with its first `k` answers consumed (all of it for `k`
/// past the end).
pub open spec fn cut(a: Seq<bool>, k: int) -> Seq<bool> {
    if k < 0 {
        a
    } else if k <= a.len() {
        a.skip(k)
    } else {
        Seq::<bool>::empty()
    }
}

/// Position of the first "abort" answer in `[from, n)`, or `n` if every
/// answer there says keep going.
pub open spec fn first_true_from(a: Seq<bool>, from: int, n: int) -> int
    decreases n - from,
{
    if from >= n {
        n
    } else if ans(a, from) {
        from
    } else {
        first_true_from(a, from + 1, n)
    }
}

/// Position of the first "abort" answer among the first `n`, or `n`.
pub open spec fn first_true(a: Seq<bool>, n: int) -> int {
    first_true_from(a, 0, n)
}

/// `first_true_from` scans exactly `[from, n)`: its result is in range,
/// everything before the result says keep going, and the result is less
/// than `n` exactly where it points at an "abort" answer.
pub proof fn lemma_first_true_from(a: Seq<bool>, from: int, n: int)
    requires
        from <= n,
    ensures
        from <= first_true_from(a, from, n) <= n,
        forall|i: int| from <= i < first_true_from(a, from, n) ==> !ans(a, i),
        first_true_from(a, from, n) < n ==> ans(a, first_true_from(a, from, n)),
    decreases n - from,
{
    if from < n && !ans(a, from) {
        lemma_first_true_from(a, from + 1, n);
    }
}

/// Scanning `[x, z)` is scanning `[x, y)` and, if nothing was found there,
/// scanning on through `[y, z)`.
pub proof fn lemma_first_true_split(a: Seq<bool>, x: int, y: int, z: int)
    requires
        x <= y <= z,
    ensures
        first_true_from(a, x, z) == (if first_true_from(a, x, y) < y {
            first_true_from(a, x, y)
        } else {
            first_true_from(a, y, z)
        }),
    decreases y - x,
{
    lemma_first_true_from(a, x, y);
    if x < y {
        if !ans(a, x) {
            lemma_first_true_split(a, x + 1, y, z);
        }
    }
}

/// Consuming `k` answers shifts the remaining ones down by `k`.
pub proof fn lemma_ans_cut(a: Seq<bool>, k: int, i: int)
    requires
        0 <= k,
        0 <= i,
    ensures
        ans(cut(a, k), i) == ans(a, k + i),
{
}

/// Consuming `x` answers and then `y` more is consuming `x + y`.
pub proof fn lemma_cut_cut(a: Seq<bool>, x: int, y: int)
    requires
        0 <= x,
        0 <= y,
    ensures
        cut(cut(a, x), y) == cut(a, x + y),
{
    assert(cut(cut(a, x), y) =~= cut(a, x + y));
}

/// A script of abort answers, consumed one poll at a time. In the device
/// each answer is one sample of the abort condition between ticks; the
/// sequencer is verified against every script.
pub struct AbortScript {
    answers: Vec<bool>,
    cursor: usize,
}

impl AbortScript {
    /// The answers still to be given, in order. A script keeps answering
    /// "keep going" once these run out.
    pub closed spec fn future(self) -> Seq<bool> {
        if self.cursor <= self.answers@.len() {
            self.answers@.skip(self.cursor as int)
        } else {
            Seq::<bool>::empty()
        }
    }

    /// A script that answers as `answers` says and "keep going" from then
    /// on.
    pub fn new(answers: Vec<bool>) -> (s: AbortScript)
        ensures
            s.future() == answers@,
    {
        let s = AbortScript { answers, cursor: 0 };
        proof {
            assert(s.future() =~= s.answers@);
        }
        s
    }

    /// A script that never asks to abort.
    pub fn never() -> (s: AbortScript)
        ensures
            s.future() == Seq::<bool>::empty(),
    {
        AbortScript::new(Vec::new())
    }

    /// Give the next answer.
    pub fn poll(&mut self) -> (r: bool)
        ensures
            r == ans(old(self).future(), 0),
            final(self).future() == cut(old(self).future(), 1),
    {
        if self.cursor < self.answers.len() {
            let v = self.answers[self.cursor];
            self.cursor = self.cursor + 1;
            proof {
                assert(self.future() =~= cut(old(self).future(), 1));
            }
            v
        } else {
            proof {
                assert(self.future() =~= cut(old(self).future(), 1));
            }
            false
        }
    }
}

/// One step of the choreography: a sweep of one color around the ring, or
/// one red blink (fill, hold, blank, hold).
#[derive(Clone, Copy, PartialEq, Eq, Structural, Debug)]
pub enum Phase {
    Circle(Rgb),
    Blink(Rgb),
}

/// Abort polls a phase makes when nothing aborts: one per sweep position
/// for a circle; ten per hold, twice, for a blink.
pub open spec fn phase_checks(p: Phase) -> int {
    match p {
        Phase::Circle(_) => RING_SIZE as int,
        Phase::Blink(_) => 20,
    }
}

/// The frames of an unaborted sweep: one pixel lit, walking the ring.
pub open spec fn circle_frames(c: Rgb) -> Seq<Seq<Rgb>> {
    Seq::new(RING_SIZE as nat, |j: int| single_frame(j, c))
}

/// The frames of an unaborted blink: the full ring in `c`, then blanked.
pub open spec fn blink_frames(c: Rgb) -> Seq<Seq<Rgb>> {
    seq![full_frame(c), off_frame()]
}

/// Whether a phase runs to completion on the given abort answers.
pub open spec fn phase_ok(p: Phase, a: Seq<bool>) -> bool {
    first_true(a, phase_checks(p)) == phase_checks(p)
}

/// How many abort answers a phase consumes: all its checks, or up to and
/// including the first "abort".
pub open spec fn phase_used(p: Phase, a: Seq<bool>) -> int {
    if phase_ok(p, a) {
        phase_checks(p)
    } else {
        first_true(a, phase_checks(p)) + 1
    }
}

/// Exactly the frames a phase commits on the given abort answers. An
/// aborted phase always ends on a blanked ring.
pub open spec fn phase_frames(p: Phase, a: Seq<bool>) -> Seq<Seq<Rgb>> {
    let k = first_true(a, phase_checks(p));
    match p {
        Phase::Circle(c) => {
            if k == phase_checks(p) {
                circle_frames(c)
            } else {
                circle_frames(c).take(k + 1).push(off_frame())
            }
        },
        Phase::Blink(c) => {
            if k == phase_checks(p) || k < 10 {
                blink_frames(c)
            } else {
                blink_frames(c).push(off_frame())
            }
        },
    }
}

/// The full choreography plan: two sweeps per palette color, then three
/// red blinks.
pub open spec fn plan() -> Seq<Phase> {
    seq![
        Phase::Circle(spec_green()),
        Phase::Circle(spec_green()),
        Phase::Circle(spec_blue()),
        Phase::Circle(spec_blue()),
        Phase::Circle(spec_yellow()),
        Phase::Circle(spec_yellow()),
        Phase::Circle(spec_orange()),
        Phase::Circle(spec_orange()),
        Phase::Blink(spec_red()),
        Phase::Blink(spec_red()),
        Phase::Blink(spec_red()),
    ]
}

/// Running a list of phases against abort answers: the frames committed,
/// the answers consumed, and whether every phase completed. A phase that
/// aborts ends the run.
pub open spec fn run_phases(ps: Seq<Phase>, a: Seq<bool>) -> (Seq<Seq<Rgb>>, int, bool)
    decreases ps.len(),
{
    if ps.len() == 0 {
        (Seq::<Seq<Rgb>>::empty(), 0, true)
    } else {
        let p = ps[0];
        if phase_ok(p, a) {
            let rest = run_phases(ps.skip(1), cut(a, phase_used(p, a)));
            (phase_frames(p, a) + rest.0, phase_used(p, a) + rest.1, rest.2)
        } else {
            (phase_frames(p, a), phase_used(p, a), false)
        }
    }
}

/// Whether a full sequencer run completes on the given abort answers: the
/// look before the first frame says keep going, and so does every check
/// inside every phase.
pub open spec fn stop_ok(a: Seq<bool>) -> bool {
    !ans(a, 0) && run_phases(plan(), cut(a, 1)).2
}

/// Exactly the frames a full sequencer run commits on the given abort
/// answers.
pub open spec fn stop_frames(a: Seq<bool>) -> Seq<Seq<Rgb>> {
    if ans(a, 0) {
        seq![off_frame()]
    } else {
        run_phases(plan(), cut(a, 1)).0
    }
}

/// How many abort answers a full sequencer run consumes.
pub open spec fn stop_used(a: Seq<bool>) -> int {
    if ans(a, 0) {
        1
    } else {
        1 + run_phases(plan(), cut(a, 1)).1
    }
}

/// The checks a list of phases makes when nothing aborts.
pub open spec fn plan_checks(ps: Seq<Phase>) -> int
    decreases ps.len(),
{
    if ps.len() == 0 {
        0
    } else {
        phase_checks(ps[0]) + plan_checks(ps.skip(1))
    }
}

/// The frames of one phase run to completion.
pub open spec fn phase_complete_frames(p: Phase) -> Seq<Seq<Rgb>> {
    match p {
        Phase::Circle(c) => circle_frames(c),
        Phase::Blink(c) => blink_frames(c),
    }
}

/// The frames of a list of phases all run to completion.
pub open spec fn plan_frames(ps: Seq<Phase>) -> Seq<Seq<Rgb>>
    decreases ps.len(),
{
    if ps.len() == 0 {
        Seq::<Seq<Rgb>>::empty()
    } else {
        phase_complete_frames(ps[0]) + plan_frames(ps.skip(1))
    }
}

/// The frames of the whole unaborted countdown: every sweep of every
/// palette color, then the three red blinks.
pub open spec fn choreography() -> Seq<Seq<Rgb>> {
    plan_frames(plan())
}

proof fn lemma_phase_checks_pos(p: Phase)
    ensures
        phase_checks(p) >= 1,
{
}

proof fn lemma_plan_checks_nonneg(ps: Seq<Phase>)
    ensures
        plan_checks(ps) >= 0,
    decreases ps.len(),
{
    if ps.len() > 0 {
        lemma_phase_checks_pos(ps[0]);
        lemma_plan_checks_nonneg(ps.skip(1));
    }
}

/// A list of phases completes exactly when every one of its checks says
/// keep going.
proof fn lemma_run_phases_ok_iff(ps: Seq<Phase>, a: Seq<bool>)
    ensures
        run_phases(ps, a).2 <==> (forall|i: int| 0 <= i < plan_checks(ps) ==> !ans(a, i)),
    decreases ps.len(),
{
    if ps.len() == 0 {
    } else {
        let p = ps[0];
        let n = phase_checks(p);
        let r = plan_checks(ps.skip(1));
        let kk = plan_checks(ps);
        lemma_phase_checks_pos(p);
        lemma_plan_checks_nonneg(ps.skip(1));
        lemma_first_true_from(a, 0, n);
        assert(kk == n + r);
        if phase_ok(p, a) {
            lemma_run_phases_ok_iff(ps.skip(1), cut(a, n));
            let big = forall|i: int| 0 <= i < kk ==> !ans(a, i);
            let small = forall|i: int| 0 <= i < r ==> !ans(cut(a, n), i);
            if big {
                assert forall|i: int| 0 <= i < r implies !ans(cut(a, n), i) by {
                    lemma_ans_cut(a, n, i);
                    assert(!ans(a, n + i));
                }
                assert(small);
            }
            if small {
                assert forall|i: int| 0 <= i < kk implies !ans(a, i) by {
                    if i < n {
                    } else {
                        lemma_ans_cut(a, n, i - n);
                        assert(!ans(cut(a, n), i - n));
                    }
                }
                assert(big);
            }
            assert(run_phases(ps, a).2 == run_phases(ps.skip(1), cut(a, n)).2);
        } else {
            let ft = first_true(a, n);
            assert(ft < n);
            assert(ans(a, ft));
            assert(0 <= ft < kk);
            assert(!(forall|i: int| 0 <= i < kk ==> !ans(a, i)));
        }
    }
}

/// A completed run plays exactly every phase's full frames and consumes
/// exactly every check.
proof fn lemma_run_phases_complete(ps: Seq<Phase>, a: Seq<bool>)
    requires
        run_phases(ps, a).2,
    ensures
        run_phases(ps, a).0 == plan_frames(ps),
        run_phases(ps, a).1 == plan_checks(ps),
    decreases ps.len(),
{
    if ps.len() == 0 {
        assert(run_phases(ps, a).0 =~= plan_frames(ps));
    } else {
        let p = ps[0];
        assert(phase_ok(p, a));
        assert(phase_frames(p, a) == phase_complete_frames(p));
        lemma_run_phases_complete(ps.skip(1), cut(a, phase_checks(p)));
    }
}

/// The choreography plan's totals, phase by phase: eight sweeps of the
/// ring and three blinks make 188 checks past the opening look.
proof fn lemma_plan_totals()
    ensures
        plan_checks(plan()) == TOTAL_CHECKS - 1,
{
    let ps = plan();
    assert(ps.skip(0) =~= ps);
    assert(ps.skip(1).skip(1) =~= ps.skip(2));
    assert(ps.skip(2).skip(1) =~= ps.skip(3));
    assert(ps.skip(3).skip(1) =~= ps.skip(4));
    assert(ps.skip(4).skip(1) =~= ps.skip(5));
    assert(ps.skip(5).skip(1) =~= ps.skip(6));
    assert(ps.skip(6).skip(1) =~= ps.skip(7));
    assert(ps.skip(7).skip(1) =~= ps.skip(8));
    assert(ps.skip(8).skip(1) =~= ps.skip(9));
    assert(ps.skip(9).skip(1) =~= ps.skip(10));
    assert(ps.skip(10).skip(1) =~= ps.skip(11));
    assert(ps.skip(11) =~= Seq::<Phase>::empty());
    assert(plan_checks(ps.skip(11)) == 0);
    assert(plan_checks(ps.skip(10)) == 20);
    assert(plan_checks(ps.skip(9)) == 40);
    assert(plan_checks(ps.skip(8)) == 60);
    assert(plan_checks(ps.skip(7)) == 76);
    assert(plan_checks(ps.skip(6)) == 92);
    assert(plan_checks(ps.skip(5)) == 108);
    assert(plan_checks(ps.skip(4)) == 124);
    assert(plan_checks(ps.skip(3)) == 140);
    assert(plan_checks(ps.skip(2)) == 156);
    assert(plan_checks(ps.skip(1)) == 172);
    assert(plan_checks(ps) == 188);
}

/// Hold-to-confirm: a full run completes exactly when every one of its
/// abort checks — the look before the first frame and one per tick — says
/// keep going. Releasing at any point before completion aborts the run.
pub proof fn lemma_stop_ok_iff(a: Seq<bool>)
    ensures
        stop_ok(a) <==> (forall|i: int| 0 <= i < TOTAL_CHECKS ==> !ans(a, i)),
{
    lemma_run_phases_ok_iff(plan(), cut(a, 1));
    lemma_plan_totals();
    let all = forall|i: int| 0 <= i < TOTAL_CHECKS ==> !ans(a, i);
    let rest = forall|i: int| 0 <= i < plan_checks(plan()) ==> !ans(cut(a, 1), i);
    if all {
        assert(!ans(a, 0));
        assert forall|i: int| 0 <= i < plan_checks(plan()) implies !ans(cut(a, 1), i) by {
            lemma_ans_cut(a, 1, i);
            assert(!ans(a, 1 + i));
        }
        assert(rest);
    }
    if rest && !ans(a, 0) {
        assert forall|i: int| 0 <= i < TOTAL_CHECKS implies !ans(a, i) by {
            if i >= 1 {
                lemma_ans_cut(a, 1, i - 1);
                assert(!ans(cut(a, 1), i - 1));
            }
        }
        assert(all);
    }
}

/// An abort answer before the first frame: the run is aborted, the only
/// frame committed is the blanked ring, one answer was consumed — no color
/// is ever played.
pub proof fn lemma_abort_before_first_frame(a: Seq<bool>)
    requires
        ans(a, 0),
    ensures
        !stop_ok(a),
        stop_frames(a) == seq![off_frame()],
        stop_used(a) == 1,
{
}

/// A run on which every check says keep going completes, plays exactly
/// the whole choreography, and consumes exactly every check.
pub proof fn lemma_never_abort_full_choreography(a: Seq<bool>)
    requires
        forall|i: int| 0 <= i < TOTAL_CHECKS ==> !ans(a, i),
    ensures
        stop_ok(a),
        stop_frames(a) == choreography(),
        stop_used(a) == TOTAL_CHECKS,
{
    lemma_stop_ok_iff(a);
    lemma_run_phases_complete(plan(), cut(a, 1));
    lemma_plan_totals();
}

/// The sequencer; it owns the ring.
pub struct LedHandler {
    led_ring: LedRing,
}

impl LedHandler {
    /// Every frame committed to the ring so far.
    pub closed spec fn frames(self) -> Seq<Seq<Rgb>> {
        self.led_ring.frames()
    }

    pub closed spec fn wf(self) -> bool {
        self.led_ring.wf()
    }

    pub fn new(led_ring: LedRing) -> (h: Self)
        requires
            led_ring.wf(),
        ensures
            h.wf(),
            h.frames() == led_ring.frames(),
    {
        LedHandler { led_ring }
    }

    /// How many frames have been committed.
    pub fn frame_count(&self) -> (n: usize)
        ensures
            n == self.frames().len(),
    {
        self.led_ring.frame_count()
    }

    /// One committed frame, for inspection.
    pub fn frame_at(&self, i: usize) -> (f: &Vec<Rgb>)
        requires
            i < self.frames().len(),
        ensures
            f@ == self.frames()[i as int],
    {
        self.led_ring.frame_at(i)
    }

    /// Poll the abort condition once; on "abort" blank the ring and cut
    /// the run short.
    fn disable_light_if_aborted(&mut self, abort: &mut AbortScript) -> (r: Result<(), ()>)
        requires
            old(self).wf(),
        ensures
            final(self).wf(),
            r is Err <==> ans(old(abort).future(), 0),
            final(self).frames() == (if ans(old(abort).future(), 0) {
                old(self).frames().push(off_frame())
            } else {
                old(self).frames()
            }),
            final(abort).future() == cut(old(abort).future(), 1),
    {
        if abort.poll() {
            self.led_ring.write(crate::rgb_led::off());
            Err(())
        } else {
            Ok(())
        }
    }

    /// Sweep one lit pixel of `color` around the ring, one position per
    /// tick, polling the abort condition after every tick. On abort the
    /// ring is blanked at once.
    pub fn circle(&mut self, color: Rgb, abort: &mut AbortScript) -> (r: Result<(), ()>)
        requires
            old(self).wf(),
        ensures
            final(self).wf(),
            r is Ok <==> phase_ok(Phase::Circle(color), old(abort).future()),
            final(self).frames() == old(self).frames() + phase_frames(
                Phase::Circle(color),
                old(abort).future(),
            ),
            final(abort).future() == cut(
                old(abort).future(),
                phase_used(Phase::Circle(color), old(abort).future()),
            ),
    {
        let ghost a0 = abort.future();
        proof {
            assert(circle_frames(color).take(0) =~= Seq::<Seq<Rgb>>::empty());
            assert(old(self).frames() + circle_frames(color).take(0) =~= old(self).frames());
            assert(cut(a0, 0) =~= a0);
        }
        let mut j: usize = 0;
        while j < RING_SIZE
            invariant
                self.wf(),
                j <= RING_SIZE,
                a0 == old(abort).future(),
                first_true(a0, j as int) == j,
                self.frames() == old(self).frames() + circle_frames(color).take(j as int),
                abort.future() == cut(a0, j as int),
            decreases RING_SIZE - j,
        {
            let frame = single(j, color);
            self.led_ring.write(frame);
            // the tick period elapses in the host loop
            let ghost mid_frames = self.frames();
            let stopped = self.disable_light_if_aborted(abort);
            proof {
                lemma_ans_cut(a0, j as int, 0);
                lemma_cut_cut(a0, j as int, 1);
                assert(circle_frames(color).take(j as int + 1) =~= circle_frames(color).take(
                    j as int,
                ).push(single_frame(j as int, color)));
                assert(mid_frames =~= old(self).frames() + circle_frames(color).take(j as int + 1));
            }
            if stopped.is_err() {
                proof {
                    let n = RING_SIZE as int;
                    assert(ans(a0, j as int));
                    assert(first_true_from(a0, j as int, n) == j);
                    lemma_first_true_split(a0, 0, j as int, n);
                    assert(first_true(a0, n) == j);
                    assert(!phase_ok(Phase::Circle(color), a0));
                    assert(phase_used(Phase::Circle(color), a0) == j + 1);
                    assert(self.frames() =~= old(self).frames() + circle_frames(color).take(
                        j as int + 1,
                    ).push(off_frame()));
                }
                return Err(());
            }
            proof {
                assert(!ans(a0, j as int));
                assert(first_true_from(a0, j as int + 1, j as int + 1) == j + 1);
                assert(first_true_from(a0, j as int, j as int + 1) == j + 1);
                lemma_first_true_split(a0, 0, j as int, j as int + 1);
                assert(first_true(a0, j as int + 1) == j + 1);
            }
            j = j + 1;
        }
        proof {
            assert(phase_ok(Phase::Circle(color), a0));
            assert(circle_frames(color).take(RING_SIZE as int) =~= circle_frames(color));
        }
        Ok(())
    }

    /// Fill the whole ring with `color`, hold it ten ticks, blank it, hold
    /// ten more, polling the abort condition each tick. On abort the ring
    /// is blanked at once.
    pub fn blink(&mut self, color: Rgb, abort: &mut AbortScript) -> (r: Result<(), ()>)
        requires
            old(self).wf(),
        ensures
            final(self).wf(),
            r is Ok <==> phase_ok(Phase::Blink(color), old(abort).future()),
            final(self).frames() == old(self).frames() + phase_frames(
                Phase::Blink(color),
                old(abort).future(),
            ),
            final(abort).future() == cut(
                old(abort).future(),
                phase_used(Phase::Blink(color), old(abort).future()),
            ),
    {
        let ghost a0 = abort.future();
        let ghost p = Phase::Blink(color);
        self.led_ring.write(full_color(color));
        proof {
            assert(cut(a0, 0) =~= a0);
        }
        let mut t: usize = 0;
        while t < 10
            invariant
                self.wf(),
                t <= 10,
                a0 == old(abort).future(),
                first_true(a0, t as int) == t,
                self.frames() == old(self).frames().push(full_frame(color)),
                abort.future() == cut(a0, t as int),
                p == Phase::Blink(color),
            decreases 10 - t,
        {
            // the tick period elapses in the host loop
            let stopped = self.disable_light_if_aborted(abort);
            proof {
                lemma_ans_cut(a0, t as int, 0);
                lemma_cut_cut(a0, t as int, 1);
            }
            if stopped.is_err() {
                proof {
                    assert(ans(a0, t as int));
                    assert(first_true_from(a0, t as int, 20) == t);
                    lemma_first_true_split(a0, 0, t as int, 20);
                    assert(first_true(a0, 20) == t);
                    assert(phase_checks(p) == 20);
                    assert(!phase_ok(p, a0));
                    assert(phase_frames(p, a0) == blink_frames(color));
                    assert(phase_used(p, a0) == t + 1);
                    assert(self.frames() =~= old(self).frames() + blink_frames(color));
                }
                return Err(());
            }
            proof {
                assert(!ans(a0, t as int));
                assert(first_true_from(a0, t as int + 1, t as int + 1) == t + 1);
                assert(first_true_from(a0, t as int, t as int + 1) == t + 1);
                lemma_first_true_split(a0, 0, t as int, t as int + 1);
                assert(first_true(a0, t as int + 1) == t + 1);
            }
            t = t + 1;
        }
        self.led_ring.write(crate::rgb_led::off());
        proof {
            assert(self.frames() =~= old(self).frames() + blink_frames(color));
        }
        let mut u: usize = 0;
        while u < 10
            invariant
                self.wf(),
                u <= 10,
                a0 == old(abort).future(),
                first_true(a0, 10 + u as int) == 10 + u,
                self.frames() == old(self).frames() + blink_frames(color),
                abort.future() == cut(a0, 10 + u as int),
                p == Phase::Blink(color),
            decreases 10 - u,
        {
            // the tick period elapses in the host loop
            let stopped = self.disable_light_if_aborted(abort);
            proof {
                lemma_ans_cut(a0, 10 + u as int, 0);
                lemma_cut_cut(a0, 10 + u as int, 1);
            }
            if stopped.is_err() {
                proof {
                    let k = 10 + u as int;
                    assert(ans(a0, k));
                    assert(first_true_from(a0, k, 20) == k);
                    lemma_first_true_split(a0, 0, k, 20);
                    assert(first_true(a0, 20) == k);
                    assert(phase_checks(p) == 20);
                    assert(!phase_ok(p, a0));
                    assert(phase_frames(p, a0) == blink_frames(color).push(off_frame()));
                    assert(phase_used(p, a0) == k + 1);
                    assert(self.frames() =~= old(self).frames() + blink_frames(color).push(
                        off_frame(),
                    ));
                }
                return Err(());
            }
            proof {
                let k = 10 + u as int;
                assert(!ans(a0, k));
                assert(first_true_from(a0, k + 1, k + 1) == k + 1);
                assert(first_true_from(a0, k, k + 1) == k + 1);
                lemma_first_true_split(a0, 0, k, k + 1);
                assert(first_true(a0, k + 1) == k + 1);
            }
            u = u + 1;
        }
        proof {
            assert(phase_ok(p, a0));
        }
        Ok(())
    }

    /// Play the whole choreography, polling the abort condition once
    /// before any frame and then after every tick. Returns `Ok` exactly
    /// when nothing asked to abort; an aborted run always leaves the ring
    /// blanked.
    pub fn stop_sequence(&mut self, abort: &mut AbortScript) -> (r: Result<(), ()>)
        requires
            old(self).wf(),
        ensures
            final(self).wf(),
            r is Ok <==> stop_ok(old(abort).future()),
            final(self).frames() == old(self).frames() + stop_frames(old(abort).future()),
            final(abort).future() == cut(old(abort).future(), stop_used(old(abort).future())),
    {
        let ghost a0 = abort.future();
        // one look before the first frame: an operator who has already
        // released gets a blank ring and no countdown at all
        if abort.poll() {
            self.led_ring.write(crate::rgb_led::off());
            proof {
                assert(self.frames() =~= old(self).frames() + seq![off_frame()]);
            }
            return Err(());
        }
        let ghost a1 = cut(a0, 1);
        let phases = plan_vec();
        let ghost mut used: int = 0;
        let ghost mut emitted: Seq<Seq<Rgb>> = Seq::<Seq<Rgb>>::empty();
        proof {
            assert(old(self).frames() + emitted =~= old(self).frames());
            assert(cut(a1, 0) =~= a1);
            assert(plan().skip(0) =~= plan());
            assert(emitted + run_phases(plan(), a1).0 =~= run_phases(plan(), a1).0);
        }
        let mut i: usize = 0;
        while i < phases.len()
            invariant
                self.wf(),
                i <= plan().len(),
                phases@ == plan(),
                a0 == old(abort).future(),
                a1 == cut(a0, 1),
                !ans(a0, 0),
                0 <= used,
                self.frames() == old(self).frames() + emitted,
                abort.future() == cut(a1, used),
                run_phases(plan(), a1).0 == emitted + run_phases(
                    plan().skip(i as int),
                    cut(a1, used),
                ).0,
                run_phases(plan(), a1).1 == used + run_phases(
                    plan().skip(i as int),
                    cut(a1, used),
                ).1,
                run_phases(plan(), a1).2 == run_phases(plan().skip(i as int), cut(a1, used)).2,
            decreases phases@.len() - i,
        {
            let ghost b = cut(a1, used);
            let ghost rem = plan().skip(i as int);
            proof {
                assert(rem[0] == plan()[i as int]);
                assert(rem.skip(1) =~= plan().skip(i as int + 1));
            }
            let p = phases[i];
            let res = match p {
                Phase::Circle(c) => self.circle(c, abort),
                Phase::Blink(c) => self.blink(c, abort),
            };
            proof {
                lemma_first_true_from(b, 0, phase_checks(p));
                lemma_cut_cut(a1, used, phase_used(p, b));
            }
            if res.is_err() {
                proof {
                    assert(!phase_ok(p, b));
                    assert(run_phases(rem, b) == (phase_frames(p, b), phase_used(p, b), false));
                    assert(self.frames() =~= old(self).frames() + (emitted + phase_frames(p, b)));
                    assert(run_phases(plan(), a1).0 =~= emitted + phase_frames(p, b));
                    assert(run_phases(plan(), a1).1 == used + phase_used(p, b));
                    assert(!run_phases(plan(), a1).2);
                    assert(!stop_ok(a0));
                    assert(stop_frames(a0) == run_phases(plan(), a1).0);
                    assert(stop_used(a0) == 1 + used + phase_used(p, b));
                    lemma_cut_cut(a0, 1, used + phase_used(p, b));
                    assert(self.frames() =~= old(self).frames() + stop_frames(a0));
                }
                return Err(());
            }
            proof {
                assert(phase_ok(p, b));
                let rest = run_phases(plan().skip(i as int + 1), cut(b, phase_used(p, b)));
                assert(run_phases(rem, b) == (
                    phase_frames(p, b) + rest.0,
                    phase_used(p, b) + rest.1,
                    rest.2,
                ));
                emitted = emitted + phase_frames(p, b);
                used = used + phase_used(p, b);
                assert(self.frames() =~= old(self).frames() + emitted);
                assert(run_phases(plan(), a1).0 =~= emitted + rest.0);
            }
            i = i + 1;
        }
        proof {
            assert(plan().skip(plan().len() as int) =~= Seq::<Phase>::empty());
            assert(run_phases(Seq::<Phase>::empty(), cut(a1, used)) == (
                Seq::<Seq<Rgb>>::empty(),
                0int,
                true,
            ));
            assert(run_phases(plan(), a1).2);
            assert(stop_ok(a0));
            assert(run_phases(plan(), a1).0 =~= emitted);
            assert(self.frames() =~= old(self).frames() + stop_frames(a0));
            lemma_cut_cut(a0, 1, used);
        }
        Ok(())
    }
}

/// The choreography plan as a value, for the sequencer to walk.
fn plan_vec() -> (v: Vec<Phase>)
    ensures
        v@ == plan(),
{
    let mut v: Vec<Phase> = Vec::new();
    v.push(Phase::Circle(green()));
    v.push(Phase::Circle(green()));
    v.push(Phase::Circle(blue()));
    v.push(Phase::Circle(blue()));
    v.push(Phase::Circle(yellow()));
    v.push(Phase::Circle(yellow()));
    v.push(Phase::Circle(orange()));
    v.push(Phase::Circle(orange()));
    v.push(Phase::Blink(red()));
    v.push(Phase::Blink(red()));
    v.push(Phase::Blink(red()));
    assert(v@ =~= plan());
    v
}

/// A whole-ring frame of one color.
pub fn full_color(color: Rgb) -> (f: Vec<Rgb>)
    ensures
        f@ == full_frame(color),
{
    let mut f: Vec<Rgb> = Vec::new();
    let mut i: usize = 0;
    while i < RING_SIZE
        invariant
            i <= RING_SIZE,
            f@.len() == i,
            forall|j: int| 0 <= j < i ==> f@[j] == color,
        decreases RING_SIZE - i,
    {
        f.push(color);
        i = i + 1;
    }
    assert(f@ =~= full_frame(color));
    f
}

/// All pixels dark.
pub fn off() -> (f: Vec<Rgb>)
    ensures
        f@ == off_frame(),
{
    crate::rgb_led::off()
}

} // verus!
