//! Debounced button input: turns a sampled digital line into a clean,
//! alternating stream of Pressed/Released events for one button role.
//!
//! The line is sampled once per millisecond tick by the host loop (which
//! owns the pin and the timer) and each sample is fed to `step`. A
//! candidate press starts a fixed settle window; every edge inside the
//! window is absorbed. When the window closes the line is looked at once
//! more: still pressed means a real press, and one Pressed event goes out;
//! already back at idle means contact bounce, and nothing goes out. After
//! a real press the machine waits for the line to return to its idle level
//! and emits the matching Released. A disturbance shorter than the settle
//! window is therefore invisible to the rest of the system.

use vstd::prelude::*;

verus! {

/// The logical role of a physical button, fixed at construction.
#[derive(Clone, Copy, PartialEq, Eq, Structural, Debug)]
pub enum Button {
    Kill,
    Lock,
    Wiggle,
}

/// A clean button event.
#[derive(Clone, Copy, PartialEq, Eq, Structural, Debug)]
pub enum Event {
    Pressed,
    Released,
}

/// How the button is wired to its line (with the pull-up on).
#[derive(Clone, Copy, PartialEq, Eq, Structural, Debug)]
pub enum Wiring {
    /// Idle high, pressing drives the line low.
    NormallyOpen,
    /// Idle low, pressing releases the line high.
    NormallyClosed,
}

/// Length of the settle window, in line samples (one per millisecond).
pub const SETTLE_TICKS: u8 = 10;

/// The debouncer's position in its press/release cycle.
#[derive(Clone, Copy, PartialEq, Eq, Structural, Debug)]
pub enum DebounceState {
    /// Watching for a candidate press edge.
    WaitPress,
    /// Inside the settle window, `elapsed` samples in.
    Settling { elapsed: u8 },
    /// A press was emitted; watching for the return to idle.
    WaitRelease,
}

/// The line level that means "pressed" under the given wiring.
pub open spec fn pressed_level(w: Wiring) -> bool {
    match w {
        Wiring::NormallyOpen => false,
        Wiring::NormallyClosed => true,
    }
}

/// Whether a sampled level means the button is held.
pub open spec fn is_pressed(w: Wiring, line_high: bool) -> bool {
    line_high == pressed_level(w)
}

/// The settle counter of a settling state (zero elsewhere).
pub open spec fn settling_elapsed(s: DebounceState) -> int {
    match s {
        DebounceState::Settling { elapsed } => elapsed as int,
        _ => 0,
    }
}

/// A settle counter never reaches the window length: the sample on which
/// it would is the one that closes the window.
pub open spec fn state_wf(s: DebounceState) -> bool {
    s is Settling ==> settling_elapsed(s) < SETTLE_TICKS
}

/// One sample of the debounce machine: the next state and the event, if
/// any, that this sample lets out.
pub open spec fn spec_step(s: DebounceState, pressed: bool) -> (DebounceState, Option<Event>) {
    match s {
        DebounceState::WaitPress => {
            if pressed {
                (DebounceState::Settling { elapsed: 0 }, None)
            } else {
                (DebounceState::WaitPress, None)
            }
        },
        DebounceState::Settling { elapsed } => {
            if elapsed + 1 < SETTLE_TICKS {
                (DebounceState::Settling { elapsed: (elapsed + 1) as u8 }, None)
            } else if pressed {
                (DebounceState::WaitRelease, Some(Event::Pressed))
            } else {
                (DebounceState::WaitPress, None)
            }
        },
        DebounceState::WaitRelease => {
            if !pressed {
                (DebounceState::WaitPress, Some(Event::Released))
            } else {
                (DebounceState::WaitRelease, None)
            }
        },
    }
}

/// The machine run over a whole trace of sampled levels: the final state
/// and every event emitted, in order.
pub open spec fn debounce_run(s: DebounceState, w: Wiring, levels: Seq<bool>) -> (
    DebounceState,
    Seq<Event>,
)
    decreases levels.len(),
{
    if levels.len() == 0 {
        (s, Seq::<Event>::empty())
    } else {
        let head = spec_step(s, is_pressed(w, levels[0]));
        let rest = debounce_run(head.0, w, levels.skip(1));
        (
            rest.0,
            (match head.1 {
                Some(e) => seq![e],
                None => Seq::<Event>::empty(),
            }) + rest.1,
        )
    }
}

/// Debounced input for one button role.
pub struct ButtonHandler {
    button: Button,
    wiring: Wiring,
    state: DebounceState,
}

impl ButtonHandler {
    pub closed spec fn button(self) -> Button {
        self.button
    }

    pub closed spec fn wiring(self) -> Wiring {
        self.wiring
    }

    pub closed spec fn state(self) -> DebounceState {
        self.state
    }

    pub closed spec fn wf(self) -> bool {
        state_wf(self.state)
    }

    pub fn new(button: Button, wiring: Wiring) -> (h: Self)
        ensures
            h.wf(),
            h.button() == button,
            h.wiring() == wiring,
            h.state() == DebounceState::WaitPress,
    {
        ButtonHandler { button, wiring, state: DebounceState::WaitPress }
    }

    /// The role this input reports for.
    pub fn role(&self) -> (b: Button)
        ensures
            b == self.button(),
    {
        self.button
    }

    /// Feed one sampled line level; an emitted event is for this
    /// handler's button role.
    pub fn step(&mut self, line_high: bool) -> (r: Option<Event>)
        requires
            old(self).wf(),
        ensures
            final(self).wf(),
            final(self).button() == old(self).button(),
            final(self).wiring() == old(self).wiring(),
            (final(self).state(), r) == spec_step(
                old(self).state(),
                is_pressed(old(self).wiring(), line_high),
            ),
    {
        let pressed = match self.wiring {
            Wiring::NormallyOpen => !line_high,
            Wiring::NormallyClosed => line_high,
        };
        match self.state {
            DebounceState::WaitPress => {
                if pressed {
                    self.state = DebounceState::Settling { elapsed: 0 };
                }
                None
            },
            DebounceState::Settling { elapsed } => {
                if elapsed + 1 < SETTLE_TICKS {
                    self.state = DebounceState::Settling { elapsed: elapsed + 1 };
                    None
                } else if pressed {
                    self.state = DebounceState::WaitRelease;
                    Some(Event::Pressed)
                } else {
                    self.state = DebounceState::WaitPress;
                    None
                }
            },
            DebounceState::WaitRelease => {
                if !pressed {
                    self.state = DebounceState::WaitPress;
                    Some(Event::Released)
                } else {
                    None
                }
            },
        }
    }

    /// Feed a whole trace of sampled levels and collect every event let
    /// out, in order.
    pub fn run_trace(&mut self, levels: &Vec<bool>) -> (events: Vec<Event>)
        requires
            old(self).wf(),
        ensures
            final(self).wf(),
            final(self).button() == old(self).button(),
            final(self).wiring() == old(self).wiring(),
            final(self).state() == debounce_run(old(self).state(), old(self).wiring(), levels@).0,
            events@ == debounce_run(old(self).state(), old(self).wiring(), levels@).1,
    {
        let ghost s0 = self.state();
        let ghost w = self.wiring();
        let mut events: Vec<Event> = Vec::new();
        proof {
            assert(levels@.take(0) =~= Seq::<bool>::empty());
        }
        let mut i: usize = 0;
        while i < levels.len()
            invariant
                self.wf(),
                i <= levels@.len(),
                self.button() == old(self).button(),
                self.wiring() == w,
                w == old(self).wiring(),
                self.state() == debounce_run(s0, w, levels@.take(i as int)).0,
                events@ == debounce_run(s0, w, levels@.take(i as int)).1,
            decreases levels@.len() - i,
        {
            let ghost pre = self.state();
            let r = self.step(levels[i]);
            match r {
                Some(e) => events.push(e),
                None => (),
            }
            proof {
                let t = levels@.take(i as int);
                let t1 = levels@.take(i as int + 1);
                assert(t1 =~= t + seq![levels@[i as int]]);
                lemma_debounce_run_append(s0, w, t, seq![levels@[i as int]], );
                let single = seq![levels@[i as int]];
                let hd = spec_step(pre, is_pressed(w, levels@[i as int]));
                assert(single[0] == levels@[i as int]);
                assert(single.skip(1) =~= Seq::<bool>::empty());
                assert(debounce_run(hd.0, w, single.skip(1)) == (hd.0, Seq::<Event>::empty()));
                assert(debounce_run(pre, w, single).0 == hd.0);
                assert(debounce_run(pre, w, single).1 =~= (match hd.1 {
                    Some(e) => seq![e],
                    None => Seq::<Event>::empty(),
                }));
                assert(events@ =~= debounce_run(s0, w, t).1 + debounce_run(pre, w, single).1);
            }
            i = i + 1;
        }
        proof {
            assert(levels@.take(levels@.len() as int) =~= levels@);
        }
        events
    }
}

/// Running a trace in two pieces is running it whole: states chain and the
/// emitted events concatenate.
pub proof fn lemma_debounce_run_append(s: DebounceState, w: Wiring, l1: Seq<bool>, l2: Seq<bool>)
    ensures
        debounce_run(s, w, l1 + l2).0 == debounce_run(debounce_run(s, w, l1).0, w, l2).0,
        debounce_run(s, w, l1 + l2).1 == debounce_run(s, w, l1).1 + debounce_run(
            debounce_run(s, w, l1).0,
            w,
            l2,
        ).1,
    decreases l1.len(),
{
    if l1.len() == 0 {
        assert(l1 + l2 =~= l2);
        assert(Seq::<Event>::empty() + debounce_run(s, w, l2).1 =~= debounce_run(s, w, l2).1);
    } else {
        let head = spec_step(s, is_pressed(w, l1[0]));
        let emitted = (match head.1 {
            Some(e) => seq![e],
            None => Seq::<Event>::empty(),
        });
        assert((l1 + l2)[0] == l1[0]);
        assert((l1 + l2).skip(1) =~= l1.skip(1) + l2);
        lemma_debounce_run_append(head.0, w, l1.skip(1), l2);
        let mid = debounce_run(head.0, w, l1.skip(1));
        assert(emitted + (mid.1 + debounce_run(mid.0, w, l2).1) =~= (emitted + mid.1)
            + debounce_run(mid.0, w, l2).1);
    }
}

/// A trace of `n` samples all at one level.
pub open spec fn level_run(level: bool, n: nat) -> Seq<bool> {
    Seq::new(n, |i: int| level)
}

/// An all-idle trace leaves a waiting machine exactly where it was.
proof fn lemma_idle_inert(w: Wiring, n: nat)
    ensures
        debounce_run(DebounceState::WaitPress, w, level_run(!pressed_level(w), n)) == (
            DebounceState::WaitPress,
            Seq::<Event>::empty(),
        ),
    decreases n,
{
    if n > 0 {
        lemma_idle_inert(w, (n - 1) as nat);
        assert(level_run(!pressed_level(w), n).skip(1) =~= level_run(
            !pressed_level(w),
            (n - 1) as nat,
        ));
        assert(Seq::<Event>::empty() + Seq::<Event>::empty() =~= Seq::<Event>::empty());
    }
}

/// A held line keeps a fired machine silent.
proof fn lemma_held_after_press(w: Wiring, n: nat)
    ensures
        debounce_run(DebounceState::WaitRelease, w, level_run(pressed_level(w), n)) == (
            DebounceState::WaitRelease,
            Seq::<Event>::empty(),
        ),
    decreases n,
{
    if n > 0 {
        lemma_held_after_press(w, (n - 1) as nat);
        assert(level_run(pressed_level(w), n).skip(1) =~= level_run(
            pressed_level(w),
            (n - 1) as nat,
        ));
        assert(Seq::<Event>::empty() + Seq::<Event>::empty() =~= Seq::<Event>::empty());
    }
}

/// A line held at the pressed level through the rest of the settle window
/// fires exactly one Pressed.
proof fn lemma_settle_fires(w: Wiring, e: int, n: nat)
    requires
        0 <= e < SETTLE_TICKS,
        n >= SETTLE_TICKS - e,
    ensures
        debounce_run(DebounceState::Settling { elapsed: e as u8 }, w, level_run(
            pressed_level(w),
            n,
        )) == (DebounceState::WaitRelease, seq![Event::Pressed]),
    decreases n,
{
    let levels = level_run(pressed_level(w), n);
    assert(is_pressed(w, levels[0]));
    assert(levels.skip(1) =~= level_run(pressed_level(w), (n - 1) as nat));
    if e + 1 < SETTLE_TICKS {
        lemma_settle_fires(w, e + 1, (n - 1) as nat);
        assert(Seq::<Event>::empty() + seq![Event::Pressed] =~= seq![Event::Pressed]);
    } else {
        lemma_held_after_press(w, (n - 1) as nat);
        assert(seq![Event::Pressed] + Seq::<Event>::empty() =~= seq![Event::Pressed]);
    }
}

/// Bounce rejection: however the line jitters inside the settle window, if
/// it is back at idle from the close of the window on, no event at all is
/// emitted.
pub proof fn lemma_bounce_rejected(w: Wiring, levels: Seq<bool>)
    requires
        forall|i: int| SETTLE_TICKS <= i < levels.len() ==> !is_pressed(w, #[trigger] levels[i]),
    ensures
        debounce_run(DebounceState::WaitPress, w, levels).1 == Seq::<Event>::empty(),
{
    lemma_bounce_rejected_aux(DebounceState::WaitPress, w, levels, 0);
}

/// Induction workhorse for bounce rejection: `g` is the global index of
/// the first remaining sample; a settling machine at sample `g` entered
/// the window at `g - elapsed - 1`, so its closing look at the line falls
/// at an index at least the window length, where the line is idle.
proof fn lemma_bounce_rejected_aux(s: DebounceState, w: Wiring, levels: Seq<bool>, g: int)
    requires
        0 <= g,
        state_wf(s),
        s is WaitPress || s is Settling,
        s is Settling ==> g >= settling_elapsed(s) + 1,
        forall|i: int|
            0 <= i < levels.len() && g + i >= SETTLE_TICKS ==> !is_pressed(
                w,
                #[trigger] levels[i],
            ),
    ensures
        debounce_run(s, w, levels).1 == Seq::<Event>::empty(),
    decreases levels.len(),
{
    if levels.len() == 0 {
    } else {
        let p = is_pressed(w, levels[0]);
        let head = spec_step(s, p);
        assert(head.1 is None);
        assert(head.0 is WaitPress || head.0 is Settling);
        assert forall|i: int|
            0 <= i < levels.skip(1).len() && (g + 1) + i >= SETTLE_TICKS implies !is_pressed(
            w,
            #[trigger] levels.skip(1)[i],
        ) by {
            assert(levels.skip(1)[i] == levels[i + 1]);
        }
        lemma_bounce_rejected_aux(head.0, w, levels.skip(1), g + 1);
        assert(Seq::<Event>::empty() + Seq::<Event>::empty() =~= Seq::<Event>::empty());
    }
}

/// A clean press: idle, then held at the pressed level for longer than the
/// settle window, then idle again. Exactly one Pressed and then exactly
/// one Released come out, and the machine is back watching for the next
/// press.
pub proof fn lemma_clean_press(w: Wiring, p: nat, q: nat, r: nat)
    requires
        q > SETTLE_TICKS,
        r >= 1,
    ensures
        debounce_run(
            DebounceState::WaitPress,
            w,
            level_run(!pressed_level(w), p) + level_run(pressed_level(w), q) + level_run(
                !pressed_level(w),
                r,
            ),
        ) == (DebounceState::WaitPress, seq![Event::Pressed, Event::Released]),
{
    let idle_n = level_run(!pressed_level(w), p);
    let held = level_run(pressed_level(w), q);
    let idle_r = level_run(!pressed_level(w), r);

    // The held segment: the first sample opens the settle window, the rest
    // of the window fires Pressed, the remaining held samples are silent.
    assert(is_pressed(w, held[0]));
    assert(held.skip(1) =~= level_run(pressed_level(w), (q - 1) as nat));
    lemma_settle_fires(w, 0, (q - 1) as nat);
    assert(debounce_run(DebounceState::WaitPress, w, held) == (
        DebounceState::WaitRelease,
        seq![Event::Pressed],
    )) by {
        assert(Seq::<Event>::empty() + seq![Event::Pressed] =~= seq![Event::Pressed]);
    }

    // The trailing idle segment: the first sample releases, the rest is
    // inert.
    assert(!is_pressed(w, idle_r[0]));
    assert(idle_r.skip(1) =~= level_run(!pressed_level(w), (r - 1) as nat));
    lemma_idle_inert(w, (r - 1) as nat);
    assert(debounce_run(DebounceState::WaitRelease, w, idle_r) == (
        DebounceState::WaitPress,
        seq![Event::Released],
    )) by {
        assert(seq![Event::Released] + Seq::<Event>::empty() =~= seq![Event::Released]);
    }

    lemma_idle_inert(w, p);
    lemma_debounce_run_append(DebounceState::WaitPress, w, idle_n, held);
    assert(debounce_run(DebounceState::WaitPress, w, idle_n + held) == (
        DebounceState::WaitRelease,
        seq![Event::Pressed],
    )) by {
        assert(Seq::<Event>::empty() + seq![Event::Pressed] =~= seq![Event::Pressed]);
    }
    lemma_debounce_run_append(DebounceState::WaitPress, w, idle_n + held, idle_r);
    assert(seq![Event::Pressed] + seq![Event::Released] =~= seq![Event::Pressed, Event::Released]);
}

} // verus!
