//! The HID transport as the emitters see it: a sink of fixed-size reports
//! that can fail on any single write (for instance while the host has not
//! yet enumerated the device).
//!
//! The transport records every report handed to it, whether or not that
//! write succeeded, and answers each write from a script of outcomes; past
//! the end of the script every write succeeds. The emitters are thereby
//! verified against every pattern of transport failures, which is the point:
//! a failed write must never stop the paired release report from being
//! attempted. The host loop owns the real USB endpoint and replays the
//! logged reports into it.

use vstd::prelude::*;

verus! {

/// Why a report write failed.
#[derive(Clone, Copy, PartialEq, Eq, Structural, Debug)]
pub enum TransportError {
    /// The endpoint is not (or no longer) enabled by the host.
    Disabled,
}

/// A report sink with scripted outcomes and a full log of attempts.
pub struct HidTransport {
    outcomes: Vec<bool>,
    cursor: usize,
    log: Vec<Vec<u8>>,
}

impl HidTransport {
    /// Every report handed to the transport so far, oldest first, failed
    /// writes included.
    pub closed spec fn log(self) -> Seq<Seq<u8>> {
        self.log@.map_values(|r: Vec<u8>| r@)
    }

    /// Whether the i-th upcoming write will succeed. Past the end of the
    /// script every write succeeds.
    pub closed spec fn outcome(self, i: int) -> bool {
        !(0 <= self.cursor + i < self.outcomes@.len()) || self.outcomes@[self.cursor + i]
    }

    /// A transport whose next writes succeed or fail as `outcomes` says,
    /// and succeed from there on.
    pub fn new(outcomes: Vec<bool>) -> (t: HidTransport)
        ensures
            t.log() == Seq::<Seq<u8>>::empty(),
            forall|i: int|
                #[trigger] t.outcome(i) == (!(0 <= i < outcomes@.len()) || outcomes@[i]),
    {
        let t = HidTransport { outcomes, cursor: 0, log: Vec::new() };
        assert(t.log() =~= Seq::<Seq<u8>>::empty());
        t
    }

    /// A transport on which every write succeeds.
    pub fn flawless() -> (t: HidTransport)
        ensures
            t.log() == Seq::<Seq<u8>>::empty(),
            forall|i: int| #[trigger] t.outcome(i),
    {
        HidTransport::new(Vec::new())
    }

    /// Hand one report to the transport. The attempt is always recorded;
    /// the result is the next scripted outcome.
    pub fn send_report(&mut self, data: Vec<u8>) -> (r: Result<(), TransportError>)
        ensures
            final(self).log() == old(self).log().push(data@),
            r == if old(self).outcome(0) {
                Ok::<(), TransportError>(())
            } else {
                Err::<(), TransportError>(TransportError::Disabled)
            },
            forall|i: int| 0 <= i ==> #[trigger] final(self).outcome(i) == old(self).outcome(i + 1),
    {
        let ghost dview = data@;
        let ok = if self.cursor < self.outcomes.len() {
            let v = self.outcomes[self.cursor];
            self.cursor = self.cursor + 1;
            v
        } else {
            true
        };
        self.log.push(data);
        proof {
            assert(self.log() =~= old(self).log().push(dview));
        }
        if ok {
            Ok(())
        } else {
            Err(TransportError::Disabled)
        }
    }

    /// How many writes have been attempted.
    pub fn log_len(&self) -> (n: usize)
        ensures
            n == self.log().len(),
    {
        self.log.len()
    }

    /// One attempted report, for inspection.
    pub fn log_at(&self, i: usize) -> (r: &Vec<u8>)
        requires
            i < self.log().len(),
        ensures
            r@ == self.log()[i as int],
    {
        &self.log[i]
    }
}

} // verus!
