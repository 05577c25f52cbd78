//! Phase timings of an analysis and their text rendering.
use vstd::prelude::*;

use std::time::{Duration, Instant};

use crate::text::{owned, string_from_chars};

verus! {

/// Declares `std::time::Instant` to the verifier.
#[verifier::external_type_specification]
#[verifier::external_body]
pub struct ExInstant(Instant);

/// `Instant::now`: the current time, as the machine's clock has it.
#[verifier::external_body]
fn now() -> Instant {
    Instant::now()
}

/// `Instant::elapsed`: the time since `start`.
#[verifier::external_body]
fn elapsed(start: &Instant) -> Duration {
    start.elapsed()
}

/// `Duration::as_nanos`: a duration in nanoseconds.
#[verifier::external_body]
fn duration_nanos(d: &Duration) -> u128 {
    d.as_nanos()
}

/// One timed phase.
#[derive(Debug, Clone)]
pub struct TimingPhase {
    pub name: String,
    pub nanos: u128,
}

/// The timings of an analysis: the total and each phase in order.
#[derive(Debug, Clone)]
pub struct TimingReport {
    pub total_nanos: u128,
    pub phases: Vec<TimingPhase>,
}

/// Records phase timings.
pub struct TimingRecorder {
    started_at: Instant,
    phases: Vec<TimingPhase>,
}

impl TimingRecorder {
    /// The names of the phases recorded so far.
    pub closed spec fn phase_names(&self) -> Seq<Seq<char>> {
        Seq::new(self.phases@.len(), |k: int| self.phases@[k].name@)
    }

    /// A recorder started now, without phases.
    pub fn start() -> (r: TimingRecorder)
        ensures
            r.phase_names() == Seq::<Seq<char>>::empty(),
    {
        let r = TimingRecorder { started_at: now(), phases: Vec::new() };
        proof {
            assert(r.phase_names() =~= Seq::<Seq<char>>::empty());
        }
        r
    }

    /// The start of a phase.
    pub fn begin(&self) -> Instant {
        now()
    }

    /// Records a phase that began at `started`.
    pub fn end(&mut self, name: &str, started: &Instant)
        ensures
            final(self).phase_names() == old(self).phase_names().push(name@),
    {
        let d = elapsed(started);
        let nanos = duration_nanos(&d);
        self.phases.push(TimingPhase { name: owned(name), nanos });
        proof {
            assert(final(self).phase_names() =~= old(self).phase_names().push(name@));
        }
    }

    /// The timings recorded, with the total time since the start.
    pub fn finish(self) -> (r: TimingReport)
        ensures
            Seq::new(r.phases@.len(), |k: int| r.phases@[k].name@) == self.phase_names(),
    {
        let d = elapsed(&self.started_at);
        let total_nanos = duration_nanos(&d);
        TimingReport { total_nanos, phases: self.phases }
    }
}


/// The timing text from each duration as written out: a header, the total
/// and each phase on its own line.
pub open spec fn render_spec(total: Seq<char>, phases: Seq<(Seq<char>, Seq<char>)>) -> Seq<char>
    decreases phases.len(),
{
    if phases.len() == 0 {
        "timing:\n  total: "@ + total + "\n"@
    } else {
        render_spec(total, phases.drop_last()) + "  "@ + phases.last().0 + ": "@ + phases.last().1
            + "\n"@
    }
}

fn push_str(out: &mut Vec<char>, s: &str)
    ensures
        final(out)@ == old(out)@ + s@,
{
    let v = crate::text::chars_of(s);
    let mut k: usize = 0;
    while k < v.len()
        invariant
            0 <= k <= v@.len(),
            out@ == old(out)@ + v@.subrange(0, k as int),
        decreases v@.len() - k,
    {
        out.push(v[k]);
        k = k + 1;
        proof {
            assert(out@ =~= old(out)@ + v@.subrange(0, k as int));
        }
    }
    proof {
        assert(v@.subrange(0, v@.len() as int) =~= v@);
    }
}


impl TimingReport {
    /// The phases as names with their durations as written out.
    pub open spec fn phase_lines(&self, durations: Seq<String>) -> Seq<(Seq<char>, Seq<char>)> {
        Seq::new(self.phases@.len(), |k: int| (self.phases@[k].name@, durations[k]@))
    }

    /// The timings as text, given the total and each phase's duration as
    /// written out (in the order of the phases).
    pub fn render_text(&self, total: &str, durations: &Vec<String>) -> (r: String)
        requires
            durations@.len() == self.phases@.len(),
        ensures
            r@ == render_spec(total@, self.phase_lines(durations@)),
    {
        let mut out: Vec<char> = Vec::new();
        push_str(&mut out, "timing:\n  total: ");
        push_str(&mut out, total);
        push_str(&mut out, "\n");
        proof {
            assert(out@ =~= render_spec(total@, self.phase_lines(durations@).subrange(0, 0)));
        }
        let mut k: usize = 0;
        while k < self.phases.len()
            invariant
                0 <= k <= self.phases@.len(),
                durations@.len() == self.phases@.len(),
                out@ == render_spec(total@, self.phase_lines(durations@).subrange(0, k as int)),
            decreases self.phases@.len() - k,
        {
            push_str(&mut out, "  ");
            push_str(&mut out, self.phases[k].name.as_str());
            push_str(&mut out, ": ");
            push_str(&mut out, durations[k].as_str());
            push_str(&mut out, "\n");
            proof {
                let pv = self.phase_lines(durations@);
                assert(pv.subrange(0, k + 1).drop_last() =~= pv.subrange(0, k as int));
                assert(pv.subrange(0, k + 1).last() == (self.phases@[k as int].name@, durations@[k as int]@));
                assert(out@ =~= render_spec(total@, pv.subrange(0, k + 1)));
            }
            k = k + 1;
        }
        proof {
            assert(self.phase_lines(durations@).subrange(0, self.phases@.len() as int) =~= self.phase_lines(durations@));
        }
        string_from_chars(out.as_slice())
    }
}

} // verus!
