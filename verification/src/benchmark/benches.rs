//! Named timers, and a summary of how long each of them ran.

use vstd::prelude::*;
use vstd::string::{StrSliceExecFns, StringExecFns};
use std::time::{Duration, Instant};

verus! {

/// `std::time::Instant`: a point in time on the clock of the system.
/// Nothing is known of it.
#[verifier::external_type_specification]
#[verifier::external_body]
pub struct ExInstant(Instant);

/// `Instant::now` reads the clock. Nothing is claimed of the time read.
pub assume_specification[ Instant::now ]() -> (now: Instant)
;

/// `Instant::saturating_duration_since` gives the time from `earlier` to
/// `later`, and no time where `earlier` is the later one. Nothing is
/// claimed of its length.
pub assume_specification[ Instant::saturating_duration_since ](
    later: &Instant,
    earlier: Instant,
) -> (elapsed: Duration)
;

/// `Duration::as_secs_f32`, written by `format!`: the seconds of a span of
/// time as a decimal number. The span comes from the clock, so nothing is
/// claimed of the text.
#[verifier::external_body]
pub(crate) fn seconds_text(runtime: Duration) -> (seconds: String) {
    format!("{}", runtime.as_secs_f32())
}

/// The width to which the name and the seconds of a line are filled.
pub const COLUMN_WIDTH: usize = 10;

/// A text filled with spaces at its end up to `width` characters. A longer
/// text stays as it is.
pub open spec fn padded(text: Seq<char>, width: nat) -> Seq<char> {
    if text.len() >= width {
        text
    } else {
        text + Seq::new((width - text.len()) as nat, |i: int| ' ')
    }
}

/// The line of the summary for a timer of the given name that ran for the
/// given seconds.
pub open spec fn timer_line(name: Seq<char>, seconds: Seq<char>) -> Seq<char> {
    seq!['\n'] + padded(name, COLUMN_WIDTH as nat) + " | "@ + padded(seconds, COLUMN_WIDTH as nat)
        + seq!['s']
}

/// Adds to `line` a text and the spaces that fill it up to the width of a
/// column.
fn push_padded(line: &mut String, text: &str)
    ensures
        final(line)@ == old(line)@ + padded(text@, COLUMN_WIDTH as nat),
{
    proof {
        reveal_strlit(" ");
    }
    let ghost before = line@;
    line.append(text);
    let mut width: usize = text.unicode_len();
    assert(line@ =~= before + (text@ + Seq::new(0, |i: int| ' ')));
    while width < COLUMN_WIDTH
        invariant
            text@.len() <= width,
            width <= COLUMN_WIDTH || width == text@.len(),
            " "@ == seq![' '],
            line@ == before + (text@ + Seq::new((width - text@.len()) as nat, |i: int| ' ')),
        decreases COLUMN_WIDTH - width,
    {
        line.append(" ");
        width += 1;
        assert(line@ =~= before + (text@ + Seq::new((width - text@.len()) as nat, |i: int| ' ')));
    }
    proof {
        if text@.len() >= COLUMN_WIDTH {
            assert(text@ + Seq::new(0, |i: int| ' ') =~= text@);
        }
    }
}

/// The line of the summary for a timer of the given name that ran for the
/// given seconds.
pub fn write_timer_line(name: &str, seconds: &str) -> (line: String)
    ensures
        line@ == timer_line(name@, seconds@),
{
    proof {
        reveal_strlit("\n");
        reveal_strlit(" | ");
        reveal_strlit("s");
    }
    let mut line = String::from_str("\n");
    push_padded(&mut line, name);
    line.append(" | ");
    push_padded(&mut line, seconds);
    line.append("s");
    assert(line@ =~= timer_line(name@, seconds@));
    line
}

/// The head of the summary.
pub const SUMMARY_HEAD: &'static str = "\n Azula Benchmark Summary!\n";

/// A timer with a name. It runs from the time it is made to the time it
/// is ended.
#[derive(Debug, Clone, Copy)]
pub struct NamedTimer {
    name: &'static str,
    start: Option<Instant>,
    end: Option<Instant>,
}

impl NamedTimer {
    /// The name of the timer.
    pub closed spec fn name(self) -> Seq<char> {
        self.name@
    }

    /// When the timer was started.
    pub closed spec fn started_at(self) -> Option<Instant> {
        self.start
    }

    /// When the timer was ended, if it was.
    pub closed spec fn ended_at(self) -> Option<Instant> {
        self.end
    }

    /// Whether the timer has run from a start to an end.
    pub open spec fn is_complete(self) -> bool {
        self.started_at().is_some() && self.ended_at().is_some()
    }

    /// A timer that starts now.
    pub fn start(name: &'static str) -> (timer: Self)
        ensures
            timer.name() == name@,
            timer.started_at().is_some(),
            timer.ended_at().is_none(),
    {
        NamedTimer { name, start: Some(Instant::now()), end: None }
    }

    /// Ends the timer now.
    pub fn end(&mut self)
        ensures
            final(self).name() == old(self).name(),
            final(self).started_at() == old(self).started_at(),
            final(self).ended_at().is_some(),
    {
        self.end = Some(Instant::now());
    }
}

/// The number of timers that have run from a start to an end.
pub open spec fn complete_count(timers: Seq<NamedTimer>) -> nat
    decreases timers.len(),
{
    if timers.len() == 0 {
        0
    } else {
        complete_count(timers.drop_last()) + if timers.last().is_complete() {
            1nat
        } else {
            0nat
        }
    }
}

/// The summary of the timers, given the seconds that each timer that has
/// run from a start to an end has taken: the head, and a line for each of
/// these timers in their order.
pub open spec fn summary_text(timers: Seq<NamedTimer>, seconds: Seq<Seq<char>>) -> Seq<char>
    decreases timers.len(),
{
    if timers.len() == 0 {
        SUMMARY_HEAD@
    } else if timers.last().is_complete() && seconds.len() > 0 {
        summary_text(timers.drop_last(), seconds.drop_last()) + timer_line(
            timers.last().name(),
            seconds.last(),
        )
    } else {
        summary_text(timers.drop_last(), seconds)
    }
}

/// The timers of a run, in the order in which they were handed in.
#[derive(Debug)]
pub struct Benchmark {
    named_timers: Vec<NamedTimer>,
}

impl View for Benchmark {
    type V = Seq<NamedTimer>;

    closed spec fn view(&self) -> Seq<NamedTimer> {
        self.named_timers@
    }
}

impl Benchmark {
    /// No timers.
    pub fn init() -> (benchmark: Self)
        ensures
            benchmark@.len() == 0,
    {
        Benchmark { named_timers: Vec::new() }
    }

    /// Hands in a timer.
    pub fn push(&mut self, timer: NamedTimer)
        ensures
            final(self)@ == old(self)@.push(timer),
    {
        self.named_timers.push(timer)
    }

    /// The summary: its head, and then one line for each timer that has
    /// run from a start to an end, in the order in which the timers were
    /// handed in. A line holds the name of the timer and the seconds that
    /// it ran. A timer that was never ended has no line.
    pub fn summary(&self) -> (summary: String)
        ensures
            exists|seconds: Seq<Seq<char>>|
                seconds.len() == complete_count(self@) && summary@ == #[trigger] summary_text(
                    self@,
                    seconds,
                ),
    {
        let mut summary = String::from_str(SUMMARY_HEAD);
        let ghost mut seconds: Seq<Seq<char>> = Seq::empty();
        let mut i: usize = 0;
        assert(self@.take(0) =~= Seq::<NamedTimer>::empty());
        while i < self.named_timers.len()
            invariant
                0 <= i <= self@.len(),
                self@ == self.named_timers@,
                seconds.len() == complete_count(self@.take(i as int)),
                summary@ == summary_text(self@.take(i as int), seconds),
            decreases self@.len() - i,
        {
            let timer = &self.named_timers[i];
            proof {
                assert(self@.take(i + 1).drop_last() =~= self@.take(i as int));
                assert(self@.take(i + 1).last() == *timer);
            }
            match (timer.start, timer.end) {
                (Some(start), Some(end)) => {
                    let runtime = end.saturating_duration_since(start);
                    let took = seconds_text(runtime);
                    let line = write_timer_line(timer.name, took.as_str());
                    proof {
                        let more = seconds.push(took@);
                        assert(more.drop_last() =~= seconds);
                        assert(more.last() == took@);
                        seconds = more;
                    }
                    summary.append(line.as_str());
                },
                _ => {},
            }
            i += 1;
        }
        assert(self@.take(self@.len() as int) =~= self@);
        summary
    }
}

} // verus!
