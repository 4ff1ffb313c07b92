//! The probe of one target: how often it is attempted, and what is
//! reported of it in the end.
//!
//! The attempts themselves are made by the caller, who connects or sends
//! and waits. After each attempt the caller says how it went, and is told
//! whether to try again or what the probe has found.

use vstd::prelude::*;
use crate::net::ip::{IpAddress, Socket};
use crate::support::text::{contains, has_substring, lowercase, to_lowercase};

verus! {

/// The mark by which the system says that no more descriptors can be
/// opened, in lower case.
pub const OPEN_FILES_MARK: &'static str = "too many open files";

/// Whether a failure, given in lower case, says that the system has run
/// out of descriptors.
pub fn mentions_open_files(lowered: &str) -> (found: bool)
    ensures
        found == has_substring(lowered@, OPEN_FILES_MARK@),
{
    contains(lowered, OPEN_FILES_MARK)
}

/// Whether a failure ends the whole scan: its words, in whatever case, say
/// that too many files are open.
pub open spec fn is_fatal(reason: Seq<char>) -> bool {
    has_substring(lowercase(reason), OPEN_FILES_MARK@)
}

/// Whether a failure ends the whole scan.
pub fn fatal_failure(reason: &str) -> (fatal: bool)
    ensures
        fatal == is_fatal(reason@),
{
    let lowered = to_lowercase(reason);
    mentions_open_files(lowered.as_str())
}

/// A failure recorded for the caller: what the system said, and the host
/// it was said of, where the failure is one of a connection to it.
#[derive(Debug)]
pub struct ScanError {
    pub reason: String,
    pub host: Option<IpAddress>,
}

/// A recorded failure as a value.
pub struct ErrorView {
    pub reason: Seq<char>,
    pub host: Option<IpAddress>,
}

impl View for ScanError {
    type V = ErrorView;

    open spec fn view(&self) -> ErrorView {
        ErrorView { reason: self.reason@, host: self.host }
    }
}

impl ScanError {
    /// Whether two recorded failures say the same of the same host.
    pub fn same_as(&self, other: &ScanError) -> (same: bool)
        ensures
            same == (self@ == other@),
    {
        let same_host = match (self.host, other.host) {
            (Some(a), Some(b)) => a == b,
            (None, None) => true,
            _ => false,
        };
        same_host && self.reason == other.reason
    }
}

/// How one attempt on a target went.
#[derive(Debug)]
pub enum AttemptOutcome {
    /// The connection was made, or bytes came back.
    Answered,
    /// The attempt failed; `timed_out` says whether it did so by running
    /// out of time.
    Failed { reason: String, timed_out: bool },
}

/// The course of an attempt as a value.
pub enum OutcomeView {
    Answered,
    Failed { reason: Seq<char>, timed_out: bool },
}

impl View for AttemptOutcome {
    type V = OutcomeView;

    open spec fn view(&self) -> OutcomeView {
        match self {
            AttemptOutcome::Answered => OutcomeView::Answered,
            AttemptOutcome::Failed { reason, timed_out } => OutcomeView::Failed {
                reason: reason@,
                timed_out: *timed_out,
            },
        }
    }
}

/// What a probe has found of its target.
#[derive(Debug)]
pub enum ProbeResult {
    /// The target answered.
    Open(Socket),
    /// Every attempt ran out of time without an answer: the target is
    /// closed or filtered, which is no failure.
    Closed(Socket),
    /// The probe failed for good.
    Failed(ScanError),
    /// The system has run out of descriptors: the scan cannot go on.
    Fatal(ScanError),
}

/// The finding of a probe as a value.
pub enum ResultView {
    Open(Socket),
    Closed(Socket),
    Failed(ErrorView),
    Fatal(ErrorView),
}

impl View for ProbeResult {
    type V = ResultView;

    open spec fn view(&self) -> ResultView {
        match self {
            ProbeResult::Open(socket) => ResultView::Open(*socket),
            ProbeResult::Closed(socket) => ResultView::Closed(*socket),
            ProbeResult::Failed(error) => ResultView::Failed(error@),
            ProbeResult::Fatal(error) => ResultView::Fatal(error@),
        }
    }
}

/// What the caller does after an attempt.
#[derive(Debug)]
pub enum ProbeStep {
    /// Attempt the target once more.
    Retry,
    /// The probe is over, with this finding.
    Done(ProbeResult),
}

/// The step after an attempt as a value.
pub enum StepView {
    Retry,
    Done(ResultView),
}

impl View for ProbeStep {
    type V = StepView;

    open spec fn view(&self) -> StepView {
        match self {
            ProbeStep::Retry => StepView::Retry,
            ProbeStep::Done(result) => StepView::Done(result@),
        }
    }
}

/// The probe of one target. It counts the attempts made and ends after
/// the first answer, after a failure that no retry can mend, or after
/// `tries` attempts.
#[derive(Debug, Clone, Copy, PartialEq, Eq, Structural)]
pub struct Probe {
    pub socket: Socket,
    pub udp: bool,
    pub tries: u8,
    pub attempts: u8,
    pub finished: bool,
}

impl Probe {
    /// A probe allows at least one attempt; one that is not over has made
    /// fewer attempts than it allows, and one that is over has made no
    /// more.
    pub open spec fn wf(self) -> bool {
        &&& self.tries >= 1
        &&& self.attempts <= self.tries
        &&& !self.finished ==> self.attempts < self.tries
    }

    /// The probe after one more attempt that calls for another.
    pub open spec fn retried(self) -> Probe {
        Probe { attempts: (self.attempts + 1) as u8, ..self }
    }

    /// The probe after the attempt that ended it.
    pub open spec fn ended(self) -> Probe {
        Probe { attempts: (self.attempts + 1) as u8, finished: true, ..self }
    }

    /// The probe after an attempt that went as `outcome` says, and the step
    /// that follows; `fatal` says whether the failure, if it is one, ends
    /// the whole scan.
    ///
    /// Over TCP an answer opens the target; a fatal failure ends the probe
    /// at once; any other failure is tried again until the last attempt,
    /// whose failure is recorded with the host. Over UDP an answer opens
    /// the target; an attempt that ran out of time is tried again until
    /// the last one, after which the target is closed; any other failure
    /// is recorded at once.
    pub open spec fn step(self, outcome: OutcomeView, fatal: bool) -> (Probe, StepView) {
        match outcome {
            OutcomeView::Answered => (self.ended(), StepView::Done(ResultView::Open(self.socket))),
            OutcomeView::Failed { reason, timed_out } => {
                if !self.udp {
                    let error = ErrorView { reason, host: Some(self.socket.ip) };
                    if fatal {
                        (self.ended(), StepView::Done(ResultView::Fatal(error)))
                    } else if self.attempts + 1 == self.tries {
                        (self.ended(), StepView::Done(ResultView::Failed(error)))
                    } else {
                        (self.retried(), StepView::Retry)
                    }
                } else if timed_out {
                    if self.attempts + 1 == self.tries {
                        (self.ended(), StepView::Done(ResultView::Closed(self.socket)))
                    } else {
                        (self.retried(), StepView::Retry)
                    }
                } else {
                    let error = ErrorView { reason, host: None };
                    (self.ended(), StepView::Done(ResultView::Failed(error)))
                }
            },
        }
    }

    /// The probe after an attempt that went as `outcome` says, and the step
    /// that follows. A failure ends the whole scan where its words say
    /// that too many files are open.
    pub open spec fn spec_attempt(self, outcome: OutcomeView) -> (Probe, StepView) {
        self.step(
            outcome,
            match outcome {
                OutcomeView::Answered => false,
                OutcomeView::Failed { reason, timed_out } => is_fatal(reason),
            },
        )
    }

    /// A probe of `socket` that allows `tries` attempts, and one attempt
    /// where `tries` is zero.
    pub fn new(socket: Socket, tries: u8, udp: bool) -> (probe: Self)
        ensures
            probe.wf(),
            probe == (Probe {
                socket,
                udp,
                tries: if tries == 0 {
                    1u8
                } else {
                    tries
                },
                attempts: 0,
                finished: false,
            }),
    {
        Probe { socket, udp, tries: if tries == 0 {
            1
        } else {
            tries
        }, attempts: 0, finished: false }
    }

    /// Whether the probe is over.
    pub fn is_finished(&self) -> (finished: bool)
        ensures
            finished == self.finished,
    {
        self.finished
    }

    /// The number of attempts made so far.
    pub fn attempts(&self) -> (attempts: u8)
        ensures
            attempts == self.attempts,
    {
        self.attempts
    }

    /// Takes note of how an attempt went and says what follows; `fatal`
    /// says whether the failure, if it is one, ends the whole scan.
    pub fn attempt_with(&mut self, outcome: AttemptOutcome, fatal: bool) -> (step: ProbeStep)
        requires
            old(self).wf(),
            !old(self).finished,
        ensures
            final(self).wf(),
            (*final(self), step@) == old(self).step(outcome@, fatal),
    {
        let last: bool = self.attempts + 1 == self.tries;
        self.attempts = self.attempts + 1;
        match outcome {
            AttemptOutcome::Answered => {
                self.finished = true;
                ProbeStep::Done(ProbeResult::Open(self.socket))
            },
            AttemptOutcome::Failed { reason, timed_out } => {
                if !self.udp {
                    if fatal {
                        self.finished = true;
                        ProbeStep::Done(
                            ProbeResult::Fatal(ScanError { reason, host: Some(self.socket.ip) }),
                        )
                    } else if last {
                        self.finished = true;
                        ProbeStep::Done(
                            ProbeResult::Failed(ScanError { reason, host: Some(self.socket.ip) }),
                        )
                    } else {
                        ProbeStep::Retry
                    }
                } else if timed_out {
                    if last {
                        self.finished = true;
                        ProbeStep::Done(ProbeResult::Closed(self.socket))
                    } else {
                        ProbeStep::Retry
                    }
                } else {
                    self.finished = true;
                    ProbeStep::Done(ProbeResult::Failed(ScanError { reason, host: None }))
                }
            },
        }
    }

    /// Takes note of how an attempt went and says what follows. A failure
    /// ends the whole scan where its words say that too many files are
    /// open.
    pub fn attempt(&mut self, outcome: AttemptOutcome) -> (step: ProbeStep)
        requires
            old(self).wf(),
            !old(self).finished,
        ensures
            final(self).wf(),
            (*final(self), step@) == old(self).spec_attempt(outcome@),
    {
        let fatal: bool = match &outcome {
            AttemptOutcome::Answered => false,
            AttemptOutcome::Failed { reason, timed_out } => fatal_failure(reason.as_str()),
        };
        self.attempt_with(outcome, fatal)
    }
}

/// The steps that a probe takes when its attempts go as `outcomes` say, one
/// after the other. No outcome is read once the probe is over.
pub open spec fn steps_of(probe: Probe, outcomes: Seq<OutcomeView>) -> Seq<StepView>
    decreases outcomes.len(),
{
    if probe.finished || outcomes.len() == 0 {
        Seq::empty()
    } else {
        let (next, step) = probe.spec_attempt(outcomes[0]);
        seq![step] + steps_of(next, outcomes.drop_first())
    }
}

/// Whether an attempt failed in a way that a retry may mend: over TCP any
/// failure that is not fatal, over UDP one that ran out of time.
pub open spec fn is_passing_failure(udp: bool, outcome: OutcomeView) -> bool {
    match outcome {
        OutcomeView::Answered => false,
        OutcomeView::Failed { reason, timed_out } => if udp {
            timed_out
        } else {
            !is_fatal(reason)
        },
    }
}

/// A target whose attempts all fail is attempted exactly as often as the
/// probe allows: each attempt before the last calls for another, the last
/// one ends the probe, and no further outcome is read. Over TCP the last
/// failure is then recorded with the host; over UDP the target is closed.
pub proof fn lemma_retry_exhaustion(probe: Probe, outcomes: Seq<OutcomeView>)
    requires
        probe.wf(),
        !probe.finished,
        outcomes.len() >= probe.tries - probe.attempts,
        forall|i: int| 0 <= i < outcomes.len() ==> is_passing_failure(probe.udp, #[trigger] outcomes[i]),
    ensures
        steps_of(probe, outcomes).len() == probe.tries - probe.attempts,
        forall|i: int|
            0 <= i < probe.tries - probe.attempts - 1 ==> #[trigger] steps_of(probe, outcomes)[i]
                == StepView::Retry,
        steps_of(probe, outcomes).last() == (if probe.udp {
            StepView::Done(ResultView::Closed(probe.socket))
        } else {
            StepView::Done(
                ResultView::Failed(
                    ErrorView {
                        reason: outcomes[probe.tries - probe.attempts - 1]->reason,
                        host: Some(probe.socket.ip),
                    },
                ),
            )
        }),
    decreases probe.tries - probe.attempts,
{
    let (next, step) = probe.spec_attempt(outcomes[0]);
    let rest = outcomes.drop_first();
    let steps = steps_of(probe, outcomes);
    assert(steps == seq![step] + steps_of(next, rest));
    if probe.attempts + 1 == probe.tries {
        assert(next.finished);
        assert(steps_of(next, rest) =~= Seq::<StepView>::empty());
        assert(steps =~= seq![step]);
    } else {
        assert(step == StepView::Retry);
        assert forall|i: int| 0 <= i < rest.len() implies is_passing_failure(
            next.udp,
            #[trigger] rest[i],
        ) by {
            assert(rest[i] == outcomes[i + 1]);
        }
        lemma_retry_exhaustion(next, rest);
        let tail = steps_of(next, rest);
        assert(steps.len() == 1 + tail.len());
        assert forall|i: int| 0 <= i < probe.tries - probe.attempts - 1 implies #[trigger] steps[i]
            == StepView::Retry by {
            if i > 0 {
                assert(steps[i] == tail[i - 1]);
            }
        }
        assert(steps.last() == tail.last());
        assert(rest[next.tries - next.attempts - 1] == outcomes[probe.tries - probe.attempts - 1]);
    }
}

} // verus!
