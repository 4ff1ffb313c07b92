//! The failures that a run keeps: each once, in the order in which they
//! came, and found again without a search through all of them.
//!
//! The failures are chained by the host that they name. A failure is
//! looked for only among those of its chain.

use vstd::prelude::*;
use crate::net::ip::IpAddress;
use crate::scanner::probe::{ErrorView, ScanError};

verus! {

/// The number of chains.
pub const ERROR_CHAINS: usize = 1024;

/// The failures as values.
pub open spec fn error_views(errors: Seq<ScanError>) -> Seq<ErrorView> {
    errors.map_values(|error: ScanError| error@)
}

/// The chain that a failure belongs to: chosen by the host that it names.
pub open spec fn chain_of(error: ErrorView) -> int {
    match error.host {
        None => 0,
        Some(IpAddress::V4(number)) => number as int % (ERROR_CHAINS as int),
        Some(IpAddress::V6(number)) => number as int % (ERROR_CHAINS as int),
    }
}

/// The chain that a failure belongs to.
fn chain(error: &ScanError) -> (at: usize)
    ensures
        at == chain_of(error@),
        at < ERROR_CHAINS,
{
    match error.host {
        None => 0,
        Some(IpAddress::V4(number)) => (number % (ERROR_CHAINS as u32)) as usize,
        Some(IpAddress::V6(number)) => (number % (ERROR_CHAINS as u128)) as usize,
    }
}

/// Failures in the order in which they were kept, each once.
#[derive(Debug)]
pub struct ErrorLog {
    errors: Vec<ScanError>,
    heads: Vec<usize>,
    links: Vec<usize>,
}

impl View for ErrorLog {
    type V = Seq<ErrorView>;

    closed spec fn view(&self) -> Seq<ErrorView> {
        error_views(self.errors@)
    }
}

impl ErrorLog {
    /// No failure is kept twice. Each chain begins at the failure of the
    /// chain that was kept last, and each failure is linked to the one of
    /// its chain that was kept before it.
    pub closed spec fn wf(self) -> bool {
        &&& self@.no_duplicates()
        &&& self.heads@.len() == ERROR_CHAINS
        &&& self.links@.len() == self.errors@.len()
        &&& forall|at: int|
            0 <= at < ERROR_CHAINS ==> {
                &&& (#[trigger] self.heads@[at]) <= self.errors@.len()
                &&& self.heads@[at] > 0 ==> chain_of(self@[self.heads@[at] - 1]) == at
                &&& forall|j: int|
                    self.heads@[at] <= j < self.errors@.len() ==> chain_of(#[trigger] self@[j])
                        != at
            }
        &&& forall|i: int|
            0 <= i < self.errors@.len() ==> {
                &&& (#[trigger] self.links@[i]) <= i
                &&& self.links@[i] > 0 ==> chain_of(self@[self.links@[i] - 1]) == chain_of(self@[i])
                &&& forall|j: int|
                    self.links@[i] <= j < i ==> chain_of(#[trigger] self@[j]) != chain_of(self@[i])
            }
    }

    /// No failures.
    pub fn new() -> (log: Self)
        ensures
            log.wf(),
            log@.len() == 0,
    {
        let mut heads: Vec<usize> = Vec::new();
        while heads.len() < ERROR_CHAINS
            invariant
                heads@.len() <= ERROR_CHAINS,
                forall|at: int| 0 <= at < heads@.len() ==> heads@[at] == 0,
            decreases ERROR_CHAINS - heads@.len(),
        {
            heads.push(0);
        }
        let log = ErrorLog { errors: Vec::new(), heads, links: Vec::new() };
        assert(log@ =~= Seq::<ErrorView>::empty());
        log
    }

    /// The number of failures kept.
    pub fn len(&self) -> (len: usize)
        ensures
            len == self@.len(),
    {
        self.errors.len()
    }

    /// Whether a failure is kept.
    pub fn contains(&self, error: &ScanError) -> (found: bool)
        requires
            self.wf(),
        ensures
            found == self@.contains(error@),
    {
        let at: usize = chain(error);
        let mut current: usize = self.heads[at];
        while current > 0
            invariant
                self.wf(),
                at == chain_of(error@),
                0 <= at < ERROR_CHAINS,
                current <= self.errors@.len(),
                current > 0 ==> chain_of(self@[current - 1]) == at,
                forall|j: int| current <= j < self.errors@.len() ==> #[trigger] self@[j] != error@,
            decreases current,
        {
            let index: usize = current - 1;
            if self.errors[index].same_as(error) {
                assert(self@[index as int] == error@);
                return true;
            }
            let before: usize = self.links[index];
            proof {
                assert forall|j: int| before <= j < self.errors@.len() implies #[trigger] self@[j]
                    != error@ by {
                    if j < index {
                        assert(chain_of(self@[j]) != chain_of(self@[index as int]));
                    }
                }
            }
            current = before;
        }
        false
    }

    /// Keeps a failure that is not kept yet.
    pub fn push(&mut self, error: ScanError)
        requires
            old(self).wf(),
            !old(self)@.contains(error@),
        ensures
            final(self).wf(),
            final(self)@ == old(self)@.push(error@),
    {
        let at: usize = chain(&error);
        let count: usize = self.errors.len();
        let ghost before = self@;
        self.links.push(self.heads[at]);
        self.errors.push(error);
        self.heads[at] = self.errors.len();
        proof {
            let after = self@;
            assert(after =~= before.push(error@));
            assert forall|i: int, j: int| 0 <= i < after.len() && 0 <= j < after.len() && i
                != j implies after[i] != after[j] by {
                if i < count && j < count {
                    assert(before[i] != before[j]);
                } else if i < count {
                    assert(before[i] != error@);
                } else {
                    assert(before[j] != error@);
                }
            }
            assert forall|chain: int| 0 <= chain < ERROR_CHAINS implies {
                &&& (#[trigger] self.heads@[chain]) <= self.errors@.len()
                &&& self.heads@[chain] > 0 ==> chain_of(after[self.heads@[chain] - 1]) == chain
                &&& forall|j: int|
                    self.heads@[chain] <= j < self.errors@.len() ==> chain_of(#[trigger] after[j])
                        != chain
            } by {
                if chain != at {
                    assert(self.heads@[chain] == old(self).heads@[chain]);
                    if self.heads@[chain] > 0 {
                        assert(after[self.heads@[chain] - 1] == before[self.heads@[chain] - 1]);
                    }
                    assert forall|j: int|
                        self.heads@[chain] <= j < self.errors@.len() implies chain_of(
                        #[trigger] after[j],
                    ) != chain by {
                        if j < count {
                            assert(after[j] == before[j]);
                        }
                    }
                }
            }
            assert forall|i: int| 0 <= i < self.errors@.len() implies {
                &&& (#[trigger] self.links@[i]) <= i
                &&& self.links@[i] > 0 ==> chain_of(after[self.links@[i] - 1]) == chain_of(after[i])
                &&& forall|j: int|
                    self.links@[i] <= j < i ==> chain_of(#[trigger] after[j]) != chain_of(after[i])
            } by {
                if i < count {
                    assert(self.links@[i] == old(self).links@[i]);
                    assert(after[i] == before[i]);
                    if self.links@[i] > 0 {
                        assert(after[self.links@[i] - 1] == before[self.links@[i] - 1]);
                    }
                    assert forall|j: int| self.links@[i] <= j < i implies chain_of(
                        #[trigger] after[j],
                    ) != chain_of(after[i]) by {
                        assert(after[j] == before[j]);
                    }
                } else {
                    assert(self.links@[i] == old(self).heads@[at as int]);
                    if self.links@[i] > 0 {
                        assert(after[self.links@[i] - 1] == before[self.links@[i] - 1]);
                    }
                    assert forall|j: int| self.links@[i] <= j < i implies chain_of(
                        #[trigger] after[j],
                    ) != chain_of(after[i]) by {
                        assert(after[j] == before[j]);
                    }
                }
            }
        }
    }

    /// The failures in the order in which they were kept.
    pub fn into_vec(self) -> (errors: Vec<ScanError>)
        ensures
            error_views(errors@) == self@,
    {
        self.errors
    }
}

/// A well-formed log keeps no failure twice.
pub proof fn lemma_log_keeps_each_once(log: ErrorLog)
    requires
        log.wf(),
    ensures
        log@.no_duplicates(),
{
}

} // verus!
