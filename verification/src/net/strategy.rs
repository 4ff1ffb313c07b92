//! The ports of one scan, in the order in which they are visited.

use vstd::prelude::*;
use rand::rngs::ThreadRng;
use rand::seq::SliceRandom;
use crate::config::base::{PortRange, ScanOrder};
use crate::net::coprime::gcd;
use crate::net::port::{
    ascending, covers_range, lemma_ascending_covers_range, stride_in_band, traversal, RangeIterator,
};

verus! {

/// `rand::seq::SliceRandom::shuffle` on the ports of a vector. It only swaps
/// items, so the vector holds afterwards what it held before, each port as
/// often as before. The order depends on chance and nothing is claimed of
/// it.
#[verifier::external_body]
pub(crate) fn shuffle(rng: &mut ThreadRng, ports: &mut Vec<u16>)
    ensures
        final(ports)@.to_multiset() == old(ports)@.to_multiset(),
{
    ports.shuffle(rng)
}

/// The ports of `start ..= end` in ascending order.
pub fn serial_ports(start: u16, end: u16) -> (ports: Vec<u16>)
    requires
        start <= end,
    ensures
        ports@ == ascending(start as int, end - start + 1),
{
    let mut ports: Vec<u16> = Vec::new();
    let mut port: u16 = start;
    while port < end
        invariant
            start <= port <= end,
            ports@ == ascending(start as int, port - start),
        decreases end - port,
    {
        ports.push(port);
        port += 1;
        assert(ports@ =~= ascending(start as int, port - start));
    }
    ports.push(end);
    assert(ports@ =~= ascending(start as int, end - start + 1));
    ports
}

/// What a scattered traversal of the `n` ports from `start` can be: the
/// traversal by some first offset and some stride that a random draw gives.
pub open spec fn is_scattered(ports: Seq<u16>, start: int, n: int) -> bool {
    exists|first: int, step: int|
        {
            &&& 0 <= first < n
            &&& 0 <= step < n
            &&& gcd(n as nat, step as nat) == 1
            &&& stride_in_band(n, step)
            &&& ports == #[trigger] traversal(start, n, first, step)
        }
}

/// The ports of a scan in the order in which they are visited. The order is
/// fixed when the value is made: reading it twice gives the same ports.
#[derive(Debug)]
pub struct PortStrategy {
    ports: Vec<u16>,
}

impl View for PortStrategy {
    type V = Seq<u16>;

    closed spec fn view(&self) -> Seq<u16> {
        self.ports@
    }
}

impl PortStrategy {
    /// Fixes the ports of a scan and their order. A list of ports, where
    /// there is one, is taken before the range: as given for the serial
    /// order, shuffled for the random one. A range is walked upwards for
    /// the serial order, and by a scattered traversal for the random one.
    pub fn pick(range: &Option<PortRange>, ports: Option<Vec<u16>>, order: ScanOrder) -> (strategy:
        Self)
        requires
            ports.is_some() || (range.is_some() && range.unwrap().wf()),
        ensures
            ports.is_some() && order == ScanOrder::Serial ==> strategy@ == ports.unwrap()@,
            ports.is_some() && order == ScanOrder::Random ==> strategy@.to_multiset()
                == ports.unwrap()@.to_multiset(),
            ports.is_none() && order == ScanOrder::Serial ==> strategy@ == ascending(
                range.unwrap().start as int,
                range.unwrap().count(),
            ),
            ports.is_none() ==> covers_range(
                strategy@,
                range.unwrap().start as int,
                range.unwrap().count(),
            ) && strategy@.to_multiset() == ascending(
                range.unwrap().start as int,
                range.unwrap().count(),
            ).to_multiset(),
            ports.is_none() && order == ScanOrder::Random ==> {
                &&& is_scattered(strategy@, range.unwrap().start as int, range.unwrap().count())
                &&& range.unwrap().count() >= 8 ==> strategy@ != ascending(
                    range.unwrap().start as int,
                    range.unwrap().count(),
                )
            },
    {
        match ports {
            Some(list) => {
                match order {
                    ScanOrder::Serial => PortStrategy { ports: list },
                    ScanOrder::Random => {
                        let mut rng = rand::thread_rng();
                        let mut list = list;
                        shuffle(&mut rng, &mut list);
                        PortStrategy { ports: list }
                    },
                }
            },
            None => {
                let range: PortRange = (*range).unwrap();
                match order {
                    ScanOrder::Serial => {
                        proof {
                            lemma_ascending_covers_range(range.start as int, range.count());
                        }
                        PortStrategy { ports: serial_ports(range.start, range.end) }
                    },
                    ScanOrder::Random => {
                        let it = RangeIterator::new(range.start as u32, range.end as u32);
                        proof {
                            it.lemma_remaining_len();
                        }
                        PortStrategy { ports: it.collect() }
                    },
                }
            },
        }
    }

    /// The ports in the order in which the scan visits them.
    pub fn order(&self) -> (ports: Vec<u16>)
        ensures
            ports@ == self@,
    {
        let ports = self.ports.clone();
        assert(ports@ =~= self.ports@);
        ports
    }
}

} // verus!
