//! From the words that name the hosts of a scan to their addresses.
//!
//! A token is tried as a CIDR block first, then looked up directly, then
//! through the configured resolver; the first of these that gives an
//! address settles it. The lookups are made by the caller. What no
//! strategy resolves is taken for the path of a file of hosts, whose lines
//! are resolved in the same way. The addresses found are kept in their
//! order, each once.

use vstd::prelude::*;
use std::str::FromStr;
use cidr_utils::cidr::IpCidr;
use crate::net::ip::{lemma_address_order, IpAddress, Socket};
use crate::support::text::{lines, lines_of, pieces, split, text_views, trim_each, trimmed};

verus! {

/// The port that a direct lookup pairs the host with.
pub const PROBE_PORT: u16 = 80;

/// The port at which a name server is asked.
pub const DNS_PORT: u16 = 53;

/// A block of addresses of one family, from `first` to `last`.
#[derive(Debug, Clone, Copy, PartialEq, Eq, Structural)]
pub struct CidrBlock {
    pub first: IpAddress,
    pub last: IpAddress,
}

impl CidrBlock {
    /// Both ends are of one family, and the last is not before the first.
    pub open spec fn wf(self) -> bool {
        match (self.first, self.last) {
            (IpAddress::V4(a), IpAddress::V4(b)) => a <= b,
            (IpAddress::V6(a), IpAddress::V6(b)) => a <= b,
            _ => false,
        }
    }

    /// The number of addresses in the block.
    pub open spec fn size(self) -> int {
        match (self.first, self.last) {
            (IpAddress::V4(a), IpAddress::V4(b)) => b - a + 1,
            (IpAddress::V6(a), IpAddress::V6(b)) => b - a + 1,
            _ => 0,
        }
    }

    /// Every address of the block, from the first to the last.
    pub open spec fn spec_addresses(self) -> Seq<IpAddress> {
        match (self.first, self.last) {
            (IpAddress::V4(a), IpAddress::V4(b)) => Seq::new(
                (b - a + 1) as nat,
                |i: int| IpAddress::V4((a + i) as u32),
            ),
            (IpAddress::V6(a), IpAddress::V6(b)) => Seq::new(
                (b - a + 1) as nat,
                |i: int| IpAddress::V6((a + i) as u128),
            ),
            _ => Seq::empty(),
        }
    }

    /// The block from `first` to `last`, where that is a block.
    pub fn new(first: IpAddress, last: IpAddress) -> (block: Option<Self>)
        ensures
            block == (if (CidrBlock { first, last }).wf() {
                Some(CidrBlock { first, last })
            } else {
                None
            }),
    {
        let ordered: bool = match (first, last) {
            (IpAddress::V4(a), IpAddress::V4(b)) => a <= b,
            (IpAddress::V6(a), IpAddress::V6(b)) => a <= b,
            _ => false,
        };
        if ordered {
            Some(CidrBlock { first, last })
        } else {
            None
        }
    }

    /// Every address of the block, from the first to the last.
    pub fn addresses(&self) -> (ips: Vec<IpAddress>)
        requires
            self.wf(),
        ensures
            ips@ == self.spec_addresses(),
            ips@.len() == self.size(),
            ips@.len() >= 1,
    {
        let mut ips: Vec<IpAddress> = Vec::new();
        match (self.first, self.last) {
            (IpAddress::V4(first), IpAddress::V4(last)) => {
                let mut current: u32 = first;
                while current < last
                    invariant
                        first <= current <= last,
                        ips@ == Seq::new(
                            (current - first) as nat,
                            |i: int| IpAddress::V4((first + i) as u32),
                        ),
                    decreases last - current,
                {
                    ips.push(IpAddress::V4(current));
                    current += 1;
                    assert(ips@ =~= Seq::new(
                        (current - first) as nat,
                        |i: int| IpAddress::V4((first + i) as u32),
                    ));
                }
                ips.push(IpAddress::V4(last));
                assert(ips@ =~= self.spec_addresses());
            },
            (IpAddress::V6(first), IpAddress::V6(last)) => {
                let mut current: u128 = first;
                while current < last
                    invariant
                        first <= current <= last,
                        ips@ == Seq::new(
                            (current - first) as nat,
                            |i: int| IpAddress::V6((first + i) as u128),
                        ),
                    decreases last - current,
                {
                    ips.push(IpAddress::V6(current));
                    current += 1;
                    assert(ips@ =~= Seq::new(
                        (current - first) as nat,
                        |i: int| IpAddress::V6((first + i) as u128),
                    ));
                }
                ips.push(IpAddress::V6(last));
                assert(ips@ =~= self.spec_addresses());
            },
            _ => {},
        }
        ips
    }
}

/// The block that `IpCidr::from_str` reads from a token, or `None` where
/// it reads none.
pub uninterp spec fn cidr_block(token: Seq<char>) -> Option<CidrBlock>;

/// `cidr::IpCidr::from_str`, with `first_address` and `last_address` of the
/// block read. A token is an address, or an address, a stroke and a prefix
/// length; an address alone is the block of that one address. What is read
/// depends on the token alone. The ends of a block are of one family, and
/// the last is the first with the bits behind the prefix set, so it is not
/// before the first.
#[verifier::external_body]
pub(crate) fn parse_cidr(token: &str) -> (block: Option<CidrBlock>)
    ensures
        block == cidr_block(token@),
        block.is_some() ==> block.unwrap().wf(),
{
    match IpCidr::from_str(token) {
        Ok(IpCidr::V4(cidr)) => Some(
            CidrBlock {
                first: IpAddress::V4(u32::from(cidr.first_address())),
                last: IpAddress::V4(u32::from(cidr.last_address())),
            },
        ),
        Ok(IpCidr::V6(cidr)) => Some(
            CidrBlock {
                first: IpAddress::V6(u128::from(cidr.first_address())),
                last: IpAddress::V6(u128::from(cidr.last_address())),
            },
        ),
        Err(_) => None,
    }
}

/// A question that only the caller can answer.
#[derive(Debug)]
pub enum Lookup {
    /// Resolve `host` together with `port` by the means of the system, and
    /// give the addresses in the order in which they come.
    Direct { host: String, port: u16 },
    /// Look `host` up through the configured resolver.
    Dns { host: String },
}

/// A question as a value.
pub enum LookupView {
    Direct { host: Seq<char>, port: u16 },
    Dns { host: Seq<char> },
}

impl View for Lookup {
    type V = LookupView;

    open spec fn view(&self) -> LookupView {
        match self {
            Lookup::Direct { host, port } => LookupView::Direct { host: host@, port: *port },
            Lookup::Dns { host } => LookupView::Dns { host: host@ },
        }
    }
}

/// What follows in the resolution of a token.
#[derive(Debug)]
pub enum ResolveStep {
    /// The caller answers the question and hands the addresses back.
    Ask(Lookup),
    /// The resolution is over with these addresses; with none, the token
    /// is unresolved.
    Resolved(Vec<IpAddress>),
}

/// A step of a resolution as a value.
pub enum StepView {
    Ask(LookupView),
    Resolved(Seq<IpAddress>),
}

impl View for ResolveStep {
    type V = StepView;

    open spec fn view(&self) -> StepView {
        match self {
            ResolveStep::Ask(lookup) => StepView::Ask(lookup@),
            ResolveStep::Resolved(ips) => StepView::Resolved(ips@),
        }
    }
}

/// How far the resolution of a token has come.
#[derive(Debug, Clone, Copy, PartialEq, Eq, Structural)]
pub enum Stage {
    /// The direct lookup has been asked for.
    Direct,
    /// The lookup through the resolver has been asked for.
    Dns,
    /// The resolution is over.
    Settled,
}

/// The resolution of one token, strategy by strategy.
#[derive(Debug)]
pub struct TokenResolver {
    token: String,
    stage: Stage,
}

impl TokenResolver {
    /// The token that is resolved.
    pub closed spec fn token(self) -> Seq<char> {
        self.token@
    }

    /// How far the resolution has come.
    pub closed spec fn stage(self) -> Stage {
        self.stage
    }

    /// Begins the resolution of `token`, which reads as `block`. A block
    /// settles the token with its addresses; without one the direct lookup
    /// is asked for.
    pub fn begin_with(token: &str, block: Option<CidrBlock>) -> (begun: (Self, ResolveStep))
        requires
            block.is_some() ==> block.unwrap().wf(),
        ensures
            begun.0.token() == token@,
            block.is_some() ==> begun.0.stage() == Stage::Settled && begun.1@ == StepView::Resolved(
                block.unwrap().spec_addresses(),
            ),
            block.is_none() ==> begun.0.stage() == Stage::Direct && begun.1@ == StepView::Ask(
                LookupView::Direct { host: token@, port: PROBE_PORT },
            ),
    {
        match block {
            Some(block) => {
                let resolver = TokenResolver { token: token.to_owned(), stage: Stage::Settled };
                (resolver, ResolveStep::Resolved(block.addresses()))
            },
            None => {
                let resolver = TokenResolver { token: token.to_owned(), stage: Stage::Direct };
                (
                    resolver,
                    ResolveStep::Ask(Lookup::Direct { host: token.to_owned(), port: PROBE_PORT }),
                )
            },
        }
    }

    /// Begins the resolution of `token`: it is read as a CIDR block, which
    /// settles it, and the direct lookup is asked for where it is none.
    pub fn begin(token: &str) -> (begun: (Self, ResolveStep))
        ensures
            begun.0.token() == token@,
            cidr_block(token@).is_some() ==> begun.0.stage() == Stage::Settled && begun.1@
                == StepView::Resolved(cidr_block(token@).unwrap().spec_addresses()),
            cidr_block(token@).is_none() ==> begun.0.stage() == Stage::Direct && begun.1@
                == StepView::Ask(LookupView::Direct { host: token@, port: PROBE_PORT }),
    {
        let block = parse_cidr(token);
        Self::begin_with(token, block)
    }

    /// Whether the resolution is over.
    pub fn is_settled(&self) -> (settled: bool)
        ensures
            settled == (self.stage() == Stage::Settled),
    {
        match self.stage {
            Stage::Settled => true,
            _ => false,
        }
    }

    /// Takes the answer to the question asked last. The first address of a
    /// direct lookup settles the token; where it gave none, the resolver
    /// is asked. What the resolver gives settles the token, be it nothing.
    pub fn answer(&mut self, addresses: Vec<IpAddress>) -> (step: ResolveStep)
        requires
            old(self).stage() != Stage::Settled,
        ensures
            final(self).token() == old(self).token(),
            old(self).stage() == Stage::Direct && addresses@.len() > 0 ==> final(self).stage()
                == Stage::Settled && step@ == StepView::Resolved(seq![addresses@[0]]),
            old(self).stage() == Stage::Direct && addresses@.len() == 0 ==> final(self).stage()
                == Stage::Dns && step@ == StepView::Ask(LookupView::Dns { host: old(self).token() }),
            old(self).stage() == Stage::Dns ==> final(self).stage() == Stage::Settled && step@
                == StepView::Resolved(addresses@),
    {
        match self.stage {
            Stage::Direct => {
                if addresses.len() > 0 {
                    self.stage = Stage::Settled;
                    let mut first: Vec<IpAddress> = Vec::new();
                    first.push(addresses[0]);
                    assert(first@ =~= seq![addresses@[0]]);
                    ResolveStep::Resolved(first)
                } else {
                    self.stage = Stage::Dns;
                    ResolveStep::Ask(Lookup::Dns { host: self.token.clone() })
                }
            },
            _ => {
                self.stage = Stage::Settled;
                ResolveStep::Resolved(addresses)
            },
        }
    }
}

/// Addresses in their order, each once.
#[derive(Debug)]
pub struct AddressSet {
    ips: Vec<IpAddress>,
}

/// Whether each address of `ips` stands before the one that follows it.
pub open spec fn strictly_ascending(ips: Seq<IpAddress>) -> bool {
    forall|i: int, j: int| 0 <= i < j < ips.len() ==> ips[i].spec_precedes(&ips[j])
}

impl View for AddressSet {
    type V = Seq<IpAddress>;

    closed spec fn view(&self) -> Seq<IpAddress> {
        self.ips@
    }
}

impl AddressSet {
    /// The addresses stand in their order, so none stands twice.
    pub open spec fn wf(self) -> bool {
        strictly_ascending(self@)
    }

    /// No addresses.
    pub fn new() -> (set: Self)
        ensures
            set.wf(),
            set@.len() == 0,
    {
        AddressSet { ips: Vec::new() }
    }

    /// The number of addresses.
    pub fn len(&self) -> (len: usize)
        ensures
            len == self@.len(),
    {
        self.ips.len()
    }

    /// Whether there is no address.
    pub fn is_empty(&self) -> (empty: bool)
        ensures
            empty == (self@.len() == 0),
    {
        self.ips.len() == 0
    }

    /// Adds an address, at its place in the order, unless it is there
    /// already.
    pub fn insert(&mut self, ip: IpAddress)
        requires
            old(self).wf(),
        ensures
            final(self).wf(),
            forall|other: IpAddress|
                #![trigger final(self)@.contains(other)]
                final(self)@.contains(other) <==> old(self)@.contains(other) || other == ip,
            old(self)@.contains(ip) ==> final(self)@ == old(self)@,
            !old(self)@.contains(ip) ==> final(self)@.len() == old(self)@.len() + 1,
    {
        let mut i: usize = 0;
        let mut end: usize = self.ips.len();
        while i < end
            invariant
                0 <= i <= end <= self.ips@.len(),
                self.ips@ == old(self).ips@,
                strictly_ascending(self.ips@),
                forall|j: int| 0 <= j < i ==> self.ips@[j].spec_precedes(&ip),
                forall|j: int| end <= j < self.ips@.len() ==> !self.ips@[j].spec_precedes(&ip),
            decreases end - i,
        {
            let middle: usize = i + (end - i) / 2;
            if self.ips[middle].precedes(&ip) {
                proof {
                    assert forall|j: int| 0 <= j < middle + 1 implies self.ips@[j].spec_precedes(
                        &ip,
                    ) by {
                        if j < middle {
                            assert(self.ips@[j].spec_precedes(&self.ips@[middle as int]));
                            lemma_address_order(self.ips@[j], self.ips@[middle as int], ip);
                        }
                    }
                }
                i = middle + 1;
            } else {
                proof {
                    assert forall|j: int| middle <= j < self.ips@.len() implies !self.ips@[j].spec_precedes(
                    &ip) by {
                        if j > middle {
                            assert(self.ips@[middle as int].spec_precedes(&self.ips@[j]));
                            lemma_address_order(self.ips@[middle as int], self.ips@[j], ip);
                        }
                    }
                }
                end = middle;
            }
        }
        let ghost before = self.ips@;
        if i < self.ips.len() && self.ips[i] == ip {
            assert(before.contains(ip));
            return ;
        }
        proof {
            assert(!before.contains(ip)) by {
                if before.contains(ip) {
                    let k = choose|k: int| 0 <= k < before.len() && before[k] == ip;
                    if k < i {
                        assert(before[k].spec_precedes(&ip));
                    } else if k > i {
                        assert(before[i as int].spec_precedes(&before[k]));
                    }
                }
            }
        }
        self.ips.insert(i, ip);
        proof {
            let after = self.ips@;
            assert forall|a: int, b: int| 0 <= a < b < after.len() implies after[a].spec_precedes(
                &after[b],
            ) by {
                if b < i {
                } else if b == i {
                    assert(after[a] == before[a]);
                } else if a < i {
                    assert(after[a] == before[a]);
                    assert(after[b] == before[b - 1]);
                } else if a == i {
                    assert(after[b] == before[b - 1]);
                    if b - 1 > i {
                        assert(before[i as int].spec_precedes(&before[b - 1]));
                    }
                } else {
                    assert(after[a] == before[a - 1]);
                    assert(after[b] == before[b - 1]);
                }
            }
            assert forall|other: IpAddress| after.contains(other) <==> before.contains(other)
                || other == ip by {
                if after.contains(other) {
                    let k = choose|k: int| 0 <= k < after.len() && after[k] == other;
                    if k < i {
                        assert(before[k] == other);
                    } else if k > i {
                        assert(before[k - 1] == other);
                    }
                }
                if before.contains(other) {
                    let k = choose|k: int| 0 <= k < before.len() && before[k] == other;
                    if k < i {
                        assert(after[k] == other);
                    } else {
                        assert(after[k + 1] == other);
                    }
                }
                if other == ip {
                    assert(after[i as int] == ip);
                }
            }
        }
    }

    /// Adds each of `ips`.
    pub fn extend(&mut self, ips: &Vec<IpAddress>)
        requires
            old(self).wf(),
        ensures
            final(self).wf(),
            forall|other: IpAddress|
                #![trigger final(self)@.contains(other)]
                #![trigger ips@.contains(other)]
                final(self)@.contains(other) <==> old(self)@.contains(other) || ips@.contains(
                    other,
                ),
    {
        if is_ascending(ips) {
            let merged = merge(&self.ips, ips);
            self.ips = merged;
            return ;
        }
        let mut i: usize = 0;
        while i < ips.len()
            invariant
                0 <= i <= ips@.len(),
                self.wf(),
                forall|other: IpAddress|
                    self@.contains(other) <==> old(self)@.contains(other) || ips@.take(
                        i as int,
                    ).contains(other),
            decreases ips@.len() - i,
        {
            self.insert(ips[i]);
            proof {
                lemma_take_one_more(ips@, i as int);
            }
            i += 1;
        }
        assert(ips@.take(ips@.len() as int) =~= ips@);
    }

    /// Whether `ip` is among the addresses.
    pub fn contains(&self, ip: &IpAddress) -> (found: bool)
        requires
            self.wf(),
        ensures
            found == self@.contains(*ip),
    {
        position_of(&self.ips, ip).is_some()
    }

    /// The addresses in their order.
    pub fn into_vec(self) -> (ips: Vec<IpAddress>)
        ensures
            ips@ == self@,
    {
        self.ips
    }
}

/// The place of `ip` in a list that stands in its order, if it is there.
pub fn position_of(ips: &Vec<IpAddress>, ip: &IpAddress) -> (place: Option<usize>)
    requires
        strictly_ascending(ips@),
    ensures
        place.is_some() == ips@.contains(*ip),
        place.is_some() ==> place.unwrap() < ips@.len() && ips@[place.unwrap() as int] == *ip,
{
    let mut begin: usize = 0;
    let mut end: usize = ips.len();
    while begin < end
        invariant
            0 <= begin <= end <= ips@.len(),
            strictly_ascending(ips@),
            forall|j: int| 0 <= j < begin ==> ips@[j].spec_precedes(ip),
            forall|j: int| end <= j < ips@.len() ==> !ips@[j].spec_precedes(ip),
        decreases end - begin,
    {
        let middle: usize = begin + (end - begin) / 2;
        if ips[middle].precedes(ip) {
            proof {
                assert forall|j: int| 0 <= j < middle + 1 implies ips@[j].spec_precedes(ip) by {
                    if j < middle {
                        assert(ips@[j].spec_precedes(&ips@[middle as int]));
                        lemma_address_order(ips@[j], ips@[middle as int], *ip);
                    }
                }
            }
            begin = middle + 1;
        } else {
            proof {
                assert forall|j: int| middle <= j < ips@.len() implies !ips@[j].spec_precedes(
                    ip,
                ) by {
                    if j > middle {
                        assert(ips@[middle as int].spec_precedes(&ips@[j]));
                        lemma_address_order(ips@[middle as int], ips@[j], *ip);
                    }
                }
            }
            end = middle;
        }
    }
    if begin < ips.len() && ips[begin] == *ip {
        Some(begin)
    } else {
        proof {
            if ips@.contains(*ip) {
                let k = choose|k: int| 0 <= k < ips@.len() && ips@[k] == *ip;
                if k < begin {
                    assert(ips@[k].spec_precedes(ip));
                } else if k > begin {
                    assert(ips@[begin as int].spec_precedes(&ips@[k]));
                }
            }
        }
        None
    }
}

/// The first `n + 1` addresses of a list are its first `n` and the one
/// that follows them.
pub proof fn lemma_take_one_more(ips: Seq<IpAddress>, n: int)
    requires
        0 <= n < ips.len(),
    ensures
        forall|other: IpAddress|
            ips.take(n + 1).contains(other) <==> ips.take(n).contains(other) || other == ips[n],
{
    let taken = ips.take(n);
    let more = ips.take(n + 1);
    assert forall|other: IpAddress| more.contains(other) <==> taken.contains(other) || other
        == ips[n] by {
        if more.contains(other) {
            let k = choose|k: int| 0 <= k < more.len() && more[k] == other;
            if k < n {
                assert(taken[k] == other);
            }
        }
        if taken.contains(other) {
            let k = choose|k: int| 0 <= k < taken.len() && taken[k] == other;
            assert(more[k] == other);
        }
        if other == ips[n] {
            assert(more[n] == other);
        }
    }
}

/// Whether each address of the list stands before the one that follows
/// it.
pub fn is_ascending(ips: &Vec<IpAddress>) -> (ascending: bool)
    ensures
        ascending == strictly_ascending(ips@),
{
    if ips.len() < 2 {
        return true;
    }
    let mut i: usize = 1;
    while i < ips.len()
        invariant
            1 <= i <= ips@.len(),
            forall|p: int, q: int| 0 <= p < q < i ==> ips@[p].spec_precedes(&ips@[q]),
        decreases ips@.len() - i,
    {
        if !ips[i - 1].precedes(&ips[i]) {
            return false;
        }
        proof {
            assert forall|p: int, q: int| 0 <= p < q < i + 1 implies ips@[p].spec_precedes(
                &ips@[q],
            ) by {
                if q == i && p < i - 1 {
                    assert(ips@[p].spec_precedes(&ips@[i - 1]));
                    lemma_address_order(ips@[p], ips@[i - 1], ips@[i as int]);
                }
            }
        }
        i += 1;
    }
    true
}

/// The addresses of two lists that stand in their order, in one list that
/// stands in its order: an address of both lists stands in it once.
pub fn merge(a: &Vec<IpAddress>, b: &Vec<IpAddress>) -> (merged: Vec<IpAddress>)
    requires
        strictly_ascending(a@),
        strictly_ascending(b@),
    ensures
        strictly_ascending(merged@),
        forall|other: IpAddress|
            #![trigger merged@.contains(other)]
            merged@.contains(other) <==> a@.contains(other) || b@.contains(other),
{
    let mut merged: Vec<IpAddress> = Vec::new();
    let mut i: usize = 0;
    let mut j: usize = 0;
    while i < a.len() || j < b.len()
        invariant
            0 <= i <= a@.len(),
            0 <= j <= b@.len(),
            strictly_ascending(a@),
            strictly_ascending(b@),
            strictly_ascending(merged@),
            forall|k: int|
                0 <= k < merged@.len() && i < a@.len() ==> (#[trigger] merged@[k]).spec_precedes(
                    &a@[i as int],
                ),
            forall|k: int|
                0 <= k < merged@.len() && j < b@.len() ==> (#[trigger] merged@[k]).spec_precedes(
                    &b@[j as int],
                ),
            forall|other: IpAddress|
                #![trigger merged@.contains(other)]
                merged@.contains(other) <==> a@.take(i as int).contains(other) || b@.take(
                    j as int,
                ).contains(other),
        decreases a@.len() - i + b@.len() - j,
    {
        let ghost before = merged@;
        let take_a: bool = j >= b.len() || (i < a.len() && !b[j].precedes(&a[i]));
        let take_b: bool = i >= a.len() || (j < b.len() && !a[i].precedes(&b[j]));
        let next: IpAddress = if take_a {
            a[i]
        } else {
            b[j]
        };
        proof {
            if take_a && take_b && i < a@.len() && j < b@.len() {
                lemma_address_order(a@[i as int], b@[j as int], a@[i as int]);
                assert(a@[i as int] == b@[j as int]);
            }
            if i < a@.len() {
                lemma_take_one_more(a@, i as int);
            }
            if j < b@.len() {
                lemma_take_one_more(b@, j as int);
            }
        }
        merged.push(next);
        if take_a {
            i += 1;
        }
        if take_b {
            j += 1;
        }
        proof {
            let after = merged@;
            assert forall|p: int, q: int| 0 <= p < q < after.len() implies after[p].spec_precedes(
                &after[q],
            ) by {
                if q == after.len() - 1 {
                    assert(after[p] == before[p]);
                }
            }
            assert forall|k: int| 0 <= k < after.len() && i < a@.len() implies (
            #[trigger] after[k]).spec_precedes(&a@[i as int]) by {
                if k < before.len() {
                    assert(after[k] == before[k]);
                    if take_a {
                        lemma_address_order(before[k], a@[i - 1], a@[i as int]);
                    }
                } else if !take_a {
                    lemma_address_order(b@[j - 1], a@[i as int], b@[j - 1]);
                }
            }
            assert forall|k: int| 0 <= k < after.len() && j < b@.len() implies (
            #[trigger] after[k]).spec_precedes(&b@[j as int]) by {
                if k < before.len() {
                    assert(after[k] == before[k]);
                    if take_b {
                        lemma_address_order(before[k], b@[j - 1], b@[j as int]);
                    }
                } else if !take_b {
                    lemma_address_order(a@[i - 1], b@[j as int], a@[i - 1]);
                }
            }
            assert forall|other: IpAddress| #![trigger after.contains(other)]
                after.contains(other) <==> a@.take(i as int).contains(other) || b@.take(
                    j as int,
                ).contains(other) by {
                if after.contains(other) {
                    let k = choose|k: int| 0 <= k < after.len() && after[k] == other;
                    if k < before.len() {
                        assert(before[k] == other);
                        assert(before.contains(other));
                    }
                }
                if before.contains(other) {
                    let k = choose|k: int| 0 <= k < before.len() && before[k] == other;
                    assert(after[k] == other);
                }
                if other == next {
                    assert(after[after.len() - 1] == other);
                }
            }
        }
    }
    proof {
        assert(a@.take(a@.len() as int) =~= a@);
        assert(b@.take(b@.len() as int) =~= b@);
    }
    merged
}

/// Two lists of addresses that stand in their order and hold the same
/// addresses are the same list: the order in which addresses were added
/// does not show.
pub proof fn lemma_ascending_is_unique(a: Seq<IpAddress>, b: Seq<IpAddress>)
    requires
        strictly_ascending(a),
        strictly_ascending(b),
        forall|ip: IpAddress| a.contains(ip) <==> b.contains(ip),
    ensures
        a == b,
    decreases a.len(),
{
    if a.len() == 0 {
        if b.len() > 0 {
            assert(b.contains(b[0]));
        }
        assert(a =~= b);
    } else {
        assert(a.contains(a[0]));
        assert(b.len() > 0);
        assert(b.contains(b[0]));
        // the two heads are the least addresses of one set
        let i = choose|i: int| 0 <= i < b.len() && b[i] == a[0];
        let j = choose|j: int| 0 <= j < a.len() && a[j] == b[0];
        if i > 0 {
            assert(b[0].spec_precedes(&b[i]));
            if j > 0 {
                assert(a[0].spec_precedes(&a[j]));
            }
        }
        assert(a[0] == b[0]);
        let ra = a.drop_first();
        let rb = b.drop_first();
        assert forall|ip: IpAddress| ra.contains(ip) <==> rb.contains(ip) by {
            if ra.contains(ip) {
                let k = choose|k: int| 0 <= k < ra.len() && ra[k] == ip;
                assert(a[k + 1] == ip);
                assert(a[0].spec_precedes(&a[k + 1]));
                assert(a.contains(ip));
                let m = choose|m: int| 0 <= m < b.len() && b[m] == ip;
                assert(m > 0);
                assert(rb[m - 1] == ip);
            }
            if rb.contains(ip) {
                let k = choose|k: int| 0 <= k < rb.len() && rb[k] == ip;
                assert(b[k + 1] == ip);
                assert(b[0].spec_precedes(&b[k + 1]));
                assert(b.contains(ip));
                let m = choose|m: int| 0 <= m < a.len() && a[m] == ip;
                assert(m > 0);
                assert(ra[m - 1] == ip);
            }
        }
        assert(strictly_ascending(ra)) by {
            assert forall|x: int, y: int| 0 <= x < y < ra.len() implies ra[x].spec_precedes(
                &ra[y],
            ) by {
                assert(a[x + 1].spec_precedes(&a[y + 1]));
            }
        }
        assert(strictly_ascending(rb)) by {
            assert forall|x: int, y: int| 0 <= x < y < rb.len() implies rb[x].spec_precedes(
                &rb[y],
            ) by {
                assert(b[x + 1].spec_precedes(&b[y + 1]));
            }
        }
        lemma_ascending_is_unique(ra, rb);
        assert(a =~= seq![a[0]] + ra);
        assert(b =~= seq![b[0]] + rb);
    }
}

/// The addresses of a scan as they are found, and the tokens that no
/// strategy has resolved.
#[derive(Debug)]
pub struct AddressResolver {
    found: AddressSet,
    unresolved: Vec<String>,
}

impl AddressResolver {
    /// The addresses found so far, in their order.
    pub closed spec fn found(self) -> Seq<IpAddress> {
        self.found@
    }

    /// The tokens that no strategy has resolved, in the order in which
    /// they were given.
    pub closed spec fn unresolved(self) -> Seq<String> {
        self.unresolved@
    }

    /// The addresses found stand in their order, each once.
    pub closed spec fn wf(self) -> bool {
        self.found.wf()
    }

    /// Nothing found and nothing unresolved.
    pub fn new() -> (resolver: Self)
        ensures
            resolver.wf(),
            resolver.found().len() == 0,
            resolver.unresolved().len() == 0,
    {
        AddressResolver { found: AddressSet::new(), unresolved: Vec::new() }
    }

    /// Takes what the strategies have made of a token. Its addresses are
    /// added to those found; a token without any is kept as unresolved.
    pub fn record_token(&mut self, token: String, addresses: &Vec<IpAddress>)
        requires
            old(self).wf(),
        ensures
            final(self).wf(),
            forall|ip: IpAddress|
                #![trigger final(self).found().contains(ip)]
                #![trigger addresses@.contains(ip)]
                final(self).found().contains(ip) <==> old(self).found().contains(ip)
                    || addresses@.contains(ip),
            final(self).unresolved() == (if addresses@.len() == 0 {
                old(self).unresolved().push(token)
            } else {
                old(self).unresolved()
            }),
    {
        if addresses.len() == 0 {
            self.unresolved.push(token);
        } else {
            self.found.extend(addresses);
        }
    }

    /// Takes what the strategies have made of a line of a file of hosts.
    /// Its addresses are added to those found; a line without any is
    /// passed over.
    pub fn record_line(&mut self, addresses: &Vec<IpAddress>)
        requires
            old(self).wf(),
        ensures
            final(self).wf(),
            forall|ip: IpAddress|
                #![trigger final(self).found().contains(ip)]
                #![trigger addresses@.contains(ip)]
                final(self).found().contains(ip) <==> old(self).found().contains(ip)
                    || addresses@.contains(ip),
            final(self).unresolved() == old(self).unresolved(),
    {
        self.found.extend(addresses);
    }

    /// The tokens that no strategy has resolved: each is tried as the path
    /// of a file of hosts.
    pub fn pending_files(&self) -> (tokens: &Vec<String>)
        ensures
            tokens@ == self.unresolved(),
    {
        &self.unresolved
    }

    /// Whether no address has been found, in which case there is nothing
    /// to scan.
    pub fn is_empty(&self) -> (empty: bool)
        ensures
            empty == (self.found().len() == 0),
    {
        self.found.is_empty()
    }

    /// The addresses found, in their order and each once.
    pub fn into_addresses(self) -> (ips: Vec<IpAddress>)
        requires
            self.wf(),
        ensures
            ips@ == self.found(),
            strictly_ascending(ips@),
            ips@.no_duplicates(),
    {
        proof {
            let found = self.found@;
            assert forall|i: int, j: int| 0 <= i < found.len() && 0 <= j < found.len() && i
                != j implies found[i] != found[j] by {
                if i < j {
                    assert(found[i].spec_precedes(&found[j]));
                } else {
                    assert(found[j].spec_precedes(&found[i]));
                }
            }
        }
        self.found.into_vec()
    }
}

/// The entries of a list of name servers that is written with commas
/// between them, each without the white space around it.
pub fn name_server_entries(list: &str) -> (entries: Vec<String>)
    ensures
        text_views(entries@) == pieces(list@, ',').map_values(|entry: Seq<char>| trimmed(entry)),
{
    let parts = split(list, ',');
    trim_each(&parts)
}

/// The lines of a file, each without the white space around it: the
/// entries of a file of name servers.
pub fn trimmed_lines(content: &str) -> (entries: Vec<String>)
    ensures
        text_views(entries@) == lines_of(content@).map_values(|line: Seq<char>| trimmed(line)),
{
    let found = lines(content);
    trim_each(&found)
}

/// The lines of a file of hosts: each is resolved as a token is.
pub fn host_lines(content: &str) -> (hosts: Vec<String>)
    ensures
        text_views(hosts@) == lines_of(content@),
{
    lines(content)
}

/// Where the names of a scan are looked up.
#[derive(Debug)]
pub enum ResolverPlan {
    /// At these name servers, asked over UDP.
    NameServers(Vec<Socket>),
    /// At the name servers that the system is configured with, and at a
    /// public resolver where the system names none.
    System,
}

/// The ends of a list of name servers: each address at the port of DNS.
pub open spec fn name_server_ends(servers: Seq<IpAddress>) -> Seq<Socket> {
    Seq::new(servers.len(), |i: int| Socket { ip: servers[i], port: DNS_PORT })
}

/// Decides where names are looked up: at the name servers that the caller
/// has named, be they none, and by the system's settings where the caller
/// has named no list at all.
pub fn resolver_plan(servers: Option<Vec<IpAddress>>) -> (plan: ResolverPlan)
    ensures
        match plan {
            ResolverPlan::NameServers(ends) => servers.is_some() && ends@ == name_server_ends(
                servers.unwrap()@,
            ),
            ResolverPlan::System => servers.is_none(),
        },
{
    match servers {
        Some(servers) => {
            let mut ends: Vec<Socket> = Vec::new();
            let mut i: usize = 0;
            while i < servers.len()
                invariant
                    0 <= i <= servers@.len(),
                    ends@ == name_server_ends(servers@.take(i as int)),
                decreases servers@.len() - i,
            {
                ends.push(Socket { ip: servers[i], port: DNS_PORT });
                i += 1;
                assert(ends@ =~= name_server_ends(servers@.take(i as int)));
            }
            assert(servers@.take(servers@.len() as int) =~= servers@);
            ResolverPlan::NameServers(ends)
        },
        None => ResolverPlan::System,
    }
}

} // verus!
