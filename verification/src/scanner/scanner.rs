//! The engine of a scan: which targets are probed, how many probes are
//! under way at once, and what is kept of their findings.
//!
//! The probes themselves are run by the caller. A `ScanRun` hands out the
//! targets, a window of them at first and then one for each probe that
//! ends, and keeps the open targets and the failures.

use vstd::prelude::*;
use vstd::arithmetic::div_mod::{lemma_div_pos_is_pos, lemma_fundamental_div_mod, lemma_mod_bound};
use vstd::slice::slice_to_vec;
use std::time::Duration;
use crate::net::ip::{IpAddress, Socket};
use crate::net::strategy::PortStrategy;
use crate::scanner::address::{position_of, strictly_ascending, AddressSet};
use crate::scanner::errors::{error_views, lemma_log_keeps_each_once, ErrorLog};
use crate::scanner::probe::{ErrorView, ProbeResult, ResultView, ScanError};
use crate::scanner::socket::{cross_product, SocketIterator};

verus! {

/// How many failures are kept for each address of a scan.
pub const ERRORS_PER_ADDRESS: usize = 1000;

/// The ports of `order` that are not among `excluded`, in their order.
pub open spec fn allowed_ports(order: Seq<u16>, excluded: Seq<u16>) -> Seq<u16> {
    order.filter(|port: u16| !excluded.contains(port))
}

/// Whether `port` is one of `ports`.
pub fn contains_port(ports: &Vec<u16>, port: u16) -> (found: bool)
    ensures
        found == ports@.contains(port),
{
    let mut i: usize = 0;
    while i < ports.len()
        invariant
            0 <= i <= ports@.len(),
            forall|j: int| 0 <= j < i ==> ports@[j] != port,
        decreases ports@.len() - i,
    {
        if ports[i] == port {
            return true;
        }
        i += 1;
    }
    false
}

/// The ports of `order` that are not among `excluded`, in their order.
pub fn without_excluded(order: &Vec<u16>, excluded: &Vec<u16>) -> (ports: Vec<u16>)
    ensures
        ports@ == allowed_ports(order@, excluded@),
{
    let ghost keep = |port: u16| !excluded@.contains(port);
    let mut ports: Vec<u16> = Vec::new();
    let mut i: usize = 0;
    proof {
        reveal(Seq::filter);
        assert(order@.take(0).filter(keep) =~= Seq::<u16>::empty());
    }
    while i < order.len()
        invariant
            0 <= i <= order@.len(),
            keep == |port: u16| !excluded@.contains(port),
            ports@ == order@.take(i as int).filter(keep),
        decreases order@.len() - i,
    {
        let port: u16 = order[i];
        let excluded_port: bool = contains_port(excluded, port);
        proof {
            reveal(Seq::filter);
            assert(order@.take(i + 1).drop_last() =~= order@.take(i as int));
            assert(order@.take(i + 1).last() == port);
        }
        if !excluded_port {
            ports.push(port);
        }
        i += 1;
    }
    assert(order@.take(order@.len() as int) =~= order@);
    ports
}

/// The payloads to send over UDP: `payload` goes to each of `ports`.
#[derive(Debug)]
pub struct UdpPayload {
    pub ports: Vec<u16>,
    pub payload: Vec<u8>,
}

/// The payload that a table holds for `port`: that of the last entry that
/// names the port, and nothing where no entry does.
pub open spec fn payload_for(table: Seq<UdpPayload>, port: u16) -> Seq<u8>
    decreases table.len(),
{
    if table.len() == 0 {
        Seq::empty()
    } else if table.last().ports@.contains(port) {
        table.last().payload@
    } else {
        payload_for(table.drop_last(), port)
    }
}

/// The payload to send to `port` in a probe over UDP.
pub fn udp_payload(table: &Vec<UdpPayload>, port: u16) -> (payload: Vec<u8>)
    ensures
        payload@ == payload_for(table@, port),
{
    let mut i: usize = table.len();
    assert(table@.take(table@.len() as int) =~= table@);
    while i > 0
        invariant
            0 <= i <= table@.len(),
            payload_for(table@, port) == payload_for(table@.take(i as int), port),
        decreases i,
    {
        i -= 1;
        proof {
            assert(table@.take(i + 1).drop_last() =~= table@.take(i as int));
            assert(table@.take(i + 1).last() == table@[i as int]);
        }
        if contains_port(&table[i].ports, port) {
            let payload = table[i].payload.clone();
            assert(payload@ =~= table@[i as int].payload@);
            return payload;
        }
    }
    Vec::new()
}

/// The settings of one scan. They do not change while it runs.
#[derive(Debug)]
pub struct Scanner {
    ips: Vec<IpAddress>,
    batch_size: u16,
    timeout: Duration,
    tries: u8,
    greppable: bool,
    port_strategy: PortStrategy,
    accessible: bool,
    exclude_ports: Vec<u16>,
    udp: bool,
    ports: Vec<u16>,
}

impl Scanner {
    /// The addresses to scan.
    pub closed spec fn addresses(self) -> Seq<IpAddress> {
        self.ips@
    }

    /// The number of probes that may be under way at once.
    pub closed spec fn window(self) -> int {
        self.batch_size as int
    }

    /// The time allowed to each attempt.
    pub closed spec fn time_limit(self) -> Duration {
        self.timeout
    }

    /// The number of attempts allowed to each probe.
    pub closed spec fn attempts_allowed(self) -> int {
        self.tries as int
    }

    /// The ports asked for, in the order of the scan.
    pub closed spec fn requested(self) -> Seq<u16> {
        self.port_strategy@
    }

    /// The ports that are left out of the scan.
    pub closed spec fn excluded(self) -> Seq<u16> {
        self.exclude_ports@
    }

    /// Whether the probes go over UDP rather than TCP.
    pub closed spec fn over_udp(self) -> bool {
        self.udp
    }

    /// Whether the output is meant for other programs to read.
    pub closed spec fn is_greppable(self) -> bool {
        self.greppable
    }

    /// Whether the output is meant for a screen reader.
    pub closed spec fn is_accessible(self) -> bool {
        self.accessible
    }

    /// The ports that are probed: those asked for that are not excluded.
    pub closed spec fn probed_ports(self) -> Seq<u16> {
        self.ports@
    }

    /// The targets of the scan, in the order in which they are handed out.
    pub open spec fn plan(self) -> Seq<Socket> {
        cross_product(self.probed_ports(), self.addresses())
    }

    /// The most failures that a run of the scan keeps.
    pub open spec fn error_cap(self) -> int {
        self.addresses().len() * ERRORS_PER_ADDRESS
    }

    /// Each probe has an attempt, and the ports probed are the ports asked
    /// for without the excluded ones.
    pub closed spec fn wf(self) -> bool {
        &&& self.tries >= 1
        &&& self.ports@ == allowed_ports(self.port_strategy@, self.exclude_ports@)
    }

    /// The settings of a scan. Each probe is allowed `tries` attempts, and
    /// one where `tries` is zero.
    pub fn new(
        ips: &[IpAddress],
        batch_size: u16,
        timeout: Duration,
        tries: u8,
        greppable: bool,
        port_strategy: PortStrategy,
        accessible: bool,
        exclude_ports: Vec<u16>,
        udp: bool,
    ) -> (scanner: Self)
        ensures
            scanner.wf(),
            scanner.addresses() == ips@,
            scanner.window() == batch_size,
            scanner.time_limit() == timeout,
            scanner.attempts_allowed() == (if tries == 0 {
                1int
            } else {
                tries as int
            }),
            scanner.requested() == port_strategy@,
            scanner.excluded() == exclude_ports@,
            scanner.over_udp() == udp,
            scanner.is_greppable() == greppable,
            scanner.is_accessible() == accessible,
            scanner.probed_ports() == allowed_ports(port_strategy@, exclude_ports@),
    {
        let order = port_strategy.order();
        let ports = without_excluded(&order, &exclude_ports);
        Scanner {
            batch_size,
            timeout,
            tries: if tries == 0 {
                1
            } else {
                tries
            },
            greppable,
            port_strategy,
            ips: slice_to_vec(ips),
            accessible,
            exclude_ports,
            udp,
            ports,
        }
    }

    /// The addresses to scan.
    pub fn ips(&self) -> (ips: &Vec<IpAddress>)
        ensures
            ips@ == self.addresses(),
    {
        &self.ips
    }

    /// The ports that are probed, in the order of the scan.
    pub fn ports(&self) -> (ports: &Vec<u16>)
        ensures
            ports@ == self.probed_ports(),
    {
        &self.ports
    }

    /// The number of probes that may be under way at once.
    pub fn batch_size(&self) -> (batch_size: u16)
        ensures
            batch_size == self.window(),
    {
        self.batch_size
    }

    /// The time allowed to each attempt.
    pub fn timeout(&self) -> (timeout: Duration)
        ensures
            timeout == self.time_limit(),
    {
        self.timeout
    }

    /// The number of attempts allowed to each probe.
    pub fn tries(&self) -> (tries: u8)
        ensures
            tries == self.attempts_allowed(),
    {
        self.tries
    }

    /// Whether the probes go over UDP rather than TCP.
    pub fn udp(&self) -> (udp: bool)
        ensures
            udp == self.over_udp(),
    {
        self.udp
    }

    /// Whether an open target is announced as soon as it is found, and
    /// whether in plain words: nothing is announced in greppable output,
    /// and the accessible output has no colours.
    pub fn announcement(&self) -> (style: Option<bool>)
        ensures
            style == (if self.is_greppable() {
                None
            } else {
                Some(self.is_accessible())
            }),
    {
        if self.greppable {
            None
        } else {
            Some(self.accessible)
        }
    }
}

/// No target of a scan is at an excluded port, and each is at a port that
/// was asked for.
pub proof fn lemma_excluded_ports_are_never_probed(scanner: Scanner, k: int)
    requires
        scanner.wf(),
        0 <= k < scanner.plan().len(),
    ensures
        !scanner.excluded().contains(scanner.plan()[k].port),
        scanner.requested().contains(scanner.plan()[k].port),
        scanner.addresses().contains(scanner.plan()[k].ip),
{
    let ports = scanner.probed_ports();
    let n: int = scanner.addresses().len() as int;
    let m: int = ports.len() as int;
    let keep = |port: u16| !scanner.excluded().contains(port);
    assert(n > 0) by {
        if n == 0 {
            assert(m * n == 0) by (nonlinear_arith)
                requires
                    n == 0,
            ;
        }
    }
    lemma_fundamental_div_mod(k, n);
    lemma_mod_bound(k, n);
    lemma_div_pos_is_pos(k, n);
    let q: int = k / n;
    assert(q < m) by {
        if q >= m {
            assert(n * q >= n * m) by (nonlinear_arith)
                requires
                    q >= m,
                    n > 0,
            ;
            assert(n * m == m * n) by (nonlinear_arith);
        }
    }
    assert(scanner.plan()[k].port == ports[q]);
    assert(scanner.plan()[k].ip == scanner.addresses()[k % n]);
    scanner.requested().lemma_filter_pred(keep, q);
    scanner.requested().lemma_filter_contains_rev(keep, ports[q]);
}

/// What a scan has found: the open targets in the order in which they were
/// found, and the failures that were kept.
#[derive(Debug)]
pub struct ScanResult {
    pub open: Vec<Socket>,
    pub errors: Vec<ScanError>,
}

/// A scan that was given up because the system ran out of descriptors. It
/// holds what had been found until then.
#[derive(Debug)]
pub struct ScanAbort {
    pub partial: ScanResult,
}

/// The failures kept after one more: it is added unless it is kept already
/// or `cap` failures are kept.
pub open spec fn recorded(errors: Seq<ErrorView>, error: ErrorView, cap: int) -> Seq<ErrorView> {
    if errors.len() < cap && !errors.contains(error) {
        errors.push(error)
    } else {
        errors
    }
}

/// The open ports of one address, in the order in which they were found.
#[derive(Debug)]
pub struct HostPorts {
    pub ip: IpAddress,
    pub ports: Vec<u16>,
}

/// The ports of the open targets at `ip`, in the order of the targets.
pub open spec fn ports_at(open: Seq<Socket>, ip: IpAddress) -> Seq<u16> {
    open.filter(|socket: Socket| socket.ip == ip).map_values(|socket: Socket| socket.port)
}

/// The addresses of a list of groups, in the order of the groups.
pub open spec fn group_addresses(groups: Seq<HostPorts>) -> Seq<IpAddress> {
    groups.map_values(|group: HostPorts| group.ip)
}

/// The addresses of the open targets, each once and in their order.
pub fn open_addresses(open: &Vec<Socket>) -> (found: AddressSet)
    ensures
        found.wf(),
        forall|k: int| 0 <= k < open@.len() ==> found@.contains(#[trigger] open@[k].ip),
        forall|ip: IpAddress|
            #[trigger] found@.contains(ip) ==> exists|k: int|
                0 <= k < open@.len() && #[trigger] open@[k].ip == ip,
{
    let mut found = AddressSet::new();
    let mut i: usize = 0;
    while i < open.len()
        invariant
            0 <= i <= open@.len(),
            found.wf(),
            forall|k: int| 0 <= k < i ==> found@.contains(#[trigger] open@[k].ip),
            forall|ip: IpAddress|
                #[trigger] found@.contains(ip) ==> exists|k: int|
                    0 <= k < i && #[trigger] open@[k].ip == ip,
        decreases open@.len() - i,
    {
        found.insert(open[i].ip);
        i += 1;
    }
    found
}

/// No port is open at an address exactly when no open target is at it.
pub proof fn lemma_no_ports_at(open: Seq<Socket>, ip: IpAddress)
    ensures
        ports_at(open, ip).len() == 0 <==> forall|k: int|
            0 <= k < open.len() ==> (#[trigger] open[k]).ip != ip,
{
    let at = |socket: Socket| socket.ip == ip;
    let kept = open.filter(at);
    if kept.len() > 0 {
        open.lemma_filter_pred(at, 0);
        open.lemma_filter_contains_rev(at, kept[0]);
        let k = choose|k: int| 0 <= k < open.len() && open[k] == kept[0];
        assert(open[k].ip == ip);
    }
    if exists|k: int| 0 <= k < open.len() && (#[trigger] open[k]).ip == ip {
        let k = choose|k: int| 0 <= k < open.len() && (#[trigger] open[k]).ip == ip;
        open.lemma_filter_contains(at, k);
        assert(kept.len() > 0);
    }
}

/// The ports at `ip` among the targets, after one more target.
pub proof fn lemma_ports_at_next(open: Seq<Socket>, n: int, ip: IpAddress)
    requires
        0 <= n < open.len(),
    ensures
        ports_at(open.take(n + 1), ip) == (if open[n].ip == ip {
            ports_at(open.take(n), ip).push(open[n].port)
        } else {
            ports_at(open.take(n), ip)
        }),
{
    reveal(Seq::filter);
    let at = |socket: Socket| socket.ip == ip;
    let port_of = |socket: Socket| socket.port;
    assert(open.take(n + 1).drop_last() =~= open.take(n));
    assert(open.take(n + 1).last() == open[n]);
    let kept = open.take(n).filter(at);
    if open[n].ip == ip {
        assert(kept.push(open[n]).map_values(port_of) =~= kept.map_values(port_of).push(
            open[n].port,
        ));
    }
}

/// The open targets by address: for each address with an open port, the
/// open ports at it in the order in which they were found. The addresses
/// stand in their order, each once.
pub fn group_by_address(open: &Vec<Socket>) -> (groups: Vec<HostPorts>)
    ensures
        strictly_ascending(group_addresses(groups@)),
        forall|g: int|
            0 <= g < groups@.len() ==> (#[trigger] groups@[g]).ports@ == ports_at(
                open@,
                groups@[g].ip,
            ) && groups@[g].ports@.len() > 0,
        forall|k: int|
            0 <= k < open@.len() ==> group_addresses(groups@).contains(#[trigger] open@[k].ip),
{
    let ips = open_addresses(open).into_vec();
    let mut groups: Vec<HostPorts> = Vec::new();
    let mut g: usize = 0;
    while g < ips.len()
        invariant
            0 <= g <= ips@.len(),
            groups@.len() == g,
            forall|j: int| 0 <= j < g ==> (#[trigger] groups@[j]).ip == ips@[j],
            forall|j: int| 0 <= j < g ==> (#[trigger] groups@[j]).ports@.len() == 0,
        decreases ips@.len() - g,
    {
        groups.push(HostPorts { ip: ips[g], ports: Vec::new() });
        g += 1;
    }
    let mut n: usize = 0;
    proof {
        reveal(Seq::filter);
        assert forall|j: int| 0 <= j < groups@.len() implies (#[trigger] groups@[j]).ports@
            == ports_at(open@.take(0), groups@[j].ip) by {
            let at = |socket: Socket| socket.ip == groups@[j].ip;
            assert(open@.take(0).filter(at) =~= Seq::<Socket>::empty());
            assert(groups@[j].ports@ =~= ports_at(open@.take(0), groups@[j].ip));
        }
    }
    while n < open.len()
        invariant
            0 <= n <= open@.len(),
            strictly_ascending(ips@),
            groups@.len() == ips@.len(),
            forall|k: int| 0 <= k < open@.len() ==> ips@.contains(#[trigger] open@[k].ip),
            forall|j: int| 0 <= j < groups@.len() ==> (#[trigger] groups@[j]).ip == ips@[j],
            forall|j: int|
                0 <= j < groups@.len() ==> (#[trigger] groups@[j]).ports@ == ports_at(
                    open@.take(n as int),
                    groups@[j].ip,
                ),
        decreases open@.len() - n,
    {
        let socket = open[n];
        let ghost before = groups@;
        assert(ips@.contains(open@[n as int].ip));
        let place = position_of(&ips, &socket.ip);
        let at: usize = place.unwrap();
        groups[at].ports.push(socket.port);
        proof {
            assert forall|j: int| 0 <= j < groups@.len() implies (#[trigger] groups@[j]).ports@
                == ports_at(open@.take(n + 1), groups@[j].ip) by {
                lemma_ports_at_next(open@, n as int, groups@[j].ip);
                if j != at {
                    assert(groups@[j] == before[j]);
                    if ips@[j] == socket.ip {
                        if j < at {
                            assert(ips@[j].spec_precedes(&ips@[at as int]));
                        } else {
                            assert(ips@[at as int].spec_precedes(&ips@[j]));
                        }
                    }
                }
            }
        }
        n += 1;
    }
    proof {
        assert(open@.take(open@.len() as int) =~= open@);
        assert(group_addresses(groups@) =~= ips@);
        assert forall|j: int| 0 <= j < groups@.len() implies (#[trigger] groups@[j]).ports@.len()
            > 0 by {
            let ip = groups@[j].ip;
            assert(ips@.contains(ips@[j]));
            lemma_no_ports_at(open@, ip);
        }
        assert forall|k: int| 0 <= k < open@.len() implies group_addresses(groups@).contains(
            #[trigger] open@[k].ip,
        ) by {
            assert(ips@.contains(open@[k].ip));
        }
    }
    groups
}

/// The addresses of a scan at which no open port was found, in the order
/// in which the scan names them.
pub fn addresses_without_open_ports(ips: &Vec<IpAddress>, open: &Vec<Socket>) -> (silent: Vec<
    IpAddress,
>)
    ensures
        silent@ == ips@.filter(|ip: IpAddress| ports_at(open@, ip).len() == 0),
{
    let ghost quiet = |ip: IpAddress| ports_at(open@, ip).len() == 0;
    let found = open_addresses(open);
    let mut silent: Vec<IpAddress> = Vec::new();
    let mut i: usize = 0;
    proof {
        reveal(Seq::filter);
        assert(ips@.take(0).filter(quiet) =~= Seq::<IpAddress>::empty());
    }
    while i < ips.len()
        invariant
            0 <= i <= ips@.len(),
            found.wf(),
            forall|k: int| 0 <= k < open@.len() ==> found@.contains(#[trigger] open@[k].ip),
            forall|ip: IpAddress|
                #[trigger] found@.contains(ip) ==> exists|k: int|
                    0 <= k < open@.len() && #[trigger] open@[k].ip == ip,
            quiet == |ip: IpAddress| ports_at(open@, ip).len() == 0,
            silent@ == ips@.take(i as int).filter(quiet),
        decreases ips@.len() - i,
    {
        let ip = ips[i];
        let answered: bool = found.contains(&ip);
        proof {
            reveal(Seq::filter);
            assert(ips@.take(i + 1).drop_last() =~= ips@.take(i as int));
            assert(ips@.take(i + 1).last() == ip);
            lemma_no_ports_at(open@, ip);
            if answered {
                let k = choose|k: int| 0 <= k < open@.len() && #[trigger] open@[k].ip == ip;
                assert(open@[k].ip == ip);
            }
        }
        if !answered {
            silent.push(ip);
        }
        i += 1;
    }
    assert(ips@.take(ips@.len() as int) =~= ips@);
    silent
}

/// The open targets among the findings, in the order of the findings.
pub open spec fn opens_of(results: Seq<ResultView>) -> Seq<Socket>
    decreases results.len(),
{
    if results.len() == 0 {
        Seq::empty()
    } else {
        match results.last() {
            ResultView::Open(socket) => opens_of(results.drop_last()).push(socket),
            _ => opens_of(results.drop_last()),
        }
    }
}

/// The failures kept of the findings when at most `cap` are kept: each
/// failure in the order of the findings, unless it is kept already or the
/// cap is reached.
pub open spec fn kept_errors(results: Seq<ResultView>, cap: int) -> Seq<ErrorView>
    decreases results.len(),
{
    if results.len() == 0 {
        Seq::empty()
    } else {
        match results.last() {
            ResultView::Failed(error) => recorded(kept_errors(results.drop_last(), cap), error, cap),
            ResultView::Fatal(error) => recorded(kept_errors(results.drop_last(), cap), error, cap),
            _ => kept_errors(results.drop_last(), cap),
        }
    }
}

/// Whether one of the findings is fatal.
pub open spec fn any_fatal(results: Seq<ResultView>) -> bool {
    exists|i: int| 0 <= i < results.len() && #[trigger] results[i] is Fatal
}

/// One run of a scan: the targets handed out so far, the number of probes
/// under way, and what the probes that ended have found.
pub struct ScanRun<'s> {
    targets: SocketIterator<'s>,
    batch_size: u16,
    address_count: usize,
    in_flight: usize,
    started: bool,
    aborted: bool,
    open_sockets: Vec<Socket>,
    errors: ErrorLog,
    history: Ghost<Seq<ResultView>>,
}

impl<'s> ScanRun<'s> {
    /// The findings of the probes that have ended, in the order in which
    /// they ended.
    pub closed spec fn results(self) -> Seq<ResultView> {
        self.history@
    }

    /// The targets of the run, in the order in which they are handed out.
    pub closed spec fn plan(self) -> Seq<Socket> {
        cross_product(self.targets.ports(), self.targets.ips())
    }

    /// The number of targets handed out so far.
    pub closed spec fn dispatched(self) -> int {
        self.targets.position()
    }

    /// The number of probes under way.
    pub closed spec fn in_flight(self) -> int {
        self.in_flight as int
    }

    /// The number of probes that may be under way at once.
    pub closed spec fn window(self) -> int {
        self.batch_size as int
    }

    /// The most failures that the run keeps.
    pub closed spec fn error_cap(self) -> int {
        self.address_count * ERRORS_PER_ADDRESS
    }

    /// Whether the first window of targets has been handed out.
    pub closed spec fn has_started(self) -> bool {
        self.started
    }

    /// Whether the run was given up.
    pub closed spec fn is_aborted(self) -> bool {
        self.aborted
    }

    /// The open targets found so far, in the order in which they were
    /// found.
    pub closed spec fn open(self) -> Seq<Socket> {
        self.open_sockets@
    }

    /// The failures kept so far.
    pub closed spec fn errors(self) -> Seq<ErrorView> {
        self.errors@
    }

    /// The probes under way fit the window and are among the targets
    /// handed out; while targets are left, the window is full; each target
    /// handed out is under way or has ended; and what is kept follows
    /// from the findings of the probes that have ended: the open targets,
    /// the failures, each once and no more than the cap, and whether the
    /// run was given up.
    pub closed spec fn wf(self) -> bool {
        &&& self.targets.wf()
        &&& 0 <= self.dispatched() <= self.plan().len()
        &&& self.in_flight <= self.batch_size
        &&& self.in_flight <= self.dispatched()
        &&& !self.started ==> {
            &&& self.dispatched() == 0
            &&& !self.aborted
            &&& self.open_sockets@.len() == 0
            &&& self.errors@.len() == 0
        }
        &&& self.errors.wf()
        &&& self.started && !self.aborted && self.dispatched() < self.plan().len()
            ==> self.in_flight == self.batch_size
        &&& self.errors().len() <= self.error_cap()
        &&& self.history@.len() + self.in_flight == self.dispatched()
        &&& self.open_sockets@ == opens_of(self.history@)
        &&& self.errors() == kept_errors(self.history@, self.error_cap())
        &&& self.aborted == any_fatal(self.history@)
    }

    /// A run of `scanner` before any target is handed out.
    pub fn new(scanner: &'s Scanner) -> (run: Self)
        requires
            scanner.wf(),
        ensures
            run.wf(),
            run.plan() == scanner.plan(),
            run.window() == scanner.window(),
            run.error_cap() == scanner.error_cap(),
            !run.has_started(),
            !run.is_aborted(),
            run.dispatched() == 0,
            run.in_flight() == 0,
            run.open().len() == 0,
            run.errors().len() == 0,
            run.results().len() == 0,
    {
        let targets = SocketIterator::new(scanner.ips.as_slice(), scanner.ports.as_slice());
        let run = ScanRun {
            targets,
            batch_size: scanner.batch_size,
            address_count: scanner.ips.len(),
            in_flight: 0,
            started: false,
            aborted: false,
            open_sockets: Vec::new(),
            errors: ErrorLog::new(),
            history: Ghost(Seq::empty()),
        };
        proof {
            run.targets.lemma_position_in_bounds();
            assert(run.errors() =~= Seq::<ErrorView>::empty());
            assert(run.error_cap() >= 0) by (nonlinear_arith)
                requires
                    run.error_cap() == run.address_count * ERRORS_PER_ADDRESS,
            ;
        }
        run
    }

    /// Hands out the first window of targets: the first `window()` targets
    /// of the plan, or all of them where there are fewer.
    pub fn start(&mut self) -> (batch: Vec<Socket>)
        requires
            old(self).wf(),
            !old(self).has_started(),
        ensures
            final(self).wf(),
            final(self).has_started(),
            !final(self).is_aborted(),
            final(self).plan() == old(self).plan(),
            final(self).window() == old(self).window(),
            final(self).error_cap() == old(self).error_cap(),
            batch@ == old(self).plan().take(
                if old(self).window() <= old(self).plan().len() {
                    old(self).window()
                } else {
                    old(self).plan().len() as int
                },
            ),
            final(self).dispatched() == batch@.len(),
            final(self).in_flight() == batch@.len(),
            final(self).open() == old(self).open(),
            final(self).errors() == old(self).errors(),
            final(self).results() == old(self).results(),
    {
        let mut batch: Vec<Socket> = Vec::new();
        let mut exhausted: bool = false;
        let ghost plan = self.plan();
        proof {
            self.targets.lemma_position_in_bounds();
            assert(plan.take(0) =~= Seq::<Socket>::empty());
        }
        while batch.len() < self.batch_size as usize && !exhausted
            invariant
                self.targets.wf(),
                self.plan() == plan,
                self.batch_size == old(self).batch_size,
                self.address_count == old(self).address_count,
                self.in_flight == 0,
                !self.aborted,
                self.open_sockets@ == old(self).open_sockets@,
                self.errors == old(self).errors,
                self.history@ == old(self).history@,
                batch@.len() <= self.batch_size,
                self.dispatched() == batch@.len(),
                batch@.len() <= plan.len(),
                batch@ == plan.take(batch@.len() as int),
                exhausted ==> batch@.len() == plan.len(),
            decreases plan.len() - batch@.len() + (if exhausted {
                0int
            } else {
                1int
            }),
        {
            proof {
                self.targets.lemma_position_in_bounds();
            }
            match self.targets.next() {
                Some(target) => {
                    proof {
                        assert(batch@.push(target) =~= plan.take(batch@.len() as int + 1));
                    }
                    batch.push(target);
                },
                None => {
                    exhausted = true;
                },
            }
            proof {
                self.targets.lemma_position_in_bounds();
            }
        }
        self.in_flight = batch.len();
        self.started = true;
        batch
    }

    /// Takes note of the finding of a probe that has ended and hands out
    /// the next target, if one is left and the run goes on.
    ///
    /// An open target is added to the open ones. A failure is kept unless
    /// it is kept already or the cap is reached. A fatal failure is kept
    /// in the same way and gives the run up: from then on no target is
    /// handed out.
    pub fn complete(&mut self, result: ProbeResult) -> (next: Option<Socket>)
        requires
            old(self).wf(),
            old(self).has_started(),
            old(self).in_flight() > 0,
        ensures
            final(self).wf(),
            final(self).has_started(),
            final(self).plan() == old(self).plan(),
            final(self).window() == old(self).window(),
            final(self).error_cap() == old(self).error_cap(),
            final(self).results() == old(self).results().push(result@),
            final(self).is_aborted() == (old(self).is_aborted() || result@ is Fatal),
            final(self).open() == (match result@ {
                ResultView::Open(socket) => old(self).open().push(socket),
                _ => old(self).open(),
            }),
            final(self).errors() == (match result@ {
                ResultView::Failed(error) => recorded(old(self).errors(), error, old(self).error_cap()),
                ResultView::Fatal(error) => recorded(old(self).errors(), error, old(self).error_cap()),
                _ => old(self).errors(),
            }),
            !final(self).is_aborted() && old(self).dispatched() < old(self).plan().len() ==> {
                &&& next == Some(old(self).plan()[old(self).dispatched()])
                &&& final(self).dispatched() == old(self).dispatched() + 1
                &&& final(self).in_flight() == old(self).in_flight()
            },
            final(self).is_aborted() || old(self).dispatched() >= old(self).plan().len() ==> {
                &&& next.is_none()
                &&& final(self).dispatched() == old(self).dispatched()
                &&& final(self).in_flight() == old(self).in_flight() - 1
            },
    {
        let ghost found = result@;
        let ghost before = self.history@;
        match result {
            ProbeResult::Open(socket) => {
                self.open_sockets.push(socket);
            },
            ProbeResult::Closed(_) => {},
            ProbeResult::Failed(error) => {
                self.record(error);
            },
            ProbeResult::Fatal(error) => {
                self.record(error);
                self.aborted = true;
            },
        }
        self.history = Ghost(before.push(found));
        proof {
            let after = before.push(found);
            assert(after.drop_last() =~= before);
            assert(after.last() == found);
            assert(any_fatal(after) == (any_fatal(before) || found is Fatal)) by {
                if any_fatal(before) {
                    let i = choose|i: int| 0 <= i < before.len() && #[trigger] before[i] is Fatal;
                    assert(after[i] is Fatal);
                }
                if found is Fatal {
                    assert(after[after.len() - 1] is Fatal);
                }
                if any_fatal(after) {
                    let i = choose|i: int| 0 <= i < after.len() && #[trigger] after[i] is Fatal;
                    if i < before.len() {
                        assert(before[i] is Fatal);
                    }
                }
            }
            self.targets.lemma_position_in_bounds();
        }
        let next = if self.aborted {
            None
        } else {
            self.targets.next()
        };
        proof {
            self.targets.lemma_position_in_bounds();
        }
        if next.is_none() {
            self.in_flight = self.in_flight - 1;
        }
        next
    }

    /// Keeps a failure unless it is kept already or the cap is reached.
    fn record(&mut self, error: ScanError)
        requires
            old(self).errors.wf(),
            old(self).errors().len() <= old(self).error_cap(),
        ensures
            final(self).errors() == recorded(old(self).errors(), error@, old(self).error_cap()),
            final(self).errors.wf(),
            final(self).errors().len() <= final(self).error_cap(),
            final(self).targets == old(self).targets,
            final(self).batch_size == old(self).batch_size,
            final(self).address_count == old(self).address_count,
            final(self).in_flight == old(self).in_flight,
            final(self).started == old(self).started,
            final(self).aborted == old(self).aborted,
            final(self).open_sockets == old(self).open_sockets,
            final(self).history == old(self).history,
    {
        let cap: u128 = (self.address_count as u128) * (ERRORS_PER_ADDRESS as u128);
        if (self.errors.len() as u128) < cap && !self.errors.contains(&error) {
            self.errors.push(error);
        }
    }

    /// Whether the run is over: it has started, and no probe is under way
    /// or the run was given up.
    pub fn is_finished(&self) -> (finished: bool)
        ensures
            finished == (self.has_started() && (self.in_flight() == 0 || self.is_aborted())),
    {
        self.started && (self.in_flight == 0 || self.aborted)
    }

    /// The number of probes under way.
    pub fn pending(&self) -> (pending: usize)
        ensures
            pending == self.in_flight(),
    {
        self.in_flight
    }

    /// Ends the run and gives what it has found. A run that was given up
    /// gives the same inside an error, so that nothing found is lost.
    pub fn finish(self) -> (outcome: Result<ScanResult, ScanAbort>)
        ensures
            outcome.is_err() == self.is_aborted(),
            match outcome {
                Ok(found) => found.open@ == self.open() && error_views(found.errors@)
                    == self.errors(),
                Err(abort) => abort.partial.open@ == self.open() && error_views(
                    abort.partial.errors@,
                ) == self.errors(),
            },
    {
        let found = ScanResult { open: self.open_sockets, errors: self.errors.into_vec() };
        if self.aborted {
            Err(ScanAbort { partial: found })
        } else {
            Ok(found)
        }
    }
}

/// A run that has ended without being given up has handed out every target
/// of its plan, each exactly once, as long as its window holds a probe;
/// and as many probes have ended as there are targets.
pub proof fn lemma_finished_run_covers_plan(run: ScanRun)
    requires
        run.wf(),
        run.has_started(),
        !run.is_aborted(),
        run.in_flight() == 0,
        run.window() > 0,
    ensures
        run.dispatched() == run.plan().len(),
        run.results().len() == run.plan().len(),
{
}

/// What a run has found follows from the findings of the probes that have
/// ended, in the order in which they ended: the open targets are those
/// found open, the failures are kept one by one up to the cap, the run is
/// given up once a finding is fatal, and each target handed out is either
/// under way or has ended.
pub proof fn lemma_findings_follow_results(run: ScanRun)
    requires
        run.wf(),
    ensures
        run.open() == opens_of(run.results()),
        run.errors() == kept_errors(run.results(), run.error_cap()),
        run.is_aborted() == any_fatal(run.results()),
        run.results().len() + run.in_flight() == run.dispatched(),
{
}

/// While a run goes on, no more probes are under way than the window
/// holds, and as long as targets are left the window is full.
pub proof fn lemma_window_is_kept(run: ScanRun)
    requires
        run.wf(),
    ensures
        0 <= run.in_flight() <= run.window(),
        run.in_flight() <= run.dispatched() <= run.plan().len(),
        run.has_started() && !run.is_aborted() && run.dispatched() < run.plan().len()
            ==> run.in_flight() == run.window(),
        run.errors().no_duplicates(),
        run.errors().len() <= run.error_cap(),
{
    lemma_log_keeps_each_once(run.errors);
}

} // verus!
