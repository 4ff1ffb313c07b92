//! The targets of a scan: every address at every port.

use vstd::prelude::*;
use vstd::arithmetic::div_mod::lemma_fundamental_div_mod_converse;
use vstd::arithmetic::mul::{lemma_mul_inequality, lemma_mul_is_distributive_add_other_way};
use crate::net::ip::{IpAddress, Socket};

verus! {

/// Every address at every port, port by port: all the addresses at the
/// first port, then all of them at the second, and so on.
pub open spec fn cross_product(ports: Seq<u16>, ips: Seq<IpAddress>) -> Seq<Socket> {
    Seq::new(
        ports.len() * ips.len(),
        |k: int| Socket { ip: ips[k % (ips.len() as int)], port: ports[k / (ips.len() as int)] },
    )
}

/// A cursor over the targets of a scan. It gives each target once, in the
/// order of `cross_product`, and cannot be moved back.
pub struct SocketIterator<'s> {
    ips: &'s [IpAddress],
    ports: &'s [u16],
    port_index: usize,
    ip_index: usize,
}

impl<'s> SocketIterator<'s> {
    /// The addresses of the scan.
    pub closed spec fn ips(self) -> Seq<IpAddress> {
        self.ips@
    }

    /// The ports of the scan, in the order in which they are visited.
    pub closed spec fn ports(self) -> Seq<u16> {
        self.ports@
    }

    /// The number of targets given so far.
    pub closed spec fn position(self) -> int {
        self.port_index * self.ips@.len() + self.ip_index
    }

    /// The cursor stands on a target or right behind the last one.
    pub closed spec fn wf(self) -> bool {
        &&& self.port_index <= self.ports@.len()
        &&& self.ip_index <= self.ips@.len()
        &&& self.ips@.len() > 0 ==> self.ip_index < self.ips@.len()
        &&& self.port_index == self.ports@.len() ==> self.ip_index == 0
    }

    /// The targets still to come, in the order in which `next` gives them.
    pub open spec fn remaining(self) -> Seq<Socket> {
        cross_product(self.ports(), self.ips()).skip(self.position())
    }

    /// A cursor before the first target of `ips` at `ports`.
    pub fn new(ips: &'s [IpAddress], ports: &'s [u16]) -> (it: Self)
        ensures
            it.wf(),
            it.ips() == ips@,
            it.ports() == ports@,
            it.position() == 0,
            it.remaining() == cross_product(ports@, ips@),
    {
        let it = SocketIterator { ips, ports, port_index: 0, ip_index: 0 };
        assert(it.remaining() =~= cross_product(ports@, ips@));
        it
    }

    /// A well-formed cursor has given no more targets than there are.
    pub proof fn lemma_position_in_bounds(self)
        requires
            self.wf(),
        ensures
            0 <= self.position() <= self.ports().len() * self.ips().len(),
            self.remaining().len() == self.ports().len() * self.ips().len() - self.position(),
    {
        let n: int = self.ips@.len() as int;
        let m: int = self.ports@.len() as int;
        let p: int = self.port_index as int;
        if p < m {
            assert((p + 1) * n <= m * n) by {
                lemma_mul_inequality(p + 1, m, n);
            }
            assert((p + 1) * n == p * n + n) by {
                lemma_mul_is_distributive_add_other_way(n, p, 1);
            }
        }
        assert(0 <= p * n) by {
            lemma_mul_inequality(0, p, n);
        }
    }

    /// Gives the next target, or `None` once every address has been given
    /// at every port.
    pub fn next(&mut self) -> (target: Option<Socket>)
        requires
            old(self).wf(),
        ensures
            final(self).wf(),
            final(self).ips() == old(self).ips(),
            final(self).ports() == old(self).ports(),
            old(self).remaining().len() == 0 ==> target.is_none() && final(self).position() == old(
                self,
            ).position(),
            old(self).remaining().len() > 0 ==> target == Some(old(self).remaining()[0])
                && final(self).position() == old(self).position() + 1,
    {
        proof {
            self.lemma_position_in_bounds();
        }
        if self.ips.len() == 0 || self.port_index >= self.ports.len() {
            proof {
                let n: int = self.ips@.len() as int;
                let m: int = self.ports@.len() as int;
                if n == 0 {
                    assert(m * n == 0) by (nonlinear_arith)
                        requires
                            n == 0,
                    ;
                }
            }
            return None;
        }
        let target = Socket { ip: self.ips[self.ip_index], port: self.ports[self.port_index] };
        proof {
            let n: int = self.ips@.len() as int;
            let p: int = self.port_index as int;
            let i: int = self.ip_index as int;
            let m: int = self.ports@.len() as int;
            lemma_fundamental_div_mod_converse(p * n + i, n, p, i);
            assert((p + 1) * n == p * n + n) by {
                lemma_mul_is_distributive_add_other_way(n, p, 1);
            }
            assert((p + 1) * n <= m * n) by {
                lemma_mul_inequality(p + 1, m, n);
            }
        }
        self.ip_index = self.ip_index + 1;
        if self.ip_index == self.ips.len() {
            self.ip_index = 0;
            self.port_index = self.port_index + 1;
        }
        Some(target)
    }
}

} // verus!
