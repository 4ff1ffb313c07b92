//! A generator that walks a range of ports in a scattered order without
//! holding the range in memory. It steps through the offsets `0 .. n` by a
//! stride that is coprime to `n`, which visits every offset exactly once.

use vstd::prelude::*;
use vstd::arithmetic::div_mod::{lemma_add_mod_noop_right, lemma_small_mod};
use vstd::arithmetic::mul::{lemma_mul_basics, lemma_mul_is_distributive_add_other_way};
use gcd::Gcd;
use rand::Rng;
use rand::rngs::ThreadRng;
use crate::net::coprime::{
    gcd, lemma_every_residue_is_reached, lemma_period_returns, lemma_predecessor_is_coprime,
    lemma_steps_are_distinct, residue_at,
};

verus! {

/// `rand::rngs::ThreadRng`: the random number generator of the current
/// thread. Nothing is known of its state.
#[verifier::external_type_specification]
#[verifier::external_body]
pub struct ExThreadRng(ThreadRng);

/// `rand::thread_rng` hands out the generator of the current thread. Nothing
/// is claimed of it.
pub assume_specification[ rand::thread_rng ]() -> (rng: ThreadRng)
;

/// `rand::Rng::gen_range` on a half-open range of `u32`. The range must not
/// be empty, else the call panics; the value drawn lies inside the range.
/// Which value it is depends on chance, so no more is claimed.
#[verifier::external_body]
pub(crate) fn gen_range(rng: &mut ThreadRng, low: u32, high: u32) -> (drawn: u32)
    requires
        low < high,
    ensures
        low <= drawn < high,
{
    rng.gen_range(low..high)
}

/// `gcd::Gcd::gcd` on `u32`: the greatest common divisor of the two numbers,
/// where the divisor of a number and zero is the number itself.
#[verifier::external_body]
pub(crate) fn greatest_common_divisor(a: u32, b: u32) -> (g: u32)
    ensures
        g == gcd(a as nat, b as nat),
{
    a.gcd(b)
}

/// How many strides are drawn at random before the fallback is taken.
pub const STRIDE_ATTEMPTS: usize = 10;

/// The ports of a traversal of `n` ports from `start`: the `k`-th port is
/// `start` plus the residue reached after `k` steps of `step` from `first`.
pub open spec fn traversal(start: int, n: int, first: int, step: int) -> Seq<u16> {
    Seq::new(n as nat, |k: int| (start + residue_at(n, first, step, k)) as u16)
}

/// The `n` ports from `start` in ascending order.
pub open spec fn ascending(start: int, n: int) -> Seq<u16> {
    Seq::new(n as nat, |k: int| (start + k) as u16)
}

/// `ports` holds each of the `n` ports from `start` exactly once, and
/// nothing else.
pub open spec fn covers_range(ports: Seq<u16>, start: int, n: int) -> bool {
    &&& ports.len() == n
    &&& ports.no_duplicates()
    &&& forall|p: u16| ports.contains(p) <==> start <= p < start + n
}

/// Whether `step` is one that a random draw for `n` residues can give: a
/// value from the middle half of `0 .. n`, or the fallback `n - 1`.
pub open spec fn stride_in_band(n: int, step: int) -> bool {
    step == n - 1 || n / 4 <= step < n - n / 4
}

/// The index of the first of `candidates` that is coprime to `n`, or the
/// length of `candidates` if none is.
pub open spec fn first_coprime(n: nat, candidates: Seq<u32>) -> int
    decreases candidates.len(),
{
    if candidates.len() == 0 {
        0
    } else if gcd(n, candidates[0] as nat) == 1 {
        0
    } else {
        1 + first_coprime(n, candidates.drop_first())
    }
}

/// The stride chosen for `n` residues from the candidates drawn: the first
/// candidate coprime to `n`, or `n - 1` if there is none.
pub open spec fn selected_step(n: nat, candidates: Seq<u32>) -> int {
    let i = first_coprime(n, candidates);
    if i < candidates.len() {
        candidates[i] as int
    } else {
        n - 1
    }
}

/// Chooses the stride for a traversal of `n` residues from the candidates
/// that were drawn: the first one coprime to `n`, and `n - 1` when none is.
pub fn select_step(n: u32, candidates: &Vec<u32>) -> (step: u32)
    requires
        n >= 1,
    ensures
        step == selected_step(n as nat, candidates@),
        gcd(n as nat, step as nat) == 1,
        (forall|i: int| 0 <= i < candidates@.len() ==> #[trigger] candidates@[i] < n) ==> step < n,
        (forall|i: int|
            0 <= i < candidates@.len() ==> n / 4 <= #[trigger] candidates@[i] < n - n / 4)
            ==> stride_in_band(
            n as int,
            step as int,
        ),
{
    let mut i: usize = 0;
    assert(candidates@.skip(0) =~= candidates@);
    while i < candidates.len()
        invariant
            0 <= i <= candidates@.len(),
            first_coprime(n as nat, candidates@) == i + first_coprime(
                n as nat,
                candidates@.skip(i as int),
            ),
        decreases candidates@.len() - i,
    {
        let candidate: u32 = candidates[i];
        proof {
            let rest = candidates@.skip(i as int);
            assert(rest[0] == candidate);
            assert(rest.drop_first() =~= candidates@.skip(i + 1));
        }
        if greatest_common_divisor(n, candidate) == 1 {
            return candidate;
        }
        i += 1;
    }
    proof {
        assert(candidates@.skip(i as int).len() == 0);
        lemma_predecessor_is_coprime(n as nat);
    }
    n - 1
}

/// Draws the stride for a traversal of `n` residues: up to
/// `STRIDE_ATTEMPTS` values from the middle half of `0 .. n`, of which the
/// first that is coprime to `n` is taken, and `n - 1` when none is.
pub(crate) fn pick_random_coprime(rng: &mut ThreadRng, n: u32) -> (step: u32)
    requires
        n >= 1,
    ensures
        step < n,
        gcd(n as nat, step as nat) == 1,
        stride_in_band(n as int, step as int),
{
    let range_boundary: u32 = n / 4;
    let lower_range: u32 = range_boundary;
    let upper_range: u32 = n - range_boundary;
    let mut candidates: Vec<u32> = Vec::new();
    let mut attempt: usize = 0;
    while attempt < STRIDE_ATTEMPTS
        invariant
            n >= 1,
            lower_range == n / 4,
            upper_range == n - n / 4,
            forall|i: int|
                0 <= i < candidates@.len() ==> lower_range <= #[trigger] candidates@[i]
                    < upper_range,
        decreases STRIDE_ATTEMPTS - attempt,
    {
        let candidate: u32 = gen_range(rng, lower_range, upper_range);
        candidates.push(candidate);
        attempt += 1;
    }
    select_step(n, &candidates)
}

/// A traversal of the ports `start ..= end` that visits each port once, in
/// an order fixed by the offset it begins at and by its stride.
pub struct RangeIterator {
    active: bool,
    normalized_end: u32,
    normalized_first_pick: u32,
    normalized_pick: u32,
    actual_start: u32,
    step: u32,
    emitted: Ghost<nat>,
}

impl RangeIterator {
    /// The lowest port of the range.
    pub closed spec fn start(self) -> int {
        self.actual_start as int
    }

    /// The number of ports in the range.
    pub closed spec fn count(self) -> int {
        self.normalized_end as int
    }

    /// The offset of the first port that the traversal gives.
    pub closed spec fn first_pick(self) -> int {
        self.normalized_first_pick as int
    }

    /// The distance, modulo `count()`, between two ports that follow one
    /// another.
    pub closed spec fn stride(self) -> int {
        self.step as int
    }

    /// The number of ports that the traversal has given so far.
    pub closed spec fn given(self) -> int {
        self.emitted@ as int
    }

    /// The range fits the ports, the offsets lie inside it, the stride is
    /// coprime to its size, and the cursor stands where `given()` steps
    /// lead.
    pub closed spec fn wf(self) -> bool {
        &&& 1 <= self.normalized_end <= 65536
        &&& self.actual_start + self.normalized_end <= 65536
        &&& self.normalized_first_pick < self.normalized_end
        &&& self.step < self.normalized_end
        &&& gcd(self.normalized_end as nat, self.step as nat) == 1
        &&& self.emitted@ <= self.normalized_end
        &&& self.active <==> self.emitted@ < self.normalized_end
        &&& self.normalized_pick == residue_at(
            self.count(),
            self.first_pick(),
            self.stride(),
            self.given(),
        )
    }

    /// The ports still to come, in the order in which `next` gives them.
    pub closed spec fn remaining(self) -> Seq<u16> {
        traversal(self.start(), self.count(), self.first_pick(), self.stride()).skip(self.given())
    }

    /// A well-formed traversal has given no more ports than its range
    /// holds, and what remains are the others.
    pub proof fn lemma_remaining_len(self)
        requires
            self.wf(),
        ensures
            1 <= self.count() <= 65536,
            0 <= self.start(),
            self.start() + self.count() <= 65536,
            0 <= self.first_pick() < self.count(),
            0 <= self.stride() < self.count(),
            gcd(self.count() as nat, self.stride() as nat) == 1,
            0 <= self.given() <= self.count(),
            self.remaining().len() == self.count() - self.given(),
            self.remaining() == traversal(
                self.start(),
                self.count(),
                self.first_pick(),
                self.stride(),
            ).skip(self.given()),
    {
    }

    /// A traversal of `start ..= end` that begins at the offset
    /// `first_pick` and advances by `step`. It exists when the range is
    /// a range of ports, both numbers lie below its size, and `step` is
    /// coprime to its size.
    pub fn with_stride(start: u32, end: u32, first_pick: u32, step: u32) -> (made: Option<Self>)
        ensures
            made.is_some() <==> {
                &&& start <= end <= 65535
                &&& first_pick < end - start + 1
                &&& step < end - start + 1
                &&& gcd((end - start + 1) as nat, step as nat) == 1
            },
            made.is_some() ==> {
                let it = made.unwrap();
                &&& it.wf()
                &&& it.start() == start
                &&& it.count() == end - start + 1
                &&& it.first_pick() == first_pick
                &&& it.stride() == step
                &&& it.given() == 0
                &&& it.remaining() == traversal(
                    start as int,
                    end - start + 1,
                    first_pick as int,
                    step as int,
                )
            },
    {
        if start > end || end > 65535 {
            return None;
        }
        let normalized_end: u32 = end - start + 1;
        if first_pick >= normalized_end || step >= normalized_end {
            return None;
        }
        if greatest_common_divisor(normalized_end, step) != 1 {
            return None;
        }
        let it = RangeIterator {
            active: true,
            normalized_end,
            normalized_first_pick: first_pick,
            normalized_pick: first_pick,
            actual_start: start,
            step,
            emitted: Ghost(0),
        };
        proof {
            assert(0 * (step as int) == 0) by {
                lemma_mul_basics(step as int);
            }
            lemma_small_mod(first_pick as nat, normalized_end as nat);
            assert(it.remaining() =~= traversal(
                start as int,
                end - start + 1,
                first_pick as int,
                step as int,
            ));
        }
        Some(it)
    }

    /// A traversal of `start ..= end` whose first offset and stride are
    /// drawn at random. It gives every port of the range exactly once,
    /// and for a range of eight ports or more never in ascending order.
    pub fn new(start: u32, end: u32) -> (it: Self)
        requires
            start <= end <= 65535,
        ensures
            it.wf(),
            it.start() == start,
            it.count() == end - start + 1,
            it.given() == 0,
            stride_in_band(it.count(), it.stride()),
            it.remaining() == traversal(it.start(), it.count(), it.first_pick(), it.stride()),
            covers_range(it.remaining(), start as int, end - start + 1),
            it.remaining().to_multiset() == ascending(start as int, end - start + 1).to_multiset(),
            end - start + 1 >= 8 ==> it.remaining() != ascending(start as int, end - start + 1),
    {
        let normalized_end: u32 = end - start + 1;
        let mut rng = rand::thread_rng();
        let step: u32 = pick_random_coprime(&mut rng, normalized_end);
        let normalized_first_pick: u32 = gen_range(&mut rng, 0, normalized_end);
        let it = RangeIterator {
            active: true,
            normalized_end,
            step,
            normalized_first_pick,
            normalized_pick: normalized_first_pick,
            actual_start: start,
            emitted: Ghost(0),
        };
        proof {
            assert(0 * (step as int) == 0) by {
                lemma_mul_basics(step as int);
            }
            lemma_small_mod(normalized_first_pick as nat, normalized_end as nat);
            assert(it.remaining() =~= traversal(
                it.start(),
                it.count(),
                it.first_pick(),
                it.stride(),
            ));
            lemma_traversal_covers_range(
                it.start(),
                it.count(),
                it.first_pick(),
                it.stride(),
            );
            lemma_ascending_covers_range(it.start(), it.count());
            lemma_covering_orders_are_permutations(
                it.remaining(),
                ascending(it.start(), it.count()),
                it.start(),
                it.count(),
            );
            if it.count() >= 8 {
                lemma_traversal_is_not_ascending(
                    it.start(),
                    it.count(),
                    it.first_pick(),
                    it.stride(),
                );
            }
        }
        it
    }

    /// The traversal of `start ..= end` in ascending order: it begins at
    /// the lowest port and advances by one.
    pub fn serial(start: u32, end: u32) -> (it: Self)
        requires
            start <= end <= 65535,
        ensures
            it.wf(),
            it.start() == start,
            it.count() == end - start + 1,
            it.given() == 0,
            it.remaining() == ascending(start as int, end - start + 1),
    {
        let normalized_end: u32 = end - start + 1;
        let step: u32 = if normalized_end == 1 {
            0
        } else {
            1
        };
        let it = RangeIterator {
            active: true,
            normalized_end,
            step,
            normalized_first_pick: 0,
            normalized_pick: 0,
            actual_start: start,
            emitted: Ghost(0),
        };
        proof {
            let n: int = normalized_end as int;
            assert(gcd(n as nat, step as nat) == 1) by {
                reveal_with_fuel(gcd, 3);
                assert(n as nat % 1nat == 0);
            }
            assert(0 * (step as int) == 0) by {
                lemma_mul_basics(step as int);
            }
            lemma_small_mod(0, n as nat);
            assert forall|k: int| 0 <= k < n implies residue_at(n, 0, step as int, k) == k by {
                if n == 1 {
                    assert(k * 0 == 0) by {
                        lemma_mul_basics(k);
                    }
                } else {
                    assert(k * 1 == k) by {
                        lemma_mul_basics(k);
                    }
                }
                lemma_small_mod(k as nat, n as nat);
            }
            assert(it.remaining() =~= ascending(start as int, n));
        }
        it
    }

    /// Gives the next port of the traversal, or `None` once every port of
    /// the range has been given.
    pub fn next(&mut self) -> (port: Option<u16>)
        requires
            old(self).wf(),
        ensures
            final(self).wf(),
            final(self).start() == old(self).start(),
            final(self).count() == old(self).count(),
            final(self).first_pick() == old(self).first_pick(),
            final(self).stride() == old(self).stride(),
            old(self).remaining().len() == 0 ==> port.is_none() && final(self).remaining() == old(
                self,
            ).remaining(),
            old(self).remaining().len() > 0 ==> port == Some(old(self).remaining()[0])
                && final(self).remaining() == old(self).remaining().drop_first()
                && final(self).given() == old(self).given() + 1,
    {
        if !self.active {
            return None;
        }
        let current_pick: u32 = self.normalized_pick;
        let next_pick: u32 = (current_pick + self.step) % self.normalized_end;
        proof {
            let n: int = self.count();
            let first: int = self.first_pick();
            let step: int = self.stride();
            let k: int = self.given();
            assert((k + 1) * step == k * step + step) by {
                lemma_mul_is_distributive_add_other_way(step, k, 1);
                lemma_mul_basics(step);
            }
            lemma_add_mod_noop_right(step, first + k * step, n);
            assert(next_pick == residue_at(n, first, step, k + 1));
            if k + 1 == n {
                lemma_period_returns(n as nat, first, step as nat);
            } else {
                assert(0 * step == 0) by {
                    lemma_mul_basics(step);
                }
                lemma_small_mod(first as nat, n as nat);
                lemma_steps_are_distinct(n as nat, first, step as nat, 0, k + 1);
            }
            assert(old(self).remaining().drop_first() =~= traversal(
                self.start(),
                n,
                first,
                step,
            ).skip(k + 1));
        }
        if next_pick == self.normalized_first_pick {
            self.active = false;
        }
        self.normalized_pick = next_pick;
        self.emitted = Ghost((self.emitted@ + 1) as nat);
        Some((self.actual_start + current_pick) as u16)
    }

    /// Runs the traversal to its end and gives the ports that were still
    /// to come, in their order.
    pub fn collect(self) -> (ports: Vec<u16>)
        requires
            self.wf(),
        ensures
            ports@ == self.remaining(),
    {
        let mut it = self;
        let mut ports: Vec<u16> = Vec::new();
        let mut port = it.next();
        while port.is_some()
            invariant
                it.wf(),
                port.is_some() ==> ports@.push(port.unwrap()) + it.remaining() == self.remaining(),
                port.is_none() ==> ports@ == self.remaining(),
            decreases
                    it.remaining().len() + if port.is_some() {
                        1nat
                    } else {
                        0nat
                    },
        {
            ports.push(port.unwrap());
            let ghost before = it.remaining();
            port = it.next();
            proof {
                if before.len() > 0 {
                    assert(ports@.push(before[0]) + before.drop_first() =~= ports@ + before);
                } else {
                    assert(ports@ + before =~= ports@);
                }
            }
        }
        ports
    }
}

/// A traversal by a stride coprime to the size of the range gives every
/// port of the range exactly once.
pub proof fn lemma_traversal_covers_range(start: int, n: int, first: int, step: int)
    requires
        0 <= start,
        1 <= n,
        start + n <= 65536,
        0 <= first < n,
        0 <= step < n,
        gcd(n as nat, step as nat) == 1,
    ensures
        covers_range(traversal(start, n, first, step), start, n),
{
    let ports = traversal(start, n, first, step);
    assert forall|i: int, j: int| 0 <= i < ports.len() && 0 <= j < ports.len() && i != j implies ports[i]
        != ports[j] by {
        if i < j {
            lemma_steps_are_distinct(n as nat, first, step as nat, i, j);
        } else {
            lemma_steps_are_distinct(n as nat, first, step as nat, j, i);
        }
    }
    assert forall|p: u16| ports.contains(p) <==> start <= p < start + n by {
        if start <= p < start + n {
            let k = lemma_every_residue_is_reached(n as nat, first, step as nat, p - start);
            assert(ports[k] == p);
        }
    }
}

/// The ascending order gives every port of the range exactly once.
pub proof fn lemma_ascending_covers_range(start: int, n: int)
    requires
        0 <= start,
        0 <= n,
        start + n <= 65536,
    ensures
        covers_range(ascending(start, n), start, n),
{
    let ports = ascending(start, n);
    assert forall|p: u16| ports.contains(p) <==> start <= p < start + n by {
        if start <= p < start + n {
            assert(ports[p - start] == p);
        }
    }
}

/// Two orders that each give every port of a range exactly once hold the
/// same ports: sorted, they are the same list.
pub proof fn lemma_covering_orders_are_permutations(
    a: Seq<u16>,
    b: Seq<u16>,
    start: int,
    n: int,
)
    requires
        covers_range(a, start, n),
        covers_range(b, start, n),
    ensures
        a.to_multiset() == b.to_multiset(),
{
    a.lemma_multiset_has_no_duplicates();
    b.lemma_multiset_has_no_duplicates();
    assert forall|p: u16| a.to_multiset().count(p) == b.to_multiset().count(p) by {
        vstd::seq_lib::to_multiset_contains(a, p);
        vstd::seq_lib::to_multiset_contains(b, p);
    }
    assert(a.to_multiset() =~= b.to_multiset());
}

/// A traversal of eight ports or more by a stride that a random draw can
/// give is never the ascending order.
pub proof fn lemma_traversal_is_not_ascending(start: int, n: int, first: int, step: int)
    requires
        0 <= start,
        8 <= n,
        start + n <= 65536,
        0 <= first < n,
        0 <= step < n,
        stride_in_band(n, step),
    ensures
        traversal(start, n, first, step) != ascending(start, n),
{
    let ports = traversal(start, n, first, step);
    let sorted = ascending(start, n);
    if ports == sorted {
        assert(ports[0] == sorted[0]);
        assert(ports[1] == sorted[1]);
        assert(0 * step == 0) by {
            lemma_mul_basics(step);
        }
        assert(1 * step == step) by {
            lemma_mul_basics(step);
        }
        lemma_small_mod(first as nat, n as nat);
        assert(first == 0);
        lemma_small_mod(step as nat, n as nat);
        assert(step == 1);
        assert(false);
    }
}

} // verus!
