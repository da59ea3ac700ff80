//! The schedule of a tournament: which slots of the population meet.

use super::chance::{random_below, shuffle, thread_generator};
use std::collections::HashSet;
use vstd::prelude::*;

verus! {

/// The product of the numbers from `low` to `high`; 1 where there is none.
pub open spec fn product_range(low: nat, high: nat) -> nat
    decreases high,
{
    if high < low || high == 0 {
        1
    } else {
        product_range(low, (high - 1) as nat) * high
    }
}

/// The product of the numbers from 1 to `n`.
pub fn factorial(n: usize) -> (f: usize)
    requires
        product_range(1, n as nat) <= usize::MAX,
    ensures
        f == product_range(1, n as nat),
{
    product_from(1, n)
}

/// The product of the numbers from `low` to `high`.
fn product_from(low: usize, high: usize) -> (p: usize)
    requires
        low >= 1,
        product_range(low as nat, high as nat) <= usize::MAX,
    ensures
        p == product_range(low as nat, high as nat),
{
    let mut p: usize = 1;
    let mut k: usize = low;
    if high < low {
        return 1;
    }
    while k <= high
        invariant
            1 <= low <= k <= high + 1,
            p == product_range(low as nat, (k - 1) as nat),
            product_range(low as nat, high as nat) <= usize::MAX,
        decreases high + 1 - k,
    {
        proof {
            lemma_product_grows(low as nat, k as nat, high as nat);
        }
        p = p * k;
        if k == high {
            return p;
        }
        k = k + 1;
    }
    p
}

/// A product over a longer range of positive numbers is no smaller.
pub proof fn lemma_product_grows(low: nat, mid: nat, high: nat)
    requires
        1 <= low,
        mid <= high,
    ensures
        1 <= product_range(low, mid) <= product_range(low, high),
    decreases high,
{
    if mid < high {
        lemma_product_grows(low, mid, (high - 1) as nat);
        if high >= low {
            let before = product_range(low, (high - 1) as nat);
            assert(before * high >= before) by (nonlinear_arith)
                requires
                    before >= 1,
                    high >= 1,
            ;
        }
    } else {
        lemma_product_positive(low, mid);
    }
}

/// A product of positive numbers is positive.
pub proof fn lemma_product_positive(low: nat, high: nat)
    requires
        1 <= low,
    ensures
        1 <= product_range(low, high),
    decreases high,
{
    if high >= low && high > 0 {
        lemma_product_positive(low, (high - 1) as nat);
        let before = product_range(low, (high - 1) as nat);
        assert(before * high >= 1) by (nonlinear_arith)
            requires
                before >= 1,
                high >= 1,
        ;
    }
}

/// The number of ways to pick `r` of `n`: the product of the `r` numbers
/// up to `n`, divided by the product of the numbers up to `r`.
pub fn n_choose_r(n: usize, r: usize) -> (c: usize)
    requires
        r <= n,
        product_range((n - r + 1) as nat, n as nat) <= usize::MAX,
        product_range(1, r as nat) <= usize::MAX,
    ensures
        c == product_range((n - r + 1) as nat, n as nat) / product_range(1, r as nat),
{
    if r == 0 {
        return 1;
    }
    proof {
        lemma_product_positive(1, r as nat);
    }
    product_from(n - r + 1, n) / factorial(r)
}

/// The number of unordered pairs among `n`: 0, 0, 1, 3, 6, ...
pub open spec fn pairs_among(n: nat) -> nat
    decreases n,
{
    if n == 0 {
        0
    } else {
        pairs_among((n - 1) as nat) + (n - 1) as nat
    }
}

/// The number of pairs among `n` is `n * (n - 1) / 2`, which is what
/// picking 2 of `n` comes to.
pub proof fn lemma_pairs_among(n: nat)
    ensures
        2 * pairs_among(n) == n * (n - 1),
        pairs_among(n) == n * (n - 1) / 2,
        n >= 2 ==> pairs_among(n) == product_range((n - 1) as nat, n) / product_range(1, 2),
    decreases n,
{
    if n > 0 {
        let m = (n - 1) as nat;
        lemma_pairs_among(m);
        let twice = 2 * pairs_among(m);
        assert(twice + 2 * m == n * (n - 1)) by (nonlinear_arith)
            requires
                twice == m * (m - 1),
                m == n - 1,
        ;
    } else {
        assert(n * (n - 1) == 0) by (nonlinear_arith)
            requires
                n == 0,
        ;
    }
    if n >= 2 {
        assert(product_range(1, 2) == 2) by {
            reveal_with_fuel(product_range, 3);
        }
        assert(product_range((n - 1) as nat, n) == (n - 1) * n) by {
            reveal_with_fuel(product_range, 3);
            assert(product_range((n - 1) as nat, (n - 2) as nat) == 1);
            assert(product_range((n - 1) as nat, (n - 1) as nat) == 1 * (n - 1));
        }
        assert((n - 1) * n == n * (n - 1)) by (nonlinear_arith);
    }
}

/// The number of pairs grows with the population.
pub proof fn lemma_pairs_monotone(a: nat, b: nat)
    requires
        a <= b,
    ensures
        pairs_among(a) <= pairs_among(b),
    decreases b,
{
    if a < b {
        lemma_pairs_monotone(a, (b - 1) as nat);
    }
}

/// A pair of slots of a population of `n`: two different slots, the lower
/// one first.
pub open spec fn valid_pair(pair: (usize, usize), n: usize) -> bool {
    pair.0 < pair.1 < n
}

/// The place of a pair in the list of all pairs, ordered by the higher
/// slot and then by the lower.
pub open spec fn place(pair: (usize, usize)) -> int {
    pairs_among(pair.1 as nat) + pair.0
}

/// A pair of a population of `n` has its place below the number of pairs.
pub proof fn lemma_place_bound(pair: (usize, usize), n: usize)
    requires
        valid_pair(pair, n),
    ensures
        0 <= place(pair) < pairs_among(n as nat),
{
    lemma_pairs_monotone((pair.1 + 1) as nat, n as nat);
}

/// Different pairs have different places.
pub proof fn lemma_place_injective(p: (usize, usize), q: (usize, usize))
    requires
        p.0 < p.1,
        q.0 < q.1,
        place(p) == place(q),
    ensures
        p == q,
{
    if p.1 < q.1 {
        lemma_pairs_monotone((p.1 + 1) as nat, q.1 as nat);
    } else if q.1 < p.1 {
        lemma_pairs_monotone((q.1 + 1) as nat, p.1 as nat);
    }
}

/// A set that holds every place below `p` has at least `p` members.
pub proof fn lemma_places_full(places: Set<u128>, p: nat)
    requires
        places.finite(),
        p <= u128::MAX,
        forall|t: u128| t < p ==> places.contains(t),
    ensures
        places.len() >= p,
    decreases p,
{
    if p > 0 {
        let last = (p - 1) as u128;
        lemma_places_full(places.remove(last), (p - 1) as nat);
    }
}

/// The pair of two slots, the lower one first.
pub open spec fn ordered(a: usize, b: usize) -> (usize, usize) {
    if a <= b {
        (a, b)
    } else {
        (b, a)
    }
}

/// What a schedule promises: every pair is a pair of different slots of
/// the population, and no pair occurs twice.
pub open spec fn well_scheduled(pairs: Seq<(usize, usize)>, n: usize) -> bool {
    &&& forall|k: int| 0 <= k < pairs.len() ==> valid_pair(#[trigger] pairs[k], n)
    &&& forall|j: int, k: int| 0 <= j < k < pairs.len() ==> #[trigger] pairs[j] != #[trigger] pairs[k]
}

/// Why no schedule was made.
#[derive(Clone, Copy, Debug, PartialEq, Eq, Structural)]
pub enum ScheduleError {
    /// More matches were asked for than the population has pairs.
    TooManyMatches { requested: usize, possible: usize },
}

impl ScheduleError {
    /// The error in words.
    pub fn message(&self) -> (text: &'static str)
        ensures
            text == "cannot schedule more matches than possible pairings of agents",
    {
        "cannot schedule more matches than possible pairings of agents"
    }
}

/// A schedule in the making: the pairs chosen so far, and the set of
/// their places in the list of all pairs.
pub struct Schedule {
    size: usize,
    matches: Vec<(usize, usize)>,
    taken: HashSet<u128>,
}

impl Schedule {
    /// The size of the population.
    pub closed spec fn population(&self) -> usize {
        self.size
    }

    /// The pairs chosen so far, in the order they were chosen.
    pub closed spec fn pairs(&self) -> Seq<(usize, usize)> {
        self.matches@
    }

    /// The places, in the list of all pairs, of the pairs chosen.
    pub closed spec fn places(&self) -> Set<u128> {
        self.taken@
    }

    /// Every pair chosen is a pair of the population, none was chosen
    /// twice, and the places are those of the pairs chosen.
    pub open spec fn wf(&self) -> bool {
        &&& forall|k: int|
            0 <= k < self.pairs().len() ==> valid_pair(#[trigger] self.pairs()[k], self.population())
        &&& forall|j: int, k: int|
            0 <= j < k < self.pairs().len() ==> #[trigger] self.pairs()[j] != #[trigger] self.pairs()[k]
        &&& self.places().finite()
        &&& self.places().len() == self.pairs().len()
        &&& forall|t: u128| #[trigger]
            self.places().contains(t) <==> exists|k: int|
                0 <= k < self.pairs().len() && #[trigger] place(self.pairs()[k]) == t
    }

    /// A well-formed schedule is well scheduled.
    pub proof fn lemma_well_scheduled(&self)
        requires
            self.wf(),
        ensures
            well_scheduled(self.pairs(), self.population()),
    {
    }

    /// The empty schedule for a population of `size`.
    pub fn new(size: usize) -> (schedule: Schedule)
        ensures
            schedule.wf(),
            schedule.population() == size,
            schedule.pairs().len() == 0,
    {
        Schedule { size, matches: Vec::new(), taken: HashSet::new() }
    }

    /// The number of pairs chosen so far.
    pub fn len(&self) -> (n: usize)
        ensures
            n == self.pairs().len(),
    {
        self.matches.len()
    }

    /// Offers the match of two slots to the schedule, which takes it
    /// unless the two are one slot or the pair has been chosen before.
    pub fn offer(&mut self, agent_index: usize, opponent_agent_index: usize) -> (accepted: bool)
        requires
            old(self).wf(),
            agent_index < old(self).population(),
            opponent_agent_index < old(self).population(),
        ensures
            final(self).wf(),
            final(self).population() == old(self).population(),
            accepted == (agent_index != opponent_agent_index && !old(self).pairs().contains(
                ordered(agent_index, opponent_agent_index),
            )),
            accepted ==> final(self).pairs() == old(self).pairs().push(
                ordered(agent_index, opponent_agent_index),
            ),
            !accepted ==> final(self).pairs() == old(self).pairs(),
            forall|u: u128|
                old(self).places().contains(u) ==> #[trigger] final(self).places().contains(u),
            agent_index != opponent_agent_index ==> final(self).places().contains(
                place(ordered(agent_index, opponent_agent_index)) as u128,
            ),
    {
        let m: (usize, usize) = if agent_index <= opponent_agent_index {
            (agent_index, opponent_agent_index)
        } else {
            (opponent_agent_index, agent_index)
        };
        if agent_index == opponent_agent_index {
            return false;
        }
        let t = place_of(m.0, m.1);
        if self.taken.contains(&t) {
            proof {
                let k = choose|k: int|
                    0 <= k < self.pairs().len() && #[trigger] place(self.pairs()[k]) == t;
                lemma_place_injective(self.pairs()[k], m);
            }
            return false;
        }
        proof {
            assert(!self.pairs().contains(m)) by {
                if self.pairs().contains(m) {
                    let k = choose|k: int| 0 <= k < self.pairs().len() && self.pairs()[k] == m;
                    assert(place(self.pairs()[k]) == t);
                }
            }
        }
        let ghost before = *self;
        self.taken.insert(t);
        self.matches.push(m);
        proof {
            assert forall|k: int| 0 <= k < self.pairs().len() implies valid_pair(
                #[trigger] self.pairs()[k],
                self.population(),
            ) by {
                if k < before.pairs().len() {
                    assert(self.pairs()[k] == before.pairs()[k]);
                }
            }
            assert forall|j: int, k: int| 0 <= j < k < self.pairs().len() implies #[trigger] self.pairs()[j]
                != #[trigger] self.pairs()[k] by {
                assert(self.pairs()[j] == before.pairs()[j]);
                if k < before.pairs().len() {
                    assert(self.pairs()[k] == before.pairs()[k]);
                } else {
                    assert(before.pairs().contains(before.pairs()[j]));
                }
            }
            assert forall|u: u128| #[trigger]
                self.places().contains(u) <==> exists|k: int|
                    0 <= k < self.pairs().len() && #[trigger] place(self.pairs()[k]) == u by {
                if self.places().contains(u) {
                    if u == t {
                        assert(place(self.pairs()[self.pairs().len() - 1]) == u);
                    } else {
                        assert(before.places().contains(u));
                        let k = choose|k: int|
                            0 <= k < before.pairs().len() && #[trigger] place(before.pairs()[k])
                                == u;
                        assert(self.pairs()[k] == before.pairs()[k]);
                        assert(place(self.pairs()[k]) == u);
                    }
                }
                if exists|k: int|
                    0 <= k < self.pairs().len() && #[trigger] place(self.pairs()[k]) == u {
                    let k = choose|k: int|
                        0 <= k < self.pairs().len() && #[trigger] place(self.pairs()[k]) == u;
                    if k < before.pairs().len() {
                        assert(self.pairs()[k] == before.pairs()[k]);
                        assert(place(before.pairs()[k]) == u);
                        assert(before.places().contains(u));
                    }
                }
            }
        }
        true
    }

    /// Fills the schedule up to `count` pairs with the first pairs, in the
    /// list of all pairs, that have not been chosen yet.
    pub fn fill(&mut self, count: usize)
        requires
            old(self).wf(),
            count <= pairs_among(old(self).population() as nat),
        ensures
            final(self).wf(),
            final(self).population() == old(self).population(),
            final(self).pairs().len() == if old(self).pairs().len() >= count {
                old(self).pairs().len()
            } else {
                count as nat
            },
            final(self).pairs().subrange(0, old(self).pairs().len() as int) == old(self).pairs(),
    {
        let ghost start = self.pairs();
        let mut low: usize = 0;
        let mut high: usize = 1;
        proof {
            assert(self.pairs().subrange(0, start.len() as int) =~= start);
            assert(pairs_among(1) == 0) by {
                reveal_with_fuel(pairs_among, 2);
            }
        }
        while high < self.size && self.matches.len() < count
            invariant
                self.wf(),
                self.population() == old(self).population(),
                low < high,
                start == old(self).pairs(),
                start.len() <= self.pairs().len(),
                self.pairs().subrange(0, start.len() as int) == start,
                self.pairs().len() <= count || self.pairs().len() == start.len(),
                forall|u: u128| u < pairs_among(high as nat) + low ==> self.places().contains(u),
            decreases self.size - high, high - low,
        {
            let ghost before = *self;
            self.offer(low, high);
            proof {
                assert(self.pairs().subrange(0, start.len() as int) =~= before.pairs().subrange(
                    0,
                    start.len() as int,
                ));
                assert(place(ordered(low, high)) == pairs_among(high as nat) + low);
                lemma_place_bound((low, high), self.size);
                lemma_pairs_fit(self.size as nat);
                assert forall|u: u128| u < pairs_among(high as nat) + low + 1 implies self.places().contains(
                    u,
                ) by {
                    if u < pairs_among(high as nat) + low {
                        assert(before.places().contains(u));
                    }
                }
            }
            low += 1;
            if low == high {
                low = 0;
                high += 1;
            }
        }
        proof {
            if self.pairs().len() < count {
                lemma_pairs_monotone(self.size as nat, high as nat);
                lemma_pairs_fit(self.size as nat);
                lemma_places_full(self.places(), pairs_among(self.size as nat));
            }
        }
    }

    /// The pairs chosen, in the order they were chosen.
    pub fn into_matches(self) -> (matches: Vec<(usize, usize)>)
        ensures
            matches@ == self.pairs(),
    {
        self.matches
    }
}

/// The pairs of a population that the machine can count fit 128 bits.
pub proof fn lemma_pairs_fit(n: nat)
    requires
        n <= usize::MAX,
    ensures
        pairs_among(n) <= 0x7fff_ffff_ffff_ffff_ffff_ffff_ffff_ffff,
{
    lemma_pairs_among(n);
    assert(n * (n - 1) <= 0xffff_ffff_ffff_ffff * 0xffff_ffff_ffff_ffff) by (nonlinear_arith)
        requires
            0 <= n <= 0xffff_ffff_ffff_ffff,
    ;
}

/// The number of unordered pairs among `n`.
fn pairs_of(n: usize) -> (pairs: u128)
    ensures
        pairs == pairs_among(n as nat),
{
    proof {
        lemma_pairs_among(n as nat);
        lemma_pairs_fit(n as nat);
    }
    if n == 0 {
        return 0;
    }
    assert((n as u128) * ((n - 1) as u128) <= 0xffff_ffff_ffff_ffff * 0xffff_ffff_ffff_ffff)
        by (nonlinear_arith)
        requires
            1 <= n <= 0xffff_ffff_ffff_ffff,
    ;
    (n as u128) * ((n - 1) as u128) / 2
}

/// The place of the pair of `low` and `high` in the list of all pairs.
fn place_of(low: usize, high: usize) -> (t: u128)
    requires
        low < high,
    ensures
        t == place((low, high)),
{
    proof {
        lemma_pairs_among(high as nat);
        lemma_pairs_fit(high as nat);
    }
    assert((high as u128) * ((high - 1) as u128) <= 0xffff_ffff_ffff_ffff * 0xffff_ffff_ffff_ffff)
        by (nonlinear_arith)
        requires
            1 <= high <= 0xffff_ffff_ffff_ffff,
    ;
    (high as u128) * ((high - 1) as u128) / 2 + (low as u128)
}

/// A schedule of `match_count` matches for a population of
/// `population_size`: the slots take turns in a shuffled order, each turn
/// draws an opponent at random, and the pair is taken unless it pairs a
/// slot with itself or was taken before. Should the draws run out, the
/// schedule is filled with the first pairs not taken yet.
pub fn schedule(population_size: usize, match_count: usize) -> (res: Result<
    Vec<(usize, usize)>,
    ScheduleError,
>)
    ensures
        match_count > pairs_among(population_size as nat) <==> res is Err,
        res matches Err(e) ==> e == (ScheduleError::TooManyMatches {
            requested: match_count,
            possible: pairs_among(population_size as nat) as usize,
        }),
        res matches Ok(pairs) ==> pairs@.len() == match_count && well_scheduled(
            pairs@,
            population_size,
        ),
{
    let possible_matches = pairs_of(population_size);
    if match_count as u128 > possible_matches {
        return Err(
            ScheduleError::TooManyMatches {
                requested: match_count,
                possible: possible_matches as usize,
            },
        );
    }
    let mut matches = Schedule::new(population_size);
    if match_count == 0 {
        proof {
            matches.lemma_well_scheduled();
        }
        return Ok(matches.into_matches());
    }
    proof {
        assert(pairs_among(0) == 0);
    }
    let mut rng = thread_generator();
    let mut agents: Vec<usize> = Vec::new();
    let mut slot: usize = 0;
    while slot < population_size
        invariant
            slot <= population_size,
            agents@.len() == slot,
            forall|i: int| 0 <= i < slot ==> #[trigger] agents@[i] == i,
        decreases population_size - slot,
    {
        agents.push(slot);
        slot += 1;
    }
    let ghost in_order = agents@;
    shuffle(&mut agents, &mut rng);
    proof {
        in_order.to_multiset_ensures();
        agents@.to_multiset_ensures();
        assert forall|i: int| 0 <= i < agents@.len() implies #[trigger] agents@[i] < population_size by {
            assert(agents@.contains(agents@[i]));
            assert(in_order.to_multiset().count(agents@[i]) > 0);
            assert(in_order.contains(agents@[i]));
        }
        assert(agents@.len() == population_size);
    }
    let mut agent_turn: usize = 0;
    while matches.len() < match_count && agent_turn < usize::MAX
        invariant
            matches.wf(),
            matches.population() == population_size,
            matches.pairs().len() <= match_count,
            population_size > 0,
            agents@.len() == population_size,
            forall|i: int| 0 <= i < agents@.len() ==> #[trigger] agents@[i] < population_size,
        decreases usize::MAX - agent_turn,
    {
        let agent_index = agents[agent_turn % population_size];
        let opponent_agent_index = random_below(&mut rng, population_size);
        agent_turn += 1;
        matches.offer(agent_index, opponent_agent_index);
    }
    matches.fill(match_count);
    proof {
        matches.lemma_well_scheduled();
    }
    Ok(matches.into_matches())
}

} // verus!
