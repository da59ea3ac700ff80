//! The evolution of a population: selection of the best rated players,
//! their mutation into the next generation, and the course of a run from
//! generation to generation.

use super::chance::{random_between, thread_generator};
use super::elo::ELO_START;
use super::referee::{
    has_room, in_population, is_match, lemma_sweep_is_rated_highest, pairings, plays,
    recorded_all, sweeps, takes_all, MatchResult, Referee, Standings,
};
use super::schedule::{pairs_among, well_scheduled, ScheduleError};
use crate::ai::heuristics::{trunc_div, Weights, WEIGHT_ONE};
use crate::ai::tree::SearchLimit;
use crate::game::player::AI;
use rand::rngs::ThreadRng;
use vstd::prelude::*;

verus! {

/// The settings of a run.
#[derive(Clone, Copy, Debug)]
pub struct EvolutionConfig {
    /// How many generations one run plays at most.
    pub per_num_batches: usize,
    /// The number of the last generation, over all runs.
    pub total_num_batches: usize,
    /// How many of the best rated players have children.
    pub num_agents_retained: usize,
    /// How many children each of them has.
    pub num_children_per_retained_agent: usize,
    /// The perturbation of the first generation, in the fixed point of the
    /// weights.
    pub max_perturb_amt: i64,
    /// What the perturbation is multiplied by from one generation to the
    /// next, in the fixed point of the weights.
    pub perturb_decr: i64,
    /// The size of the population.
    pub num_agents: usize,
    /// The number of matches of a generation.
    pub num_matches: usize,
    /// The search limit of every player.
    pub agent_depth: SearchLimit,
}

impl EvolutionConfig {
    /// The perturbation and its decay are between 0 and 1.
    pub open spec fn wf(self) -> bool {
        &&& 0 <= self.max_perturb_amt <= WEIGHT_ONE
        &&& 0 <= self.perturb_decr <= WEIGHT_ONE
    }
}

impl Default for EvolutionConfig {
    /// 10 generations a run and 100 in all; 36 players that meet in 108
    /// matches; the best 10 have 2 children each; a perturbation of 0.1
    /// that falls to a tenth with every generation; searches 4 plies
    /// deep.
    fn default() -> (config: EvolutionConfig)
        ensures
            config.wf(),
            config.per_num_batches == 10,
            config.total_num_batches == 100,
            config.num_agents_retained == 10,
            config.num_children_per_retained_agent == 2,
            config.max_perturb_amt == 100_000,
            config.perturb_decr == 100_000,
            config.num_agents == 36,
            config.num_matches == 108,
            config.agent_depth == SearchLimit::Depth(4),
    {
        EvolutionConfig {
            per_num_batches: 10,
            total_num_batches: 100,
            num_agents_retained: 10,
            num_children_per_retained_agent: 2,
            max_perturb_amt: 100_000,
            perturb_decr: 100_000,
            num_agents: 36,
            num_matches: 108,
            agent_depth: SearchLimit::Depth(4),
        }
    }
}

/// The perturbation after `steps` generations of decay: each generation
/// multiplies it by the decay, in fixed point.
pub open spec fn decayed(amount: int, decay: int, steps: nat) -> int
    decreases steps,
{
    if steps == 0 {
        amount
    } else {
        decayed(amount, decay, (steps - 1) as nat) * decay / (WEIGHT_ONE as int)
    }
}

/// The perturbation of generation `generation`: the first has the whole
/// amount, every later one the decayed amount of the one before.
pub open spec fn perturbation_of(config: EvolutionConfig, generation: u32) -> int {
    decayed(
        config.max_perturb_amt as int,
        config.perturb_decr as int,
        (generation - 1) as nat,
    )
}

/// A perturbation between 0 and 1 stays there as it decays.
pub proof fn lemma_decayed_bounds(amount: int, decay: int, steps: nat)
    requires
        0 <= amount <= WEIGHT_ONE,
        0 <= decay <= WEIGHT_ONE,
    ensures
        0 <= decayed(amount, decay, steps) <= amount,
        decayed(amount, decay, steps) == 0 ==> decayed(amount, decay, steps + 1) == 0,
    decreases steps,
{
    if steps > 0 {
        lemma_decayed_bounds(amount, decay, (steps - 1) as nat);
        let before = decayed(amount, decay, (steps - 1) as nat);
        assert(0 <= before * decay <= before * WEIGHT_ONE) by (nonlinear_arith)
            requires
                0 <= before,
                0 <= decay <= WEIGHT_ONE,
        ;
        vstd::arithmetic::div_mod::lemma_div_is_ordered(0, before * decay, WEIGHT_ONE as int);
        vstd::arithmetic::div_mod::lemma_div_is_ordered(
            before * decay,
            before * WEIGHT_ONE,
            WEIGHT_ONE as int,
        );
        vstd::arithmetic::div_mod::lemma_div_multiples_vanish(before, WEIGHT_ONE as int);
    }
    let now = decayed(amount, decay, steps);
    if now == 0 {
        assert(now * decay == 0) by (nonlinear_arith)
            requires
                now == 0,
        ;
    }
}

/// Once the perturbation is 0, it stays 0.
pub proof fn lemma_decayed_stays_zero(amount: int, decay: int, steps: nat, later: nat)
    requires
        0 <= amount <= WEIGHT_ONE,
        0 <= decay <= WEIGHT_ONE,
        steps <= later,
        decayed(amount, decay, steps) == 0,
    ensures
        decayed(amount, decay, later) == 0,
    decreases later - steps,
{
    if steps < later {
        lemma_decayed_stays_zero(amount, decay, steps, (later - 1) as nat);
        lemma_decayed_bounds(amount, decay, (later - 1) as nat);
    }
}

/// The perturbation of generation `generation`.
pub fn perturbation(config: &EvolutionConfig, generation: u32) -> (amount: i64)
    requires
        config.wf(),
        generation >= 1,
    ensures
        amount == perturbation_of(*config, generation),
        0 <= amount <= WEIGHT_ONE,
{
    let mut amount: i64 = config.max_perturb_amt;
    let mut step: u32 = 1;
    while step < generation && amount > 0
        invariant
            config.wf(),
            1 <= step <= generation,
            amount == decayed(
                config.max_perturb_amt as int,
                config.perturb_decr as int,
                (step - 1) as nat,
            ),
            0 <= amount <= WEIGHT_ONE,
        decreases generation - step,
    {
        proof {
            lemma_decayed_bounds(
                config.max_perturb_amt as int,
                config.perturb_decr as int,
                step as nat,
            );
            assert(0 <= amount * config.perturb_decr <= 1_000_000_000_000) by (nonlinear_arith)
                requires
                    0 <= amount <= 1_000_000,
                    0 <= config.perturb_decr <= 1_000_000,
            ;
        }
        amount = amount * config.perturb_decr / WEIGHT_ONE;
        step += 1;
    }
    proof {
        if step < generation {
            lemma_decayed_stays_zero(
                config.max_perturb_amt as int,
                config.perturb_decr as int,
                (step - 1) as nat,
                (generation - 1) as nat,
            );
        }
    }
    amount
}

/// A value kept within the range of a weight.
pub open spec fn clamped(v: int) -> int {
    if v < i64::MIN {
        i64::MIN as int
    } else if v > i64::MAX {
        i64::MAX as int
    } else {
        v
    }
}

/// A weight multiplied by a factor, in fixed point, and kept within the
/// range of a weight.
pub open spec fn perturbed_weight(weight: int, factor: int) -> int {
    clamped(trunc_div(weight * factor, WEIGHT_ONE as int))
}

/// Whether `child` is a weight that `parent` can mutate into with the
/// perturbation `amount`: it lies between the parent times `1 - amount`
/// and the parent times `1 + amount`.
pub open spec fn within_mutation(parent: int, amount: int, child: int) -> bool {
    let shrunk = perturbed_weight(parent, WEIGHT_ONE - amount);
    let grown = perturbed_weight(parent, WEIGHT_ONE + amount);
    (shrunk <= child <= grown) || (grown <= child <= shrunk)
}

/// A quotient rounded towards zero grows with the dividend.
pub proof fn lemma_trunc_div_monotone(a: int, b: int, d: int)
    requires
        a <= b,
        d > 0,
    ensures
        trunc_div(a, d) <= trunc_div(b, d),
{
    if a >= 0 {
        vstd::arithmetic::div_mod::lemma_div_is_ordered(a, b, d);
    } else if b < 0 {
        vstd::arithmetic::div_mod::lemma_div_is_ordered(-b, -a, d);
    } else {
        vstd::arithmetic::div_mod::lemma_div_pos_is_pos(-a, d);
        vstd::arithmetic::div_mod::lemma_div_pos_is_pos(b, d);
    }
}

/// Mutation bounds. A weight multiplied by a factor between `1 - amount`
/// and `1 + amount` lies between the weight times `1 - amount` and the
/// weight times `1 + amount`.
pub proof fn lemma_mutation_bounds(weight: int, amount: int, factor: int)
    requires
        WEIGHT_ONE - amount <= factor <= WEIGHT_ONE + amount,
    ensures
        within_mutation(weight, amount, perturbed_weight(weight, factor)),
{
    let low = WEIGHT_ONE - amount;
    let high = WEIGHT_ONE + amount;
    if weight >= 0 {
        assert(weight * low <= weight * factor <= weight * high) by (nonlinear_arith)
            requires
                weight >= 0,
                low <= factor <= high,
        ;
        lemma_trunc_div_monotone(weight * low, weight * factor, WEIGHT_ONE as int);
        lemma_trunc_div_monotone(weight * factor, weight * high, WEIGHT_ONE as int);
    } else {
        assert(weight * high <= weight * factor <= weight * low) by (nonlinear_arith)
            requires
                weight < 0,
                low <= factor <= high,
        ;
        lemma_trunc_div_monotone(weight * high, weight * factor, WEIGHT_ONE as int);
        lemma_trunc_div_monotone(weight * factor, weight * low, WEIGHT_ONE as int);
    }
}

/// A weight multiplied by a factor, in fixed point.
pub fn perturbed(weight: i64, factor: i64) -> (child: i64)
    requires
        0 <= factor <= 2 * WEIGHT_ONE,
    ensures
        child == perturbed_weight(weight as int, factor as int),
{
    assert(-0x8000_0000_0000_0000 * 2_000_000 <= weight * factor <= 0x8000_0000_0000_0000
        * 2_000_000) by (nonlinear_arith)
        requires
            -0x8000_0000_0000_0000 <= weight <= 0x8000_0000_0000_0000,
            0 <= factor <= 2_000_000,
    ;
    let product: i128 = (weight as i128) * (factor as i128);
    let quotient: i128 = product / (WEIGHT_ONE as i128);
    if quotient < i64::MIN as i128 {
        i64::MIN
    } else if quotient > i64::MAX as i128 {
        i64::MAX
    } else {
        quotient as i64
    }
}

/// Whether every weight of `child` is one that the weight of `parent` in
/// its place can mutate into.
pub open spec fn is_child_of(parent: Seq<i64>, amount: int, child: Seq<i64>) -> bool {
    &&& child.len() == parent.len()
    &&& forall|i: int|
        0 <= i < parent.len() ==> within_mutation(parent[i] as int, amount, #[trigger] child[i] as int)
}

/// A child of `parent`: every weight multiplied by a factor of its own,
/// drawn between `1 - perturb_amt` and `1 + perturb_amt`.
fn child_of_agent(parent: &AI, perturb_amt: i64, limit: SearchLimit, rng: &mut ThreadRng) -> (child:
    AI)
    requires
        0 <= perturb_amt <= WEIGHT_ONE,
    ensures
        is_child_of(parent@.weights, perturb_amt as int, child@.weights),
        child@.limit == limit,
        child@.name == Seq::<char>::empty(),
{
    let parent_weights: Weights = parent.weights();
    let mut child_weights: Weights = parent.weights();
    let mut idx: usize = 0;
    while idx < 19
        invariant
            idx <= 19,
            0 <= perturb_amt <= WEIGHT_ONE,
            parent_weights@ == parent@.weights,
            forall|i: int|
                0 <= i < idx ==> within_mutation(
                    parent_weights@[i] as int,
                    perturb_amt as int,
                    #[trigger] child_weights@[i] as int,
                ),
        decreases 19 - idx,
    {
        let factor = random_between(rng, WEIGHT_ONE - perturb_amt, WEIGHT_ONE + perturb_amt);
        proof {
            lemma_mutation_bounds(parent_weights@[idx as int] as int, perturb_amt as int, factor as int);
        }
        child_weights[idx] = perturbed(parent_weights[idx], factor);
        idx += 1;
    }
    AI::with_raw_weights(String::new(), child_weights, limit)
}

/// The children of `parent`, as many as the settings ask for.
pub fn children_from_agent(parent: &AI, perturb_amt: i64, config: &EvolutionConfig) -> (children:
    Vec<AI>)
    requires
        0 <= perturb_amt <= WEIGHT_ONE,
    ensures
        children@.len() == config.num_children_per_retained_agent,
        forall|j: int|
            0 <= j < children@.len() ==> is_child_of(
                parent@.weights,
                perturb_amt as int,
                (#[trigger] children@[j])@.weights,
            ) && children@[j]@.limit == config.agent_depth,
{
    let mut children: Vec<AI> = Vec::new();
    let mut rng = thread_generator();
    let mut made: usize = 0;
    while made < config.num_children_per_retained_agent
        invariant
            made <= config.num_children_per_retained_agent,
            0 <= perturb_amt <= WEIGHT_ONE,
            children@.len() == made,
            forall|j: int|
                0 <= j < children@.len() ==> is_child_of(
                    parent@.weights,
                    perturb_amt as int,
                    (#[trigger] children@[j])@.weights,
                ) && children@[j]@.limit == config.agent_depth,
        decreases config.num_children_per_retained_agent - made,
    {
        let child = child_of_agent(parent, perturb_amt, config.agent_depth, &mut rng);
        children.push(child);
        made += 1;
    }
    children
}

/// Whether the weights are those of a random player: each at least 0 and
/// below 1.
pub open spec fn is_random_weights(weights: Seq<i64>) -> bool {
    &&& weights.len() == 19
    &&& forall|i: int| 0 <= i < 19 ==> 0 <= #[trigger] weights[i] < WEIGHT_ONE
}

/// A player with random weights, each drawn from 0 up to but not
/// including 1.
pub fn random_agent(config: &EvolutionConfig) -> (agent: AI)
    ensures
        is_random_weights(agent@.weights),
        agent@.limit == config.agent_depth,
{
    let mut weights: Weights = [WEIGHT_ONE;19];
    let mut rng = thread_generator();
    let mut idx: usize = 0;
    while idx < 19
        invariant
            idx <= 19,
            forall|i: int| 0 <= i < idx ==> 0 <= #[trigger] weights@[i] < WEIGHT_ONE,
        decreases 19 - idx,
    {
        weights[idx] = random_between(&mut rng, 0, WEIGHT_ONE - 1);
        idx += 1;
    }
    AI::with_raw_weights(String::new(), weights, config.agent_depth)
}

/// Whether `next` is a generation that `parents` can have: a population
/// of the size that the settings give, with the children first, parent by
/// parent, as far as there are slots, and random players in the slots
/// that are left.
pub open spec fn is_next_generation(
    parents: Seq<AI>,
    amount: int,
    config: EvolutionConfig,
    next: Seq<AI>,
) -> bool {
    let per_parent = config.num_children_per_retained_agent as int;
    let children = parents.len() * per_parent;
    &&& next.len() == config.num_agents
    &&& forall|k: int, j: int|
        #![trigger next[k * per_parent + j]]
        0 <= k < parents.len() && 0 <= j < per_parent && k * per_parent + j < next.len()
            ==> is_child_of(parents[k]@.weights, amount, next[k * per_parent + j]@.weights)
    &&& forall|i: int| children <= i < next.len() ==> is_random_weights((#[trigger] next[i])@.weights)
    &&& forall|i: int| 0 <= i < next.len() ==> (#[trigger] next[i])@.limit == config.agent_depth
}

/// The generation after `time`: the children of the best players of the
/// generation before, and random players to fill the population. Children
/// that the population has no slot for are left out.
pub fn mutate(previous_best: Vec<AI>, time: u32, config: &EvolutionConfig) -> (new_gen: Vec<AI>)
    requires
        config.wf(),
        time >= 1,
    ensures
        is_next_generation(previous_best@, perturbation_of(*config, time), *config, new_gen@),
        new_gen@.len() == config.num_agents,
{
    let mut new_gen: Vec<AI> = Vec::new();
    let perturb_amt = perturbation(config, time);
    let ghost per_parent = config.num_children_per_retained_agent as int;
    let mut k: usize = 0;
    while k < previous_best.len() && new_gen.len() < config.num_agents
        invariant
            k <= previous_best@.len(),
            0 <= perturb_amt <= WEIGHT_ONE,
            per_parent == config.num_children_per_retained_agent,
            new_gen@.len() == k * per_parent,
            forall|p: int, j: int|
                #![trigger new_gen@[p * per_parent + j]]
                0 <= p < k && 0 <= j < per_parent ==> is_child_of(
                    previous_best@[p]@.weights,
                    perturb_amt as int,
                    new_gen@[p * per_parent + j]@.weights,
                ),
            forall|i: int|
                0 <= i < new_gen@.len() ==> (#[trigger] new_gen@[i])@.limit == config.agent_depth,
        decreases previous_best.len() - k,
    {
        let mut children = children_from_agent(&previous_best[k], perturb_amt, config);
        let ghost before = new_gen@;
        let ghost added = children@;
        new_gen.append(&mut children);
        proof {
            assert((k + 1) * per_parent == k * per_parent + per_parent) by (nonlinear_arith);
            assert forall|p: int, j: int|
                #![trigger new_gen@[p * per_parent + j]]
                0 <= p < k + 1 && 0 <= j < per_parent implies is_child_of(
                previous_best@[p]@.weights,
                perturb_amt as int,
                new_gen@[p * per_parent + j]@.weights,
            ) by {
                if p < k {
                    assert(p * per_parent + j < k * per_parent) by (nonlinear_arith)
                        requires
                            0 <= p < k,
                            0 <= j < per_parent,
                    ;
                    assert(new_gen@[p * per_parent + j] == before[p * per_parent + j]);
                } else {
                    assert(new_gen@[k * per_parent + j] == added[j]);
                }
            }
            assert forall|i: int| 0 <= i < new_gen@.len() implies (#[trigger] new_gen@[i])@.limit
                == config.agent_depth by {
                if i < before.len() {
                    assert(new_gen@[i] == before[i]);
                } else {
                    assert(new_gen@[i] == added[i - before.len()]);
                }
            }
        }
        k += 1;
    }
    let ghost made = new_gen@;
    new_gen.truncate(config.num_agents);
    let ghost kept = new_gen@;
    proof {
        assert(k * per_parent <= previous_best@.len() * per_parent) by (nonlinear_arith)
            requires
                0 <= k <= previous_best@.len(),
                0 <= per_parent,
        ;
    }
    while new_gen.len() < config.num_agents
        invariant
            kept.len() <= new_gen@.len() <= config.num_agents,
            forall|i: int| 0 <= i < kept.len() ==> #[trigger] new_gen@[i] == kept[i],
            forall|i: int|
                kept.len() <= i < new_gen@.len() ==> is_random_weights(
                    (#[trigger] new_gen@[i])@.weights,
                ),
            forall|i: int| 0 <= i < kept.len() ==> (#[trigger] kept[i])@.limit == config.agent_depth,
            forall|i: int|
                0 <= i < new_gen@.len() ==> (#[trigger] new_gen@[i])@.limit == config.agent_depth,
        decreases config.num_agents - new_gen.len(),
    {
        let agent = random_agent(config);
        let ghost before = new_gen@;
        new_gen.push(agent);
        proof {
            assert forall|i: int| 0 <= i < kept.len() implies #[trigger] new_gen@[i] == kept[i] by {
                assert(new_gen@[i] == before[i]);
            }
        }
    }
    proof {
        assert forall|p: int, j: int|
            #![trigger new_gen@[p * per_parent + j]]
            0 <= p < previous_best@.len() && 0 <= j < per_parent && p * per_parent + j
                < new_gen@.len() implies is_child_of(
            previous_best@[p]@.weights,
            perturb_amt as int,
            new_gen@[p * per_parent + j]@.weights,
        ) by {
            let slot = p * per_parent + j;
            assert(0 <= slot) by (nonlinear_arith)
                requires
                    slot == p * per_parent + j,
                    0 <= p,
                    0 <= j,
                    0 <= per_parent,
            ;
            if p >= k {
                assert(slot >= k * per_parent) by (nonlinear_arith)
                    requires
                        slot == p * per_parent + j,
                        0 <= k <= p,
                        0 <= j,
                        0 <= per_parent,
                ;
            }
            if p < k {
                assert(slot < k * per_parent) by (nonlinear_arith)
                    requires
                        slot == p * per_parent + j,
                        0 <= p < k,
                        0 <= j < per_parent,
                ;
            }
            assert(slot < kept.len());
            assert(new_gen@[slot] == kept[slot]);
            assert(kept[slot] == made[slot]);
        }
    }
    new_gen
}

/// Whether slot `i` ranks above slot `j`: by the higher rating, and among
/// equal ratings by the higher slot.
pub open spec fn outranks(elos: Seq<i16>, i: int, j: int) -> bool {
    elos[i] > elos[j] || (elos[i] == elos[j] && i > j)
}

/// Whether slot `i` has more wins than slot `j`, or as many and the lower
/// slot.
pub open spec fn outwins(wins: Seq<u32>, i: int, j: int) -> bool {
    wins[i] > wins[j] || (wins[i] == wins[j] && i < j)
}

/// Whether `chosen` are the slots with the most wins, most first: each
/// has more than those after it, and than every slot that was not chosen;
/// among equals the lower slot comes first.
pub open spec fn is_wins_ranking(wins: Seq<u32>, count: int, chosen: Seq<usize>) -> bool {
    &&& chosen.len() == if count <= wins.len() {
        count
    } else {
        wins.len() as int
    }
    &&& forall|t: int| 0 <= t < chosen.len() ==> #[trigger] chosen[t] < wins.len()
    &&& forall|s: int, t: int|
        0 <= s < t < chosen.len() ==> outwins(wins, #[trigger] chosen[s] as int, #[trigger] chosen[t] as int)
    &&& forall|t: int, i: int|
        0 <= t < chosen.len() && 0 <= i < wins.len() && !chosen.contains(i as usize)
            ==> #[trigger] outwins(wins, chosen[t] as int, i)
}

/// Whether `chosen` are the best rated slots, best first: each ranks above
/// those after it, and above every slot that was not chosen.
pub open spec fn is_ranking(elos: Seq<i16>, count: int, chosen: Seq<usize>) -> bool {
    &&& chosen.len() == if count <= elos.len() {
        count
    } else {
        elos.len() as int
    }
    &&& forall|t: int| 0 <= t < chosen.len() ==> #[trigger] chosen[t] < elos.len()
    &&& forall|s: int, t: int|
        0 <= s < t < chosen.len() ==> outranks(elos, #[trigger] chosen[s] as int, #[trigger] chosen[t] as int)
    &&& forall|t: int, i: int|
        0 <= t < chosen.len() && 0 <= i < elos.len() && !chosen.contains(i as usize)
            ==> #[trigger] outranks(elos, chosen[t] as int, i)
}

/// The `count` best rated slots, best first.
pub fn top_slots(elos: &Vec<i16>, count: usize) -> (chosen: Vec<usize>)
    ensures
        is_ranking(elos@, count as int, chosen@),
{
    let n = elos.len();
    let mut taken: Vec<bool> = Vec::new();
    let mut i: usize = 0;
    while i < n
        invariant
            i <= n,
            taken@.len() == i,
            forall|j: int| 0 <= j < i ==> !#[trigger] taken@[j],
        decreases n - i,
    {
        taken.push(false);
        i += 1;
    }
    let mut chosen: Vec<usize> = Vec::new();
    while chosen.len() < count && chosen.len() < n
        invariant
            n == elos@.len(),
            taken@.len() == n,
            chosen@.len() <= n,
            chosen@.len() <= count,
            forall|t: int| 0 <= t < chosen@.len() ==> #[trigger] chosen@[t] < n,
            forall|j: int| 0 <= j < n ==> (#[trigger] taken@[j] <==> chosen@.contains(j as usize)),
            forall|s: int, t: int|
                0 <= s < t < chosen@.len() ==> outranks(
                    elos@,
                    #[trigger] chosen@[s] as int,
                    #[trigger] chosen@[t] as int,
                ),
            forall|t: int, j: int|
                0 <= t < chosen@.len() && 0 <= j < n && !taken@[j] ==> #[trigger] outranks(
                    elos@,
                    chosen@[t] as int,
                    j,
                ),
            chosen@.no_duplicates(),
        decreases n - chosen.len(),
    {
        proof {
            lemma_some_slot_free(taken@, chosen@);
        }
        let mut best: usize = 0;
        let mut found = false;
        let mut j: usize = 0;
        while j < n
            invariant
                j <= n,
                n == elos@.len(),
                taken@.len() == n,
                exists|i: int| 0 <= i < n && !#[trigger] taken@[i],
                found ==> best < n && !taken@[best as int],
                found ==> forall|i: int|
                    0 <= i < j && !taken@[i] && i != best ==> #[trigger] outranks(
                        elos@,
                        best as int,
                        i,
                    ),
                !found ==> forall|i: int| 0 <= i < j ==> #[trigger] taken@[i],
            decreases n - j,
        {
            if !taken[j] {
                if !found || elos[j] > elos[best] || (elos[j] == elos[best] && j > best) {
                    proof {
                        if found {
                            assert forall|i: int|
                                0 <= i < j && !taken@[i] && i != j implies #[trigger] outranks(
                                elos@,
                                j as int,
                                i,
                            ) by {
                                if i != best {
                                    assert(outranks(elos@, best as int, i));
                                }
                            }
                        }
                    }
                    best = j;
                    found = true;
                }
            }
            j += 1;
        }
        let ghost before = chosen@;
        let ghost taken_before = taken@;
        taken.set(best, true);
        chosen.push(best);
        proof {
            assert forall|j: int| 0 <= j < n implies (#[trigger] taken@[j] <==> chosen@.contains(
                j as usize,
            )) by {
                if j == best {
                    assert(chosen@[before.len() as int] == best);
                } else {
                    if taken_before[j] {
                        let t = choose|t: int| 0 <= t < before.len() && before[t] == j as usize;
                        assert(chosen@[t] == j as usize);
                    }
                    if chosen@.contains(j as usize) {
                        let t = choose|t: int| 0 <= t < chosen@.len() && chosen@[t] == j as usize;
                        assert(before[t] == j as usize);
                    }
                }
            }
            assert forall|s: int, t: int| 0 <= s < t < chosen@.len() implies outranks(
                elos@,
                #[trigger] chosen@[s] as int,
                #[trigger] chosen@[t] as int,
            ) by {
                if t < before.len() {
                    assert(chosen@[s] == before[s] && chosen@[t] == before[t]);
                } else {
                    assert(chosen@[s] == before[s]);
                    assert(outranks(elos@, before[s] as int, best as int));
                }
            }
            assert forall|t: int, j: int|
                0 <= t < chosen@.len() && 0 <= j < n && !taken@[j] implies #[trigger] outranks(
                elos@,
                chosen@[t] as int,
                j,
            ) by {
                if t < before.len() {
                    assert(chosen@[t] == before[t]);
                    assert(outranks(elos@, before[t] as int, j));
                } else {
                    assert(outranks(elos@, best as int, j));
                }
            }
            assert(chosen@.no_duplicates()) by {
                assert forall|s: int, t: int|
                    0 <= s < chosen@.len() && 0 <= t < chosen@.len() && s != t implies chosen@[s]
                    != chosen@[t] by {
                    if s < before.len() && t < before.len() {
                        assert(chosen@[s] == before[s] && chosen@[t] == before[t]);
                    } else if s < before.len() {
                        assert(before.contains(before[s]));
                    } else {
                        assert(before.contains(before[t]));
                    }
                }
            }
        }
    }
    chosen
}

/// The `count` slots with the most wins, most first.
pub fn top_winners(wins: &Vec<u32>, count: usize) -> (chosen: Vec<usize>)
    ensures
        is_wins_ranking(wins@, count as int, chosen@),
{
    let n = wins.len();
    let mut taken: Vec<bool> = Vec::new();
    let mut i: usize = 0;
    while i < n
        invariant
            i <= n,
            taken@.len() == i,
            forall|j: int| 0 <= j < i ==> !#[trigger] taken@[j],
        decreases n - i,
    {
        taken.push(false);
        i += 1;
    }
    let mut chosen: Vec<usize> = Vec::new();
    while chosen.len() < count && chosen.len() < n
        invariant
            n == wins@.len(),
            taken@.len() == n,
            chosen@.len() <= n,
            chosen@.len() <= count,
            forall|t: int| 0 <= t < chosen@.len() ==> #[trigger] chosen@[t] < n,
            forall|j: int| 0 <= j < n ==> (#[trigger] taken@[j] <==> chosen@.contains(j as usize)),
            forall|s: int, t: int|
                0 <= s < t < chosen@.len() ==> outwins(
                    wins@,
                    #[trigger] chosen@[s] as int,
                    #[trigger] chosen@[t] as int,
                ),
            forall|t: int, j: int|
                0 <= t < chosen@.len() && 0 <= j < n && !taken@[j] ==> #[trigger] outwins(
                    wins@,
                    chosen@[t] as int,
                    j,
                ),
            chosen@.no_duplicates(),
        decreases n - chosen.len(),
    {
        proof {
            lemma_some_slot_free(taken@, chosen@);
        }
        let mut best: usize = 0;
        let mut found = false;
        let mut j: usize = 0;
        while j < n
            invariant
                j <= n,
                n == wins@.len(),
                taken@.len() == n,
                exists|i: int| 0 <= i < n && !#[trigger] taken@[i],
                found ==> best < n && !taken@[best as int],
                found ==> forall|i: int|
                    0 <= i < j && !taken@[i] && i != best ==> #[trigger] outwins(
                        wins@,
                        best as int,
                        i,
                    ),
                !found ==> forall|i: int| 0 <= i < j ==> #[trigger] taken@[i],
            decreases n - j,
        {
            if !taken[j] {
                if !found || wins[j] > wins[best] || (wins[j] == wins[best] && j < best) {
                    proof {
                        if found {
                            assert forall|i: int|
                                0 <= i < j && !taken@[i] && i != j implies #[trigger] outwins(
                                wins@,
                                j as int,
                                i,
                            ) by {
                                if i != best {
                                    assert(outwins(wins@, best as int, i));
                                }
                            }
                        }
                    }
                    best = j;
                    found = true;
                }
            }
            j += 1;
        }
        let ghost before = chosen@;
        let ghost taken_before = taken@;
        taken.set(best, true);
        chosen.push(best);
        proof {
            assert forall|j: int| 0 <= j < n implies (#[trigger] taken@[j] <==> chosen@.contains(
                j as usize,
            )) by {
                if j == best {
                    assert(chosen@[before.len() as int] == best);
                } else {
                    if taken_before[j] {
                        let t = choose|t: int| 0 <= t < before.len() && before[t] == j as usize;
                        assert(chosen@[t] == j as usize);
                    }
                    if chosen@.contains(j as usize) {
                        let t = choose|t: int| 0 <= t < chosen@.len() && chosen@[t] == j as usize;
                        assert(before[t] == j as usize);
                    }
                }
            }
            assert forall|s: int, t: int| 0 <= s < t < chosen@.len() implies outwins(
                wins@,
                #[trigger] chosen@[s] as int,
                #[trigger] chosen@[t] as int,
            ) by {
                if t < before.len() {
                    assert(chosen@[s] == before[s] && chosen@[t] == before[t]);
                } else {
                    assert(chosen@[s] == before[s]);
                    assert(outwins(wins@, before[s] as int, best as int));
                }
            }
            assert forall|t: int, j: int|
                0 <= t < chosen@.len() && 0 <= j < n && !taken@[j] implies #[trigger] outwins(
                wins@,
                chosen@[t] as int,
                j,
            ) by {
                if t < before.len() {
                    assert(chosen@[t] == before[t]);
                    assert(outwins(wins@, before[t] as int, j));
                } else {
                    assert(outwins(wins@, best as int, j));
                }
            }
            assert(chosen@.no_duplicates()) by {
                assert forall|s: int, t: int|
                    0 <= s < chosen@.len() && 0 <= t < chosen@.len() && s != t implies chosen@[s]
                    != chosen@[t] by {
                    if s < before.len() && t < before.len() {
                        assert(chosen@[s] == before[s] && chosen@[t] == before[t]);
                    } else if s < before.len() {
                        assert(before.contains(before[s]));
                    } else {
                        assert(before.contains(before[t]));
                    }
                }
            }
        }
    }
    chosen
}

/// While fewer slots are chosen than there are, one is not taken.
proof fn lemma_some_slot_free(taken: Seq<bool>, chosen: Seq<usize>)
    requires
        chosen.len() < taken.len() <= usize::MAX,
        chosen.no_duplicates(),
        forall|t: int| 0 <= t < chosen.len() ==> #[trigger] chosen[t] < taken.len(),
        forall|j: int| 0 <= j < taken.len() ==> (#[trigger] taken[j] <==> chosen.contains(j as usize)),
    ensures
        exists|j: int| 0 <= j < taken.len() && !#[trigger] taken[j],
{
    if forall|j: int| 0 <= j < taken.len() ==> #[trigger] taken[j] {
        let all = Set::new(|j: int| 0 <= j < taken.len());
        let picked = chosen.map_values(|c: usize| c as int);
        assert(all.subset_of(picked.to_set())) by {
            assert forall|j: int| all.contains(j) implies picked.to_set().contains(j) by {
                assert(taken[j]);
                let t = choose|t: int| 0 <= t < chosen.len() && chosen[t] == j as usize;
                assert(picked[t] == j);
            }
        }
        picked.lemma_cardinality_of_set();
        vstd::set_lib::lemma_int_range(0, taken.len() as int);
        assert(all =~= vstd::set_lib::set_int_range(0, taken.len() as int));
        vstd::set_lib::lemma_len_subset(all, picked.to_set());
    }
}


/// Whether `best` are the `count` best rated of the players, best first.
pub open spec fn is_selection(players: Seq<AI>, elos: Seq<i16>, count: int, best: Seq<AI>) -> bool {
    exists|chosen: Seq<usize>|
        #![trigger is_ranking(elos, count, chosen)]
        {
            &&& is_ranking(elos, count, chosen)
            &&& best.len() == chosen.len()
            &&& forall|t: int| 0 <= t < best.len() ==> (#[trigger] best[t])@ == players[chosen[t] as int]@
        }
}

/// The slot that is rated above every other is ranked first.
pub proof fn lemma_highest_is_ranked_first(
    elos: Seq<i16>,
    count: int,
    chosen: Seq<usize>,
    s: usize,
)
    requires
        is_ranking(elos, count, chosen),
        count >= 1,
        s < elos.len(),
        forall|i: int| 0 <= i < elos.len() && i != s ==> elos[i] < elos[s as int],
    ensures
        chosen.len() >= 1,
        chosen[0] == s,
{
    if chosen[0] != s {
        if chosen.contains(s) {
            let t = choose|t: int| 0 <= t < chosen.len() && chosen[t] == s;
            assert(outranks(elos, chosen[0] as int, chosen[t] as int));
        } else {
            assert(outranks(elos, chosen[0] as int, s as int));
        }
        assert(elos[chosen[0] as int] < elos[s as int]);
    }
}

/// The slot that wins all its matches is selected first. Where every
/// rating begins at the start, one slot plays and wins both games of each
/// of its matches, and every other match ends with a game each, the
/// player of that slot is the first of the best rated, in whatever order
/// the matches were recorded.
pub proof fn lemma_sweep_is_selected_first(
    players: Seq<AI>,
    standings: Standings,
    outcomes: Seq<MatchResult>,
    s: usize,
    count: int,
    best: Seq<AI>,
)
    requires
        s < standings.elos.len(),
        forall|i: int| 0 <= i < standings.elos.len() ==> standings.elos[i] == ELO_START,
        in_population(outcomes, standings.elos.len() as int),
        sweeps(outcomes, s as int),
        plays(outcomes, s as int, outcomes.len() as int),
        count >= 1,
        is_selection(
            players,
            recorded_all(standings, outcomes, outcomes.len() as int).elos,
            count,
            best,
        ),
    ensures
        best.len() >= 1,
        best[0]@ == players[s as int]@,
{
    let elos = recorded_all(standings, outcomes, outcomes.len() as int).elos;
    lemma_sweep_is_rated_highest(standings, outcomes, s as int, outcomes.len() as int);
    let chosen = choose|chosen: Seq<usize>|
        #![trigger is_ranking(elos, count, chosen)]
        {
            &&& is_ranking(elos, count, chosen)
            &&& best.len() == chosen.len()
            &&& forall|t: int| 0 <= t < best.len() ==> (#[trigger] best[t])@ == players[chosen[t] as int]@
        };
    assert forall|i: int| 0 <= i < elos.len() && i != s implies elos[i] < elos[s as int] by {
        assert(recorded_all(standings, outcomes, outcomes.len() as int).elos[i] <= ELO_START);
    }
    lemma_highest_is_ranked_first(elos, count, chosen, s);
}

/// The best rated players of a generation, best first, as many as the
/// settings retain.
pub fn get_best_agents(r: &Referee, config: &EvolutionConfig) -> (best: Vec<AI>)
    requires
        r.wf(),
    ensures
        is_selection(r.players(), r@.elos, config.num_agents_retained as int, best@),
        best@.len() <= r.players().len(),
        best@.len() <= config.num_agents_retained,
{
    let chosen = top_slots(r.elos(), config.num_agents_retained);
    let mut best: Vec<AI> = Vec::new();
    let mut t: usize = 0;
    while t < chosen.len()
        invariant
            t <= chosen@.len(),
            r.wf(),
            is_ranking(r@.elos, config.num_agents_retained as int, chosen@),
            best@.len() == t,
            forall|s: int| 0 <= s < t ==> (#[trigger] best@[s])@ == r.players()[chosen@[s] as int]@,
        decreases chosen.len() - t,
    {
        let agents = r.agents();
        let ghost before = best@;
        best.push(agents[chosen[t]].duplicate());
        proof {
            assert forall|s: int| 0 <= s < t + 1 implies (#[trigger] best@[s])@
                == r.players()[chosen@[s] as int]@ by {
                if s < t {
                    assert(best@[s] == before[s]);
                }
            }
        }
        t += 1;
    }
    best
}

/// The next generation from the players read back from a checkpoint,
/// best rated first: the first of them are retained and mutated.
pub fn mutate_from_recovery(batch_num: u32, agents: Vec<AI>, config: &EvolutionConfig) -> (new_gen:
    Vec<AI>)
    requires
        config.wf(),
        batch_num >= 1,
        agents@.len() >= config.num_agents_retained,
    ensures
        exists|best: Seq<AI>|
            {
                &&& best.len() == config.num_agents_retained
                &&& forall|t: int| 0 <= t < best.len() ==> (#[trigger] best[t])@ == agents@[t]@
                &&& #[trigger] is_next_generation(best, perturbation_of(*config, batch_num), *config, new_gen@)
            },
{
    let mut best_agents: Vec<AI> = Vec::new();
    let mut t: usize = 0;
    while t < config.num_agents_retained
        invariant
            t <= config.num_agents_retained <= agents@.len(),
            best_agents@.len() == t,
            forall|s: int| 0 <= s < t ==> (#[trigger] best_agents@[s])@ == agents@[s]@,
        decreases config.num_agents_retained - t,
    {
        let ghost before = best_agents@;
        best_agents.push(agents[t].duplicate());
        proof {
            assert forall|s: int| 0 <= s < t + 1 implies (#[trigger] best_agents@[s])@
                == agents@[s]@ by {
                if s < t {
                    assert(best_agents@[s] == before[s]);
                }
            }
        }
        t += 1;
    }
    let ghost best = best_agents@;
    mutate(best_agents, batch_num, config)
}

/// The snapshot of a generation that has been played: its number, its
/// players, and their ratings. It is what a run is taken up from again.
pub struct Checkpoint {
    pub generation: u32,
    pub agents: Vec<AI>,
    pub ratings: Vec<i16>,
}

/// The keys by which the players of a checkpoint are ordered: the ratings,
/// raised so that none is negative.
pub open spec fn rating_keys(elos: Seq<i16>) -> Seq<u32> {
    Seq::new(elos.len(), |i: int| (elos[i] + 32768) as u32)
}

/// Whether `best` are the `count` best rated of the players of a
/// checkpoint, best first, and among equal ratings the lower slot first.
pub open spec fn is_restored_selection(
    players: Seq<AI>,
    elos: Seq<i16>,
    count: int,
    best: Seq<AI>,
) -> bool {
    exists|chosen: Seq<usize>|
        #![trigger is_wins_ranking(rating_keys(elos), count, chosen)]
        {
            &&& is_wins_ranking(rating_keys(elos), count, chosen)
            &&& best.len() == chosen.len()
            &&& forall|t: int| 0 <= t < best.len() ==> (#[trigger] best[t])@ == players[chosen[t] as int]@
        }
}

/// Takes a run up again from a checkpoint: the number of the generation
/// to play next, and its population, which the best rated players of the
/// checkpoint are retained for and mutated into.
pub fn resume_from(checkpoint: Checkpoint, config: &EvolutionConfig) -> (next: (u32, Vec<AI>))
    requires
        config.wf(),
        1 <= checkpoint.generation < u32::MAX,
        checkpoint.agents@.len() == checkpoint.ratings@.len(),
        checkpoint.agents@.len() >= config.num_agents_retained,
    ensures
        next.0 == checkpoint.generation + 1,
        next.1@.len() == config.num_agents,
        exists|best: Seq<AI>|
            {
                &&& is_restored_selection(
                    checkpoint.agents@,
                    checkpoint.ratings@,
                    config.num_agents_retained as int,
                    best,
                )
                &&& #[trigger] is_next_generation(
                    best,
                    perturbation_of(*config, checkpoint.generation),
                    *config,
                    next.1@,
                )
            },
{
    let mut keys: Vec<u32> = Vec::new();
    let mut i: usize = 0;
    while i < checkpoint.ratings.len()
        invariant
            i <= checkpoint.ratings@.len(),
            keys@.len() == i,
            forall|j: int| 0 <= j < i ==> #[trigger] keys@[j] == checkpoint.ratings@[j] + 32768,
        decreases checkpoint.ratings.len() - i,
    {
        let key: i32 = checkpoint.ratings[i] as i32 + 32768;
        keys.push(key as u32);
        i += 1;
    }
    proof {
        assert(keys@ =~= rating_keys(checkpoint.ratings@));
    }
    let chosen = top_winners(&keys, config.num_agents_retained);
    let mut best_agents: Vec<AI> = Vec::new();
    let mut t: usize = 0;
    while t < chosen.len()
        invariant
            t <= chosen@.len(),
            checkpoint.agents@.len() == checkpoint.ratings@.len(),
            is_wins_ranking(
                rating_keys(checkpoint.ratings@),
                config.num_agents_retained as int,
                chosen@,
            ),
            best_agents@.len() == t,
            forall|s: int|
                0 <= s < t ==> (#[trigger] best_agents@[s])@ == checkpoint.agents@[chosen@[s] as int]@,
        decreases chosen.len() - t,
    {
        let ghost before = best_agents@;
        best_agents.push(checkpoint.agents[chosen[t]].duplicate());
        proof {
            assert forall|s: int| 0 <= s < t + 1 implies (#[trigger] best_agents@[s])@
                == checkpoint.agents@[chosen@[s] as int]@ by {
                if s < t {
                    assert(best_agents@[s] == before[s]);
                }
            }
        }
        t += 1;
    }
    let ghost best = best_agents@;
    let new_gen = mutate(best_agents, checkpoint.generation, config);
    proof {
        assert(is_restored_selection(
            checkpoint.agents@,
            checkpoint.ratings@,
            config.num_agents_retained as int,
            best,
        ));
    }
    (checkpoint.generation + 1, new_gen)
}

/// A snapshot of the generation that the referee has on record.
pub fn snapshot(r: &Referee) -> (checkpoint: Checkpoint)
    requires
        r.wf(),
    ensures
        checkpoint.generation == r.generation(),
        checkpoint.ratings@ == r@.elos,
        checkpoint.agents@.len() == r.players().len(),
        forall|i: int|
            0 <= i < checkpoint.agents@.len() ==> (#[trigger] checkpoint.agents@[i])@
                == r.players()[i]@,
{
    let agents = r.agents();
    let elos = r.elos();
    let mut copies: Vec<AI> = Vec::new();
    let mut ratings: Vec<i16> = Vec::new();
    let mut i: usize = 0;
    while i < agents.len()
        invariant
            i <= agents@.len(),
            agents@.len() == elos@.len(),
            copies@.len() == i,
            ratings@ == elos@.subrange(0, i as int),
            forall|j: int| 0 <= j < i ==> (#[trigger] copies@[j])@ == agents@[j]@,
        decreases agents.len() - i,
    {
        let ghost before = copies@;
        copies.push(agents[i].duplicate());
        ratings.push(elos[i]);
        proof {
            assert forall|j: int| 0 <= j < i + 1 implies (#[trigger] copies@[j])@ == agents@[j]@ by {
                if j < i {
                    assert(copies@[j] == before[j]);
                }
            }
            assert(ratings@ =~= elos@.subrange(0, i + 1));
        }
        i += 1;
    }
    proof {
        assert(ratings@ =~= elos@);
    }
    Checkpoint { generation: r.batch_num(), agents: copies, ratings }
}

/// Where a run stands.
#[derive(Clone, Copy, Debug, PartialEq, Eq, Structural)]
pub enum Phase {
    /// No population yet.
    Initializing,
    /// A population waits to be played.
    RunningGeneration,
    /// A generation has been played and waits to be saved.
    Checkpointing,
    /// The run is over.
    Done,
}

/// A run of the evolution: the settings, the phase, the counts of
/// generations, and the referee of the generation at hand.
pub struct Evolution {
    config: EvolutionConfig,
    phase: Phase,
    total_batch_num: u32,
    process_batch_num: usize,
    prev_batch: Referee,
}

/// Whether a run goes on: the generation is not beyond the last of all
/// runs, and this run has not played its share.
pub open spec fn goes_on(config: EvolutionConfig, total: int, process: int) -> bool {
    total <= config.total_num_batches && process <= config.per_num_batches
}

impl Evolution {
    /// The settings of the run.
    pub closed spec fn settings(&self) -> EvolutionConfig {
        self.config
    }

    /// The phase of the run.
    pub closed spec fn stage(&self) -> Phase {
        self.phase
    }

    /// The number of the generation at hand, counted over all runs.
    pub closed spec fn generation(&self) -> u32 {
        self.total_batch_num
    }

    /// The number of the generation at hand, counted within this run.
    pub closed spec fn round(&self) -> usize {
        self.process_batch_num
    }

    /// The referee of the generation at hand.
    pub closed spec fn referee(&self) -> Referee {
        self.prev_batch
    }

    /// The settings are well formed; the referee is that of the
    /// generation at hand, and well formed.
    pub open spec fn wf(&self) -> bool {
        &&& self.settings().wf()
        &&& self.referee().wf()
        &&& self.stage() != Phase::Initializing ==> self.referee().generation() == self.generation()
        &&& self.stage() == Phase::RunningGeneration ==> goes_on(
            self.settings(),
            self.generation() as int,
            self.round() as int,
        )
    }

    /// A run that has not begun.
    pub fn new(config: EvolutionConfig) -> (run: Evolution)
        requires
            config.wf(),
        ensures
            run.wf(),
            run.settings() == config,
            run.stage() == Phase::Initializing,
    {
        Evolution {
            config,
            phase: Phase::Initializing,
            total_batch_num: 0,
            process_batch_num: 0,
            prev_batch: Referee::new(Vec::new(), 0),
        }
    }

    /// The phase of the run.
    pub fn phase(&self) -> (phase: Phase)
        ensures
            phase == self.stage(),
    {
        self.phase
    }

    /// The number of the generation at hand.
    pub fn total_batch_num(&self) -> (n: u32)
        ensures
            n == self.generation(),
    {
        self.total_batch_num
    }

    /// The number of the generation at hand within this run, from 1.
    pub fn process_batch_num(&self) -> (n: usize)
        ensures
            n == self.round(),
    {
        self.process_batch_num
    }

    /// The referee of the generation at hand.
    pub fn prev_batch(&self) -> (r: &Referee)
        ensures
            *r == self.referee(),
    {
        &self.prev_batch
    }

    /// Begins the run at generation `initial_batch_num`, with the given
    /// players, or, where there are none, with as many random players as
    /// the population has. The run is over at once where the generation
    /// is beyond the last or the run has no share.
    pub fn initialize(&mut self, initial_batch_num: u32, initial_agents: Option<Vec<AI>>)
        requires
            old(self).wf(),
            old(self).stage() == Phase::Initializing,
        ensures
            final(self).wf(),
            final(self).settings() == old(self).settings(),
            final(self).generation() == initial_batch_num,
            final(self).round() == 1,
            final(self).stage() == if goes_on(old(self).settings(), initial_batch_num as int, 1) {
                Phase::RunningGeneration
            } else {
                Phase::Done
            },
            match initial_agents {
                Some(agents) => final(self).referee().players() == agents@,
                None => final(self).referee().players().len() == old(self).settings().num_agents
                    && forall|i: int|
                    0 <= i < final(self).referee().players().len() ==> is_random_weights(
                        (#[trigger] final(self).referee().players()[i])@.weights,
                    ),
            },
    {
        let agents = match initial_agents {
            Some(i) => i,
            None => {
                let mut randomized_agents: Vec<AI> = Vec::new();
                while randomized_agents.len() < self.config.num_agents
                    invariant
                        self.config == old(self).config,
                        randomized_agents@.len() <= self.config.num_agents,
                        forall|i: int|
                            0 <= i < randomized_agents@.len() ==> is_random_weights(
                                (#[trigger] randomized_agents@[i])@.weights,
                            ),
                    decreases self.config.num_agents - randomized_agents.len(),
                {
                    let agent = random_agent(&self.config);
                    let ghost before = randomized_agents@;
                    randomized_agents.push(agent);
                    proof {
                        assert forall|i: int|
                            0 <= i < randomized_agents@.len() implies is_random_weights(
                            (#[trigger] randomized_agents@[i])@.weights,
                        ) by {
                            if i < before.len() {
                                assert(randomized_agents@[i] == before[i]);
                            }
                        }
                    }
                }
                randomized_agents
            },
        };
        self.total_batch_num = initial_batch_num;
        self.process_batch_num = 1;
        self.prev_batch = Referee::new(agents, initial_batch_num);
        self.phase = if initial_batch_num as usize <= self.config.total_num_batches && 1
            <= self.config.per_num_batches {
            Phase::RunningGeneration
        } else {
            Phase::Done
        };
    }

    /// Plays the generation at hand, match after match, and hands out its
    /// snapshot, which is to be saved before the run goes on.
    pub fn run_generation(&mut self) -> (res: Result<Checkpoint, ScheduleError>)
        requires
            old(self).wf(),
            old(self).stage() == Phase::RunningGeneration,
            has_room(old(self).referee()@.results, old(self).settings().num_matches as int),
        ensures
            final(self).wf(),
            final(self).settings() == old(self).settings(),
            final(self).generation() == old(self).generation(),
            final(self).round() == old(self).round(),
            final(self).referee().players() == old(self).referee().players(),
            old(self).settings().num_matches > pairs_among(old(self).referee().players().len())
                <==> res is Err,
            res is Err ==> final(self).stage() == Phase::RunningGeneration && final(self).referee()@
                == old(self).referee()@,
            res matches Ok(checkpoint) ==> {
                &&& final(self).stage() == Phase::Checkpointing
                &&& is_snapshot(checkpoint, final(self).referee())
                &&& exists|outcomes: Seq<MatchResult>|
                    #![trigger pairings(outcomes)]
                    {
                        &&& outcomes.len() == old(self).settings().num_matches
                        &&& well_scheduled(
                            pairings(outcomes),
                            old(self).referee().players().len() as usize,
                        )
                        &&& forall|k: int|
                            0 <= k < outcomes.len() ==> is_match(
                                old(self).referee().players()[(#[trigger] outcomes[k]).0 as int]@,
                                old(self).referee().players()[outcomes[k].2 as int]@,
                                (outcomes[k].1, outcomes[k].3),
                            )
                        &&& final(self).referee()@ == recorded_all(
                            old(self).referee()@,
                            outcomes,
                            outcomes.len() as int,
                        )
                    }
            },
    {
        match self.prev_batch.play(self.config.num_matches) {
            Ok(outcomes) => {
                self.phase = Phase::Checkpointing;
                Ok(snapshot(&self.prev_batch))
            },
            Err(e) => Err(e),
        }
    }

    /// Takes the outcomes of the matches of the generation at hand, which
    /// were played elsewhere, in the order given, and hands out the
    /// snapshot of the generation.
    pub fn complete_generation(&mut self, outcomes: &Vec<MatchResult>) -> (checkpoint: Checkpoint)
        requires
            old(self).wf(),
            old(self).stage() == Phase::RunningGeneration,
            in_population(outcomes@, old(self).referee().players().len() as int),
            takes_all(old(self).referee()@, outcomes@),
        ensures
            final(self).wf(),
            final(self).settings() == old(self).settings(),
            final(self).generation() == old(self).generation(),
            final(self).round() == old(self).round(),
            final(self).referee().players() == old(self).referee().players(),
            final(self).stage() == Phase::Checkpointing,
            final(self).referee()@ == recorded_all(
                old(self).referee()@,
                outcomes@,
                outcomes@.len() as int,
            ),
            is_snapshot(checkpoint, final(self).referee()),
    {
        self.prev_batch.apply_results(outcomes);
        self.phase = Phase::Checkpointing;
        snapshot(&self.prev_batch)
    }

    /// Goes on to the next generation: the best rated players are
    /// retained and mutated, random players fill the population, and the
    /// counts go up by one. The run is over where the next generation is
    /// beyond the last or beyond the share of this run.
    pub fn advance(&mut self)
        requires
            old(self).wf(),
            old(self).stage() == Phase::Checkpointing,
            1 <= old(self).generation() < u32::MAX,
            old(self).round() < usize::MAX,
        ensures
            final(self).wf(),
            final(self).settings() == old(self).settings(),
            final(self).generation() == old(self).generation() + 1,
            final(self).round() == old(self).round() + 1,
            final(self).stage() == if goes_on(
                old(self).settings(),
                old(self).generation() + 1,
                old(self).round() + 1,
            ) {
                Phase::RunningGeneration
            } else {
                Phase::Done
            },
            exists|best: Seq<AI>|
                {
                    &&& #[trigger] is_selection(
                        old(self).referee().players(),
                        old(self).referee()@.elos,
                        old(self).settings().num_agents_retained as int,
                        best,
                    )
                    &&& is_next_generation(
                        best,
                        perturbation_of(old(self).settings(), old(self).generation()),
                        old(self).settings(),
                        final(self).referee().players(),
                    )
                },
    {
        let old_batch_num = self.prev_batch.batch_num();
        let old_best_agents = get_best_agents(&self.prev_batch, &self.config);
        let ghost best = old_best_agents@;
        let new_agents = mutate(old_best_agents, old_batch_num, &self.config);
        self.prev_batch = Referee::new(new_agents, old_batch_num + 1);
        self.total_batch_num = self.total_batch_num + 1;
        self.process_batch_num = self.process_batch_num + 1;
        self.phase = if self.total_batch_num as usize <= self.config.total_num_batches
            && self.process_batch_num <= self.config.per_num_batches {
            Phase::RunningGeneration
        } else {
            Phase::Done
        };
        proof {
            assert(is_selection(
                old(self).referee().players(),
                old(self).referee()@.elos,
                old(self).settings().num_agents_retained as int,
                best,
            ));
        }
    }

    /// The best rated player of the generation at hand; none where the
    /// population is empty or nothing is retained.
    pub fn best_agent(&self) -> (best: Option<AI>)
        requires
            self.wf(),
        ensures
            best matches Some(agent) ==> exists|chosen: Seq<AI>|
                #[trigger] is_selection(
                    self.referee().players(),
                    self.referee()@.elos,
                    self.settings().num_agents_retained as int,
                    chosen,
                ) && chosen.len() > 0 && chosen[0]@ == agent@,
            best is None <==> self.referee().players().len() == 0
                || self.settings().num_agents_retained == 0,
    {
        let best_agents = get_best_agents(&self.prev_batch, &self.config);
        if best_agents.len() == 0 {
            proof {
                let chosen = choose|chosen: Seq<usize>|
                    #![trigger is_ranking(self.referee()@.elos, self.settings().num_agents_retained as int, chosen)]
                    is_ranking(
                        self.referee()@.elos,
                        self.settings().num_agents_retained as int,
                        chosen,
                    ) && best_agents@.len() == chosen.len();
            }
            None
        } else {
            Some(best_agents[0].duplicate())
        }
    }
}

/// Whether a checkpoint is the snapshot of the generation that the
/// referee has on record.
pub open spec fn is_snapshot(checkpoint: Checkpoint, r: Referee) -> bool {
    &&& checkpoint.generation == r.generation()
    &&& checkpoint.ratings@ == r@.elos
    &&& checkpoint.agents@.len() == r.players().len()
    &&& forall|i: int|
        0 <= i < checkpoint.agents@.len() ==> (#[trigger] checkpoint.agents@[i])@ == r.players()[i]@
}

} // verus!
