//! A small genetic algorithm over batches of agents that are ranked by the
//! games they win.

use super::heuristics::{normalize_weights, Weights, WEIGHT_ONE};
use super::tree::{is_default_limit, SearchLimit};
use crate::game::gamestate::State;
use crate::game::player::{normalized, AI};
use crate::genetic::chance::{random_below, random_between, thread_generator};
use crate::genetic::emperor::{is_wins_ranking, top_winners};
use crate::genetic::referee::{is_game, play_one_game, GameRecord};
use vstd::prelude::*;

verus! {

/// The settings of the algorithm.
#[derive(Clone, Copy, Debug, Default, PartialEq, Eq, Structural)]
pub struct GeneticAlgorithm {
    pub num_batches: u32,
    pub num_agents_per_batch: u32,
    pub num_agents_retained: u32,
    pub num_children_per_retained_agent: u32,
}

/// One individual: its weights, and its record in the batch.
#[derive(Clone, Copy, Debug, Default)]
pub struct Agent {
    weights: Weights,
    wins: u32,
    losses: u32,
}

/// A generation: its agents and the matches they are to play.
#[derive(Default)]
pub struct Batch {
    pub num_agents_per_batch: u32,
    pub agents: Vec<Agent>,
    pub num_agents_retained: u32,
    pub num_children_per_retained_agent: u32,
    pub match_schedule: Vec<(usize, usize)>,
}

/// A weight after a perturbation by `shift`: the sum, kept between 0 and
/// 1.
pub open spec fn shifted_weight(weight: int, shift: int) -> int {
    let moved = weight + shift;
    if shift < 0 {
        if moved > 0 {
            moved
        } else {
            0
        }
    } else {
        if moved <= WEIGHT_ONE {
            moved
        } else {
            WEIGHT_ONE as int
        }
    }
}

/// Whether `child` can come of `parent` by a perturbation: a shift from -1
/// up to but not including 1.
pub open spec fn is_shift_of(parent: int, child: int) -> bool {
    exists|shift: int|
        -WEIGHT_ONE <= shift < WEIGHT_ONE && child == #[trigger] shifted_weight(parent, shift)
}

/// Whether an agent has neither won nor lost a game.
pub open spec fn clean(agent: Agent) -> bool {
    agent.spec_wins() == 0 && agent.spec_losses() == 0
}

/// A weight moved by `shift` and kept between 0 and 1.
pub fn shifted(weight: i64, shift: i64) -> (moved: i64)
    requires
        -WEIGHT_ONE <= shift < WEIGHT_ONE,
    ensures
        moved == shifted_weight(weight as int, shift as int),
{
    let diff: i128 = weight as i128 + shift as i128;
    if shift < 0 {
        if diff > 0 {
            diff as i64
        } else {
            0
        }
    } else {
        if diff <= WEIGHT_ONE as i128 {
            diff as i64
        } else {
            WEIGHT_ONE
        }
    }
}

impl Agent {
    /// The weights.
    pub closed spec fn spec_weights(&self) -> Seq<i64> {
        self.weights@
    }

    /// The games won.
    pub closed spec fn spec_wins(&self) -> u32 {
        self.wins
    }

    /// The games lost.
    pub closed spec fn spec_losses(&self) -> u32 {
        self.losses
    }

    /// The agent with a win more.
    pub closed spec fn with_win(self) -> Agent {
        Agent { wins: (self.wins + 1) as u32, ..self }
    }

    /// The agent with a loss more.
    pub closed spec fn with_loss(self) -> Agent {
        Agent { losses: (self.losses + 1) as u32, ..self }
    }

    /// An agent with every weight at 0 and no record.
    pub fn new() -> (agent: Agent)
        ensures
            agent.spec_weights() == Seq::new(19, |i: int| 0i64),
            agent.spec_wins() == 0,
            agent.spec_losses() == 0,
    {
        let agent = Agent { weights: [0;19], wins: 0, losses: 0 };
        assert(agent.weights@ =~= Seq::new(19, |i: int| 0i64));
        agent
    }

    /// The weights.
    pub fn weights(&self) -> (weights: Weights)
        ensures
            weights@ == self.spec_weights(),
    {
        self.weights
    }

    /// The games won.
    pub fn wins(&self) -> (wins: u32)
        ensures
            wins == self.spec_wins(),
    {
        self.wins
    }

    /// The games lost.
    pub fn losses(&self) -> (losses: u32)
        ensures
            losses == self.spec_losses(),
    {
        self.losses
    }

    /// The agent with random weights, each drawn from 0 up to but not
    /// including 1.
    pub fn randomize_weights(self) -> (agent: Agent)
        ensures
            agent.spec_wins() == self.spec_wins(),
            agent.spec_losses() == self.spec_losses(),
            agent.spec_weights().len() == 19,
            forall|i: int| 0 <= i < 19 ==> 0 <= #[trigger] agent.spec_weights()[i] < WEIGHT_ONE,
    {
        let mut agent = self;
        let mut rng = thread_generator();
        let mut w: usize = 0;
        while w < 19
            invariant
                w <= 19,
                agent.wins == self.wins,
                agent.losses == self.losses,
                forall|i: int| 0 <= i < w ==> 0 <= #[trigger] agent.weights@[i] < WEIGHT_ONE,
            decreases 19 - w,
        {
            agent.weights[w] = random_between(&mut rng, 0, WEIGHT_ONE - 1);
            w += 1;
        }
        agent
    }

    /// The agent with every weight moved by a shift of its own, drawn from
    /// -1 up to but not including 1, and kept between 0 and 1.
    pub fn perturb_weights(self) -> (agent: Agent)
        ensures
            agent.spec_wins() == self.spec_wins(),
            agent.spec_losses() == self.spec_losses(),
            agent.spec_weights().len() == 19,
            forall|i: int|
                0 <= i < 19 ==> #[trigger] is_shift_of(
                    self.spec_weights()[i] as int,
                    agent.spec_weights()[i] as int,
                ),
    {
        let mut agent = self;
        let mut rng = thread_generator();
        let mut w: usize = 0;
        while w < 19
            invariant
                w <= 19,
                agent.wins == self.wins,
                agent.losses == self.losses,
                forall|i: int| w <= i < 19 ==> #[trigger] agent.weights@[i] == self.weights@[i],
                forall|i: int|
                    0 <= i < w ==> #[trigger] is_shift_of(
                        self.weights@[i] as int,
                        agent.weights@[i] as int,
                    ),
            decreases 19 - w,
        {
            let perturb_value = random_between(&mut rng, -WEIGHT_ONE, WEIGHT_ONE - 1);
            let ghost before = agent.weights@;
            agent.weights[w] = shifted(agent.weights[w], perturb_value);
            proof {
                assert(agent.weights@[w as int] == shifted_weight(
                    self.weights@[w as int] as int,
                    perturb_value as int,
                ));
                assert forall|i: int| 0 <= i < w + 1 implies #[trigger] is_shift_of(
                    self.weights@[i] as int,
                    agent.weights@[i] as int,
                ) by {
                    if i < w {
                        assert(agent.weights@[i] == before[i]);
                        assert(is_shift_of(self.weights@[i] as int, before[i] as int));
                    }
                }
            }
            w += 1;
        }
        agent
    }

    /// The agent with its weights divided by their sum; with the weights
    /// as they are where that cannot be done.
    pub fn normalize_weights(self) -> (agent: Agent)
        ensures
            agent.spec_wins() == self.spec_wins(),
            agent.spec_losses() == self.spec_losses(),
            agent.spec_weights() == normalized(self.spec_weights()),
    {
        let mut agent = self;
        normalize_weights(&mut agent.weights);
        assert(agent.weights@ =~= normalized(self.weights@));
        agent
    }

    /// The agent with no record.
    pub fn clear_record(self) -> (agent: Agent)
        ensures
            agent.spec_weights() == self.spec_weights(),
            agent.spec_wins() == 0,
            agent.spec_losses() == 0,
    {
        let mut agent = self;
        agent.wins = 0;
        agent.losses = 0;
        agent
    }
}

/// The agents after a game that `won` has won against `lost`: a win more
/// for the one, then a loss more for the other.
pub open spec fn game_recorded(agents: Seq<Agent>, won: int, lost: int) -> Seq<Agent> {
    let with_win = agents.update(won, agents[won].with_win());
    with_win.update(lost, with_win[lost].with_loss())
}

/// The wins of the agents, agent by agent.
pub open spec fn win_counts(agents: Seq<Agent>) -> Seq<u32> {
    Seq::new(agents.len(), |i: int| agents[i].spec_wins())
}

/// Whether `winner` is the winner of a game from the opening position
/// between two players with the given weights and the default search
/// limit, black first: player 0 or player 1, or none where the game
/// stopped without one.
pub open spec fn is_genetic_game(black: Seq<i64>, white: Seq<i64>, winner: Option<u8>) -> bool {
    &&& winner matches Some(w) ==> w <= 1
    &&& exists|record: GameRecord, start: State, one: AI, two: AI|
        #![trigger is_game(record, start, one@, two@)]
        {
            &&& start.active && start.current_turn == 0 && start.winner is None
            &&& start.board.is_opening()
            &&& one@.weights == black && is_default_limit(one@.limit)
            &&& two@.weights == white && is_default_limit(two@.limit)
            &&& is_game(record, start, one@, two@)
            &&& winner == record.winner
        }
}

/// The agents after a game between `black` and `white` with the given
/// winner: a win for the winner and a loss for the other, and nothing for
/// a game without a winner.
pub open spec fn winner_recorded(
    agents: Seq<Agent>,
    black: int,
    white: int,
    winner: Option<u8>,
) -> Seq<Agent> {
    match winner {
        Some(w) => if w == 0 {
            game_recorded(agents, black, white)
        } else {
            game_recorded(agents, white, black)
        },
        None => agents,
    }
}

/// The agents after a match between `first` and `second`: a game with
/// `first` as black, then one with `second` as black.
pub open spec fn match_recorded(
    agents: Seq<Agent>,
    first: int,
    second: int,
    winners: (Option<u8>, Option<u8>),
) -> Seq<Agent> {
    winner_recorded(
        winner_recorded(agents, first, second, winners.0),
        second,
        first,
        winners.1,
    )
}

/// The agents after the first `n` matches of the schedule, given the
/// winners of their games.
pub open spec fn matches_recorded(
    agents: Seq<Agent>,
    schedule: Seq<(usize, usize)>,
    winners: Seq<(Option<u8>, Option<u8>)>,
    n: int,
) -> Seq<Agent>
    decreases n,
{
    if n <= 0 {
        agents
    } else {
        match_recorded(
            matches_recorded(agents, schedule, winners, n - 1),
            schedule[n - 1].0 as int,
            schedule[n - 1].1 as int,
            winners[n - 1],
        )
    }
}

/// Whether `winners` are the winners of the two games of a match between
/// `first` and `second`.
pub open spec fn are_match_winners(
    agents: Seq<Agent>,
    first: int,
    second: int,
    winners: (Option<u8>, Option<u8>),
) -> bool {
    &&& is_genetic_game(agents[first].spec_weights(), agents[second].spec_weights(), winners.0)
    &&& is_genetic_game(agents[second].spec_weights(), agents[first].spec_weights(), winners.1)
}

/// Whether `winners` are the winners of the games of the first `n` matches
/// of the schedule.
pub open spec fn are_batch_winners(
    agents: Seq<Agent>,
    schedule: Seq<(usize, usize)>,
    winners: Seq<(Option<u8>, Option<u8>)>,
    n: int,
) -> bool {
    &&& winners.len() == n
    &&& forall|k: int|
        0 <= k < n ==> are_match_winners(
            agents,
            schedule[k].0 as int,
            schedule[k].1 as int,
            #[trigger] winners[k],
        )
}

/// Recording a game changes the records of its two players and nothing
/// else.
pub proof fn lemma_winner_recorded(agents: Seq<Agent>, black: int, white: int, winner: Option<u8>)
    requires
        0 <= black < agents.len(),
        0 <= white < agents.len(),
    ensures
        winner_recorded(agents, black, white, winner).len() == agents.len(),
        forall|i: int|
            0 <= i < agents.len() ==> (#[trigger] winner_recorded(
                agents,
                black,
                white,
                winner,
            )[i]).spec_weights() == agents[i].spec_weights(),
{
}

/// The agents after the first `n` matches do not depend on later winners.
pub proof fn lemma_matches_recorded_prefix(
    agents: Seq<Agent>,
    schedule: Seq<(usize, usize)>,
    winners: Seq<(Option<u8>, Option<u8>)>,
    more: Seq<(Option<u8>, Option<u8>)>,
    n: int,
)
    requires
        0 <= n <= winners.len() <= more.len(),
        forall|k: int| 0 <= k < winners.len() ==> winners[k] == more[k],
    ensures
        matches_recorded(agents, schedule, more, n) == matches_recorded(agents, schedule, winners, n),
    decreases n,
{
    if n > 0 {
        lemma_matches_recorded_prefix(agents, schedule, winners, more, n - 1);
    }
}

/// A game from the opening position between two players with the given
/// weights and the default search limit: the winner, if there is one.
pub fn play_genetic_game(black: Weights, white: Weights) -> (winner: Option<u8>)
    ensures
        is_genetic_game(black@, white@, winner),
{
    let black_player = AI::with_raw_weights(String::new(), black, SearchLimit::default());
    let white_player = AI::with_raw_weights(String::new(), white, SearchLimit::default());
    let start = State::new();
    let record = play_one_game(start, &black_player, &white_player);
    proof {
        assert(is_game(record, start, black_player@, white_player@));
    }
    record.winner
}

impl GeneticAlgorithm {
    /// Two batches of two agents, of which one is retained and has one
    /// child.
    pub fn new() -> (algorithm: GeneticAlgorithm)
        ensures
            algorithm.num_batches == 2,
            algorithm.num_agents_per_batch == 2,
            algorithm.num_agents_retained == 1,
            algorithm.num_children_per_retained_agent == 1,
    {
        GeneticAlgorithm {
            num_batches: 2,
            num_agents_per_batch: 2,
            num_agents_retained: 1,
            num_children_per_retained_agent: 1,
        }
    }

    /// The settings can be run: a batch has at least two agents, so that
    /// every agent finds an opponent; no more are retained than a batch
    /// has; the square of the size of a batch fits 32 bits; and the
    /// retained agents and their children are no more than have their
    /// games counted in 32 bits.
    pub open spec fn runnable(self) -> bool {
        &&& 2 <= self.num_agents_per_batch <= 0xffff
        &&& self.num_agents_retained <= self.num_agents_per_batch
        &&& self.num_agents_retained + self.num_agents_retained
            * self.num_children_per_retained_agent <= 0x7fff_ffff
    }

    /// Runs the batches one after the other, each begun with the best
    /// agents of the one before, and returns the settings.
    pub fn run(self) -> (algorithm: GeneticAlgorithm)
        requires
            self.runnable(),
        ensures
            algorithm == self,
    {
        let mut best_agents_from_previous_batch: Option<Vec<Agent>> = None;
        let mut played: u32 = 0;
        while played < self.num_batches
            invariant
                self.runnable(),
                best_agents_from_previous_batch matches Some(best) ==> best@.len()
                    == self.num_agents_retained && forall|i: int|
                    0 <= i < best@.len() ==> clean(#[trigger] best@[i]),
            decreases self.num_batches - played,
        {
            let batch = Batch::new(
                self.num_agents_per_batch,
                self.num_agents_retained,
                self.num_children_per_retained_agent,
            ).initialize_agents(best_agents_from_previous_batch).schedule_agent_matches().run_batch();
            best_agents_from_previous_batch = Some(batch.best_agents_from_batch());
            played += 1;
        }
        self
    }
}

impl Batch {
    /// The agents have clean records and two or more of them are there,
    /// at least as many as a batch has and as are retained.
    pub open spec fn ready(&self) -> bool {
        &&& 2 <= self.num_agents_per_batch <= self.agents@.len()
        &&& self.num_agents_retained <= self.num_agents_per_batch
        &&& self.agents@.len() <= 0x7fff_ffff
        &&& forall|i: int| 0 <= i < self.agents@.len() ==> clean(#[trigger] self.agents@[i])
    }

    /// Every match is between two different agents of the batch, and the
    /// records have room for the games.
    pub open spec fn scheduled(&self) -> bool {
        &&& self.match_schedule@.len() <= self.agents@.len() <= 0x7fff_ffff
        &&& self.num_agents_retained <= self.agents@.len()
        &&& forall|k: int|
            0 <= k < self.match_schedule@.len() ==> (#[trigger] self.match_schedule@[k]).0
                < self.agents@.len() && self.match_schedule@[k].1 < self.agents@.len()
                && self.match_schedule@[k].0 != self.match_schedule@[k].1
    }

    /// An empty batch with the given settings.
    pub fn new(
        num_agents_per_batch: u32,
        num_agents_retained: u32,
        num_children_per_retained_agent: u32,
    ) -> (batch: Batch)
        requires
            num_agents_per_batch <= 0xffff,
        ensures
            batch.num_agents_per_batch == num_agents_per_batch,
            batch.num_agents_retained == num_agents_retained,
            batch.num_children_per_retained_agent == num_children_per_retained_agent,
            batch.agents@.len() == 0,
            batch.match_schedule@.len() == 0,
    {
        assert(num_agents_per_batch * num_agents_per_batch <= 0xffff_ffff) by (nonlinear_arith)
            requires
                num_agents_per_batch <= 0xffff,
        ;
        Batch {
            num_agents_per_batch,
            agents: Vec::with_capacity(num_agents_per_batch as usize),
            num_agents_retained,
            num_children_per_retained_agent,
            match_schedule: Vec::with_capacity(
                (num_agents_per_batch * num_agents_per_batch) as usize,
            ),
        }
    }

    /// Fills the batch: the best agents of the batch before, their
    /// children, and new random agents up to the size of a batch. A batch
    /// of two or more agents, with no more retained than it has and no
    /// more agents than have their games counted in 32 bits, is ready
    /// where the agents that it held and the best agents have clean
    /// records.
    pub fn initialize_agents(self, best_agents: Option<Vec<Agent>>) -> (batch: Batch)
        ensures
            batch.num_agents_per_batch == self.num_agents_per_batch,
            batch.num_agents_retained == self.num_agents_retained,
            batch.num_children_per_retained_agent == self.num_children_per_retained_agent,
            batch.match_schedule@ == self.match_schedule@,
            batch.agents@.len() == if Batch::held(self, best_agents) < self.num_agents_per_batch {
                self.num_agents_per_batch as nat
            } else {
                Batch::held(self, best_agents)
            },
            forall|i: int|
                0 <= i < self.agents@.len() ==> #[trigger] batch.agents@[i] == self.agents@[i],
            best_agents matches Some(best) ==> forall|i: int|
                0 <= i < best@.len() ==> #[trigger] batch.agents@[self.agents@.len() + i] == best@[i],
            Batch::all_clean(self.agents@) && (best_agents matches Some(best) ==> Batch::all_clean(
                best@,
            )) ==> Batch::all_clean(batch.agents@),
            2 <= self.num_agents_per_batch && self.num_agents_retained <= self.num_agents_per_batch
                && batch.agents@.len() <= 0x7fff_ffff && Batch::all_clean(self.agents@) && (
            best_agents matches Some(best) ==> Batch::all_clean(best@)) ==> batch.ready(),
    {
        let mut batch = self;
        batch.include_best_agents(&best_agents);
        let ghost included = batch.agents@;
        batch.add_children_from_best_agents(&best_agents);
        let ghost with_children = batch.agents@;
        batch.generate_and_add_new_agents();
        proof {
            assert forall|i: int| 0 <= i < self.agents@.len() implies #[trigger] batch.agents@[i]
                == self.agents@[i] by {
                assert(batch.agents@[i] == with_children[i]);
                assert(with_children[i] == included[i]);
            }
            if best_agents is Some {
                let best = best_agents->0;
                assert forall|i: int| 0 <= i < best@.len() implies #[trigger] batch.agents@[self.agents@.len()
                    + i] == best@[i] by {
                    assert(batch.agents@[self.agents@.len() + i] == with_children[self.agents@.len()
                        + i]);
                    assert(with_children[self.agents@.len() + i] == included[self.agents@.len() + i]);
                }
            }
            if Batch::all_clean(self.agents@) && (best_agents matches Some(best)
                ==> Batch::all_clean(best@)) {
                assert forall|i: int| 0 <= i < batch.agents@.len() implies clean(
                    #[trigger] batch.agents@[i],
                ) by {
                    if i < with_children.len() {
                        assert(batch.agents@[i] == with_children[i]);
                        if i < included.len() {
                            assert(with_children[i] == included[i]);
                            if i >= self.agents@.len() {
                                assert(included[i] == best_agents->0@[i - self.agents@.len()]);
                            }
                        }
                    }
                }
            }
        }
        batch
    }

    /// Whether every agent has a clean record.
    pub open spec fn all_clean(agents: Seq<Agent>) -> bool {
        forall|i: int| 0 <= i < agents.len() ==> clean(#[trigger] agents[i])
    }

    /// The number of agents that a batch holds once the best agents and
    /// their children are put into it.
    pub open spec fn held(batch: Batch, best_agents: Option<Vec<Agent>>) -> nat {
        match best_agents {
            Some(best) => batch.agents@.len() + best@.len() + best@.len()
                * batch.num_children_per_retained_agent as nat,
            None => batch.agents@.len(),
        }
    }

    /// Puts the best agents of the batch before into this one.
    pub fn include_best_agents(&mut self, best_agents: &Option<Vec<Agent>>)
        ensures
            final(self).num_agents_per_batch == old(self).num_agents_per_batch,
            final(self).num_agents_retained == old(self).num_agents_retained,
            final(self).num_children_per_retained_agent == old(self).num_children_per_retained_agent,
            final(self).match_schedule@ == old(self).match_schedule@,
            final(self).agents@ == old(self).agents@ + match *best_agents {
                Some(best) => best@,
                None => Seq::empty(),
            },
    {
        match best_agents {
            Some(agent_vec) => {
                let mut i: usize = 0;
                while i < agent_vec.len()
                    invariant
                        i <= agent_vec@.len(),
                        self.num_agents_per_batch == old(self).num_agents_per_batch,
                        self.num_agents_retained == old(self).num_agents_retained,
                        self.num_children_per_retained_agent == old(self).num_children_per_retained_agent,
                        self.match_schedule@ == old(self).match_schedule@,
                        self.agents@ == old(self).agents@ + agent_vec@.subrange(0, i as int),
                    decreases agent_vec.len() - i,
                {
                    self.agents.push(agent_vec[i]);
                    proof {
                        assert(self.agents@ =~= old(self).agents@ + agent_vec@.subrange(0, i + 1));
                    }
                    i += 1;
                }
                proof {
                    assert(agent_vec@.subrange(0, agent_vec@.len() as int) =~= agent_vec@);
                }
            },
            None => {
                proof {
                    assert(self.agents@ =~= old(self).agents@ + Seq::<Agent>::empty());
                }
            },
        }
    }

    /// Puts the children of the best agents into the batch: every one
    /// perturbed and normalized.
    pub fn add_children_from_best_agents(&mut self, best_agents: &Option<Vec<Agent>>)
        ensures
            final(self).num_agents_per_batch == old(self).num_agents_per_batch,
            final(self).num_agents_retained == old(self).num_agents_retained,
            final(self).num_children_per_retained_agent == old(self).num_children_per_retained_agent,
            final(self).match_schedule@ == old(self).match_schedule@,
            final(self).agents@.len() == old(self).agents@.len() + match *best_agents {
                Some(best) => best@.len() * old(self).num_children_per_retained_agent,
                None => 0,
            },
            forall|i: int|
                0 <= i < old(self).agents@.len() ==> #[trigger] final(self).agents@[i] == old(self).agents@[i],
            (best_agents matches Some(best) ==> forall|p: int|
                0 <= p < best@.len() ==> clean(#[trigger] best@[p])) ==> forall|i: int|
                old(self).agents@.len() <= i < final(self).agents@.len() ==> clean(
                    #[trigger] final(self).agents@[i],
                ),
    {
        if self.num_children_per_retained_agent > 0 {
            match best_agents {
                Some(agent_vec) => {
                    let ghost start = self.agents@;
                    let ghost per = self.num_children_per_retained_agent as int;
                    let mut p: usize = 0;
                    while p < agent_vec.len()
                        invariant
                            p <= agent_vec@.len(),
                            per == self.num_children_per_retained_agent,
                            self.num_agents_per_batch == old(self).num_agents_per_batch,
                            self.num_agents_retained == old(self).num_agents_retained,
                            self.num_children_per_retained_agent == old(self).num_children_per_retained_agent,
                            self.match_schedule@ == old(self).match_schedule@,
                            start == old(self).agents@,
                            self.agents@.len() == start.len() + p * per,
                            forall|i: int| 0 <= i < start.len() ==> #[trigger] self.agents@[i] == start[i],
                            (forall|q: int| 0 <= q < agent_vec@.len() ==> clean(#[trigger] agent_vec@[q]))
                                ==> forall|i: int|
                                start.len() <= i < self.agents@.len() ==> clean(
                                    #[trigger] self.agents@[i],
                                ),
                        decreases agent_vec.len() - p,
                    {
                        let agent = agent_vec[p];
                        let mut num_children: u32 = 0;
                        while num_children < self.num_children_per_retained_agent
                            invariant
                                p < agent_vec@.len(),
                                agent == agent_vec@[p as int],
                                num_children <= self.num_children_per_retained_agent,
                                per == self.num_children_per_retained_agent,
                                self.num_agents_per_batch == old(self).num_agents_per_batch,
                                self.num_agents_retained == old(self).num_agents_retained,
                                self.num_children_per_retained_agent == old(self).num_children_per_retained_agent,
                                self.match_schedule@ == old(self).match_schedule@,
                                start == old(self).agents@,
                                self.agents@.len() == start.len() + p * per + num_children,
                                forall|i: int|
                                    0 <= i < start.len() ==> #[trigger] self.agents@[i] == start[i],
                                (forall|q: int|
                                    0 <= q < agent_vec@.len() ==> clean(#[trigger] agent_vec@[q]))
                                    ==> forall|i: int|
                                    start.len() <= i < self.agents@.len() ==> clean(
                                        #[trigger] self.agents@[i],
                                    ),
                            decreases self.num_children_per_retained_agent - num_children,
                        {
                            let ghost before = self.agents@;
                            let child = agent.perturb_weights().normalize_weights();
                            self.agents.push(child);
                            proof {
                                if forall|q: int|
                                    0 <= q < agent_vec@.len() ==> clean(#[trigger] agent_vec@[q]) {
                                    assert forall|i: int|
                                        start.len() <= i < self.agents@.len() implies clean(
                                        #[trigger] self.agents@[i],
                                    ) by {
                                        if i < before.len() {
                                            assert(self.agents@[i] == before[i]);
                                        } else {
                                            assert(clean(agent_vec@[p as int]));
                                        }
                                    }
                                }
                            }
                            num_children += 1;
                        }
                        proof {
                            assert((p + 1) * per == p * per + per) by (nonlinear_arith);
                        }
                        p += 1;
                    }
                },
                None => (),
            }
        } else {
            proof {
                if best_agents is Some {
                    assert(best_agents->0@.len() * 0 == 0);
                }
            }
        }
    }

    /// Fills the batch with new random agents, normalized, up to the size
    /// of a batch.
    pub fn generate_and_add_new_agents(&mut self)
        ensures
            final(self).num_agents_per_batch == old(self).num_agents_per_batch,
            final(self).num_agents_retained == old(self).num_agents_retained,
            final(self).num_children_per_retained_agent == old(self).num_children_per_retained_agent,
            final(self).match_schedule@ == old(self).match_schedule@,
            final(self).agents@.len() == if old(self).agents@.len() < old(self).num_agents_per_batch {
                old(self).num_agents_per_batch as nat
            } else {
                old(self).agents@.len()
            },
            forall|i: int|
                0 <= i < old(self).agents@.len() ==> #[trigger] final(self).agents@[i] == old(self).agents@[i],
            forall|i: int|
                old(self).agents@.len() <= i < final(self).agents@.len() ==> clean(
                    #[trigger] final(self).agents@[i],
                ),
    {
        if self.agents.len() < self.num_agents_per_batch as usize {
            let num_agents_to_add = self.num_agents_per_batch as usize - self.agents.len();
            let mut added: usize = 0;
            while added < num_agents_to_add
                invariant
                    added <= num_agents_to_add,
                    self.num_agents_per_batch == old(self).num_agents_per_batch,
                    self.num_agents_retained == old(self).num_agents_retained,
                    self.num_children_per_retained_agent == old(self).num_children_per_retained_agent,
                    self.match_schedule@ == old(self).match_schedule@,
                    num_agents_to_add == old(self).num_agents_per_batch - old(self).agents@.len(),
                    self.agents@.len() == old(self).agents@.len() + added,
                    forall|i: int|
                        0 <= i < old(self).agents@.len() ==> #[trigger] self.agents@[i] == old(self).agents@[i],
                    forall|i: int|
                        old(self).agents@.len() <= i < self.agents@.len() ==> clean(
                            #[trigger] self.agents@[i],
                        ),
                decreases num_agents_to_add - added,
            {
                let ghost before = self.agents@;
                self.agents.push(Agent::new().randomize_weights().normalize_weights());
                proof {
                    assert forall|i: int|
                        old(self).agents@.len() <= i < self.agents@.len() implies clean(
                        #[trigger] self.agents@[i],
                    ) by {
                        if i < before.len() {
                            assert(self.agents@[i] == before[i]);
                        }
                    }
                }
                added += 1;
            }
        }
    }

    /// Schedules one match for every agent, against an opponent drawn at
    /// random until it is another agent; against the next agent, should
    /// the draws run out.
    pub fn schedule_agent_matches(self) -> (batch: Batch)
        requires
            self.ready(),
            self.match_schedule@.len() == 0,
        ensures
            batch.scheduled(),
            batch.match_schedule@.len() == batch.agents@.len(),
            forall|k: int|
                0 <= k < batch.match_schedule@.len() ==> (#[trigger] batch.match_schedule@[k]).0 == k,
            batch.agents@ == self.agents@,
            batch.num_agents_per_batch == self.num_agents_per_batch,
            batch.num_agents_retained == self.num_agents_retained,
            batch.num_children_per_retained_agent == self.num_children_per_retained_agent,
    {
        let mut batch = self;
        let mut rng = thread_generator();
        let n = batch.agents.len();
        let mut agent_index: usize = 0;
        let mut draws_left: usize = usize::MAX;
        while agent_index < n && draws_left > 0
            invariant
                n == batch.agents@.len(),
                n >= 2,
                agent_index <= n,
                batch.agents@ == self.agents@,
                batch.num_agents_per_batch == self.num_agents_per_batch,
                batch.num_agents_retained == self.num_agents_retained,
                batch.num_children_per_retained_agent == self.num_children_per_retained_agent,
                batch.match_schedule@.len() == agent_index,
                forall|k: int|
                    0 <= k < batch.match_schedule@.len() ==> (#[trigger] batch.match_schedule@[k]).0
                        == k && batch.match_schedule@[k].1 < n && batch.match_schedule@[k].1 != k,
            decreases draws_left,
        {
            let opponent_agent_index = random_below(&mut rng, n);
            draws_left -= 1;
            if agent_index != opponent_agent_index {
                batch.match_schedule.push((agent_index, opponent_agent_index));
                agent_index += 1;
            }
        }
        while agent_index < n
            invariant
                n == batch.agents@.len(),
                n >= 2,
                agent_index <= n,
                batch.agents@ == self.agents@,
                batch.num_agents_per_batch == self.num_agents_per_batch,
                batch.num_agents_retained == self.num_agents_retained,
                batch.num_children_per_retained_agent == self.num_children_per_retained_agent,
                batch.match_schedule@.len() == agent_index,
                forall|k: int|
                    0 <= k < batch.match_schedule@.len() ==> (#[trigger] batch.match_schedule@[k]).0
                        == k && batch.match_schedule@[k].1 < n && batch.match_schedule@[k].1 != k,
            decreases n - agent_index,
        {
            let next = if agent_index + 1 < n {
                agent_index + 1
            } else {
                0
            };
            batch.match_schedule.push((agent_index, next));
            agent_index += 1;
        }
        batch
    }

    /// The records have room for `games` more games.
    pub open spec fn has_room(&self, games: int) -> bool {
        forall|i: int|
            0 <= i < self.agents@.len() ==> (#[trigger] self.agents@[i]).spec_wins() + games
                <= u32::MAX && self.agents@[i].spec_losses() + games <= u32::MAX
    }

    /// Plays every match of the schedule, one after the other, and records
    /// every game: a win for its winner and a loss for the other.
    pub fn run_batch(self) -> (batch: Batch)
        requires
            self.scheduled(),
            self.has_room(2 * self.match_schedule@.len() as int),
        ensures
            batch.agents@.len() == self.agents@.len(),
            batch.num_agents_per_batch == self.num_agents_per_batch,
            batch.num_agents_retained == self.num_agents_retained,
            batch.num_children_per_retained_agent == self.num_children_per_retained_agent,
            batch.match_schedule@ == self.match_schedule@,
            forall|i: int|
                0 <= i < batch.agents@.len() ==> (#[trigger] batch.agents@[i]).spec_weights()
                    == self.agents@[i].spec_weights(),
            exists|winners: Seq<(Option<u8>, Option<u8>)>|
                {
                    &&& are_batch_winners(
                        self.agents@,
                        self.match_schedule@,
                        winners,
                        self.match_schedule@.len() as int,
                    )
                    &&& batch.agents@ == #[trigger] matches_recorded(
                        self.agents@,
                        self.match_schedule@,
                        winners,
                        self.match_schedule@.len() as int,
                    )
                },
    {
        let mut batch = self;
        let ghost mut winners: Seq<(Option<u8>, Option<u8>)> = Seq::empty();
        let mut k: usize = 0;
        while k < batch.match_schedule.len()
            invariant
                k <= batch.match_schedule@.len(),
                batch.scheduled(),
                batch.match_schedule@ == self.match_schedule@,
                batch.agents@.len() == self.agents@.len(),
                batch.num_agents_per_batch == self.num_agents_per_batch,
                batch.num_agents_retained == self.num_agents_retained,
                batch.num_children_per_retained_agent == self.num_children_per_retained_agent,
                batch.has_room(2 * (batch.match_schedule@.len() - k)),
                forall|i: int|
                    0 <= i < batch.agents@.len() ==> (#[trigger] batch.agents@[i]).spec_weights()
                        == self.agents@[i].spec_weights(),
                are_batch_winners(self.agents@, self.match_schedule@, winners, k as int),
                batch.agents@ == matches_recorded(
                    self.agents@,
                    self.match_schedule@,
                    winners,
                    k as int,
                ),
            decreases batch.match_schedule.len() - k,
        {
            let (agent0_index, agent1_index) = batch.match_schedule[k];
            let ghost before = batch.agents@;
            batch.run_match(agent0_index, agent1_index);
            proof {
                let pair = choose|pair: (Option<u8>, Option<u8>)|
                    are_match_winners(before, agent0_index as int, agent1_index as int, pair)
                        && batch.agents@ == #[trigger] match_recorded(
                        before,
                        agent0_index as int,
                        agent1_index as int,
                        pair,
                    );
                let longer = winners.push(pair);
                lemma_matches_recorded_prefix(
                    self.agents@,
                    self.match_schedule@,
                    winners,
                    longer,
                    k as int,
                );
                assert forall|j: int| 0 <= j < k + 1 implies are_match_winners(
                    self.agents@,
                    self.match_schedule@[j].0 as int,
                    self.match_schedule@[j].1 as int,
                    #[trigger] longer[j],
                ) by {
                    if j < k {
                        assert(longer[j] == winners[j]);
                    }
                }
                winners = longer;
            }
            k += 1;
        }
        batch
    }

    /// Plays a match: two games, the colours swapped, each recorded.
    pub fn run_match(&mut self, agent0_index: usize, agent1_index: usize)
        requires
            agent0_index < old(self).agents@.len(),
            agent1_index < old(self).agents@.len(),
            old(self).has_room(2),
        ensures
            final(self).rerecorded(*old(self), 2),
            exists|winners: (Option<u8>, Option<u8>)|
                are_match_winners(
                    old(self).agents@,
                    agent0_index as int,
                    agent1_index as int,
                    winners,
                ) && final(self).agents@ == #[trigger] match_recorded(
                    old(self).agents@,
                    agent0_index as int,
                    agent1_index as int,
                    winners,
                ),
    {
        self.run_game(agent0_index, agent1_index);
        let ghost between = self.agents@;
        let ghost first = choose|winner: Option<u8>|
            is_genetic_game(
                old(self).agents@[agent0_index as int].spec_weights(),
                old(self).agents@[agent1_index as int].spec_weights(),
                winner,
            ) && between == #[trigger] winner_recorded(
                old(self).agents@,
                agent0_index as int,
                agent1_index as int,
                winner,
            );
        self.run_game(agent1_index, agent0_index);
        proof {
            let second = choose|winner: Option<u8>|
                is_genetic_game(
                    between[agent1_index as int].spec_weights(),
                    between[agent0_index as int].spec_weights(),
                    winner,
                ) && self.agents@ == #[trigger] winner_recorded(
                    between,
                    agent1_index as int,
                    agent0_index as int,
                    winner,
                );
            assert(self.agents@ == match_recorded(
                old(self).agents@,
                agent0_index as int,
                agent1_index as int,
                (first, second),
            ));
        }
    }

    /// What games leave of a batch: everything as it was but the records,
    /// which have grown by at most `games`.
    pub open spec fn rerecorded(&self, before: Batch, games: int) -> bool {
        &&& self.num_agents_per_batch == before.num_agents_per_batch
        &&& self.num_agents_retained == before.num_agents_retained
        &&& self.num_children_per_retained_agent == before.num_children_per_retained_agent
        &&& self.match_schedule@ == before.match_schedule@
        &&& self.agents@.len() == before.agents@.len()
        &&& forall|i: int|
            0 <= i < self.agents@.len() ==> {
                let now = #[trigger] self.agents@[i];
                let then = before.agents@[i];
                &&& now.spec_weights() == then.spec_weights()
                &&& then.spec_wins() <= now.spec_wins() <= then.spec_wins() + games
                &&& then.spec_losses() <= now.spec_losses() <= then.spec_losses() + games
            }
    }

    /// Plays one game between the two agents and records it.
    pub fn run_game(&mut self, black_index: usize, white_index: usize)
        requires
            black_index < old(self).agents@.len(),
            white_index < old(self).agents@.len(),
            old(self).has_room(1),
        ensures
            final(self).rerecorded(*old(self), 1),
            exists|winner: Option<u8>|
                is_genetic_game(
                    old(self).agents@[black_index as int].spec_weights(),
                    old(self).agents@[white_index as int].spec_weights(),
                    winner,
                ) && final(self).agents@ == #[trigger] winner_recorded(
                    old(self).agents@,
                    black_index as int,
                    white_index as int,
                    winner,
                ),
    {
        let winner = play_genetic_game(
            self.agents[black_index].weights,
            self.agents[white_index].weights,
        );
        self.record_game(black_index, white_index, winner);
    }

    /// Records a game between the two agents with the given winner: a win
    /// for the winner, a loss for the other. A game without a winner is
    /// not recorded.
    pub fn record_game(&mut self, black_index: usize, white_index: usize, winner: Option<u8>)
        requires
            black_index < old(self).agents@.len(),
            white_index < old(self).agents@.len(),
            old(self).has_room(1),
        ensures
            final(self).rerecorded(*old(self), 1),
            final(self).agents@ == winner_recorded(
                old(self).agents@,
                black_index as int,
                white_index as int,
                winner,
            ),
    {
        match winner {
            Some(w) => {
                let (won, lost) = if w == 0 {
                    (black_index, white_index)
                } else {
                    (white_index, black_index)
                };
                let mut winning = self.agents[won];
                winning.wins += 1;
                self.agents.set(won, winning);
                let mut losing = self.agents[lost];
                losing.losses += 1;
                self.agents.set(lost, losing);
            },
            None => {},
        }
    }

    /// The agents with the most wins, most first, as many as are retained,
    /// their records cleared.
    pub fn best_agents_from_batch(self) -> (best: Vec<Agent>)
        requires
            self.num_agents_retained <= self.agents@.len(),
        ensures
            best@.len() == self.num_agents_retained,
            forall|t: int| 0 <= t < best@.len() ==> clean(#[trigger] best@[t]),
            exists|chosen: Seq<usize>|
                #![trigger is_wins_ranking(win_counts(self.agents@), self.num_agents_retained as int, chosen)]
                {
                    &&& is_wins_ranking(
                        win_counts(self.agents@),
                        self.num_agents_retained as int,
                        chosen,
                    )
                    &&& forall|t: int|
                        0 <= t < best@.len() ==> (#[trigger] best@[t]).spec_weights()
                            == self.agents@[chosen[t] as int].spec_weights()
                },
    {
        let mut wins: Vec<u32> = Vec::new();
        let mut i: usize = 0;
        while i < self.agents.len()
            invariant
                i <= self.agents@.len(),
                wins@.len() == i,
                forall|j: int| 0 <= j < i ==> #[trigger] wins@[j] == self.agents@[j].spec_wins(),
            decreases self.agents.len() - i,
        {
            wins.push(self.agents[i].wins);
            i += 1;
        }
        proof {
            assert(wins@ =~= win_counts(self.agents@));
        }
        let chosen = top_winners(&wins, self.num_agents_retained as usize);
        let mut best: Vec<Agent> = Vec::new();
        let mut t: usize = 0;
        while t < chosen.len()
            invariant
                t <= chosen@.len(),
                is_wins_ranking(wins@, self.num_agents_retained as int, chosen@),
                wins@.len() == self.agents@.len(),
                best@.len() == t,
                forall|s: int|
                    0 <= s < t ==> (#[trigger] best@[s]).spec_wins() == 0 && best@[s].spec_losses() == 0
                        && best@[s].spec_weights() == self.agents@[chosen@[s] as int].spec_weights(),
            decreases chosen.len() - t,
        {
            let ghost before = best@;
            best.push(self.agents[chosen[t]].clear_record());
            proof {
                assert forall|s: int| 0 <= s < t + 1 implies (#[trigger] best@[s]).spec_wins() == 0
                    && best@[s].spec_losses() == 0 && best@[s].spec_weights()
                    == self.agents@[chosen@[s] as int].spec_weights() by {
                    if s < t {
                        assert(best@[s] == before[s]);
                    }
                }
            }
            t += 1;
        }
        best
    }
}

} // verus!
