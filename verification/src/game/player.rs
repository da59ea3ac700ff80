//! The players that the library can move for.

use super::gamestate::State;
use crate::ai::clock::nanos_of;
use crate::ai::heuristics::{
    normalizable, normalize_weights, normalized_weight, Weights, WEIGHT_ONE,
};
use crate::ai::tree::{
    deepening_outcome, get_best_move, is_default_limit, reports, search_outcome, SearchError,
    SearchLimit, SuggestedMove,
};
use crate::game::board::Move;
use crate::game::gamestate::{lemma_line_playable_prefix, lemma_play_shortens, moves_left};
use vstd::prelude::*;

verus! {

/// A player that finds its steps by search: a name, the weights of its
/// evaluation, and the limit of its search.
#[derive(Clone, Debug)]
pub struct AI {
    name: String,
    pub weights: Weights,
    limit: SearchLimit,
}

/// The mathematical content of an [`AI`].
pub struct AiModel {
    pub name: Seq<char>,
    pub weights: Seq<i64>,
    pub limit: SearchLimit,
}

impl View for AI {
    type V = AiModel;

    closed spec fn view(&self) -> AiModel {
        AiModel { name: self.name@, weights: self.weights@, limit: self.limit }
    }
}

/// The weights after `AI::new` has normalized them, where that can be
/// done; else the weights as they are.
pub open spec fn normalized(weights: Seq<i64>) -> Seq<i64> {
    if normalizable(weights) {
        Seq::new(19, |i: int| normalized_weight(weights, i) as i64)
    } else {
        weights
    }
}

impl Default for AI {
    /// A nameless player with every weight at 1 and the default limit.
    fn default() -> (ai: AI)
        ensures
            ai@.name == Seq::<char>::empty(),
            ai@.weights == Seq::new(19, |i: int| WEIGHT_ONE),
            is_default_limit(ai@.limit),
    {
        AI::from_name(String::new())
    }
}

impl AI {
    /// A player with every weight at 1 and the default limit.
    pub fn from_name(name: String) -> (ai: AI)
        ensures
            ai@.name == name@,
            ai@.weights == Seq::new(19, |i: int| WEIGHT_ONE),
            is_default_limit(ai@.limit),
    {
        let ai = AI { name, weights: [WEIGHT_ONE;19], limit: SearchLimit::default() };
        assert(ai.weights@ =~= Seq::new(19, |i: int| WEIGHT_ONE));
        ai
    }

    /// A player with the first weights taken from `vec_weights`, the rest
    /// at 0, and the default limit.
    pub fn from_weights(name: String, vec_weights: Vec<i64>) -> (ai: AI)
        requires
            vec_weights@.len() <= 19,
        ensures
            ai@.name == name@,
            ai@.weights == Seq::new(
                19,
                |i: int|
                    if i < vec_weights@.len() {
                        vec_weights@[i]
                    } else {
                        0i64
                    },
            ),
            is_default_limit(ai@.limit),
    {
        let mut array_weights: [i64; 19] = [0;19];
        let mut i: usize = 0;
        while i < vec_weights.len()
            invariant
                i <= vec_weights@.len() <= 19,
                forall|j: int| 0 <= j < i ==> #[trigger] array_weights@[j] == vec_weights@[j],
                forall|j: int| i <= j < 19 ==> #[trigger] array_weights@[j] == 0,
            decreases vec_weights.len() - i,
        {
            array_weights[i] = vec_weights[i];
            i += 1;
        }
        let ai = AI { name, weights: array_weights, limit: SearchLimit::default() };
        assert(ai.weights@ =~= Seq::new(
            19,
            |i: int|
                if i < vec_weights@.len() {
                    vec_weights@[i]
                } else {
                    0i64
                },
        ));
        ai
    }

    /// A player with the given weights, normalized so that they sum to
    /// about 1, and the given limit. Weights that cannot be normalized
    /// stay as they are.
    pub fn new(name: String, weights: Weights, limit: SearchLimit) -> (ai: AI)
        ensures
            ai@.name == name@,
            ai@.weights == normalized(weights@),
            ai@.limit == limit,
    {
        let mut weights = weights;
        let ghost given = weights@;
        normalize_weights(&mut weights);
        assert(weights@ =~= normalized(given));
        AI { name, weights, limit }
    }

    /// A player with the given weights as they are: one of a population
    /// that evolves, whose weights keep their size.
    pub fn with_raw_weights(name: String, weights: Weights, limit: SearchLimit) -> (ai: AI)
        ensures
            ai@.name == name@,
            ai@.weights == weights@,
            ai@.limit == limit,
    {
        AI { name, weights, limit }
    }

    /// The player's name.
    pub fn name(&self) -> (name: String)
        ensures
            name@ == self@.name,
    {
        self.name.clone()
    }

    /// The weights of the player's evaluation.
    pub fn weights(&self) -> (weights: Weights)
        ensures
            weights@ == self@.weights,
    {
        self.weights
    }

    /// The limit of the player's search.
    pub fn limit(&self) -> (limit: SearchLimit)
        ensures
            limit == self@.limit,
    {
        self.limit
    }

    /// A copy of the player.
    pub fn duplicate(&self) -> (copy: AI)
        ensures
            copy@ == self@,
    {
        AI { name: self.name.clone(), weights: self.weights, limit: self.limit }
    }

    /// What the player's search makes of a position.
    pub open spec fn finds(agent: AiModel, state: State, res: Result<SuggestedMove, SearchError>) -> bool {
        match agent.limit {
            SearchLimit::Depth(max_depth) => reports(
                res,
                agent.weights,
                state,
                search_outcome(agent.weights, state@, max_depth as nat),
            ),
            SearchLimit::Time(time_limit) => {
                &&& exists|rounds: nat|
                    reports(
                        res,
                        agent.weights,
                        state,
                        #[trigger] deepening_outcome(agent.weights, state@, rounds),
                    )
                &&& nanos_of(time_limit) == 0 ==> res == Err::<SuggestedMove, SearchError>(
                    SearchError::BudgetExhausted,
                )
            },
        }
    }

    /// Makes the player's move: searches `state` and plays the first step
    /// of the line that the search expects. Where the search has no step
    /// to suggest, the state stays as it is.
    pub fn one_turn(&self, state: &mut State) -> (res: Result<SuggestedMove, SearchError>)
        requires
            old(state).wf(),
            old(state).active,
        ensures
            AI::finds(self@, *old(state), res),
            res matches Ok(sm) ==> final(state)@ == old(state)@.play(
                sm@.suggestion.origin(),
                sm@.suggestion.dest(),
            ),
            res matches Ok(sm) ==> 0 <= moves_left(final(state)@) < moves_left(old(state)@),
            res is Err ==> *final(state) == *old(state),
            final(state).wf(),
    {
        let found = get_best_move(state, &self.limit, &self.weights);
        match found {
            Ok(sugg_move) => {
                let (origin, dest) = match sugg_move.suggestion() {
                    Move::Diagonal(o, d) => (o, d),
                    Move::Straight(o, d) => (o, d),
                };
                proof {
                    let line = sugg_move@.line;
                    lemma_line_playable_prefix(state@, line, line.len() as int, 1);
                    assert(crate::game::gamestate::play_line(state@, line, 0) == state@);
                    lemma_play_shortens(state@, origin, dest);
                }
                state.move_piece(origin, dest, true).unwrap();
                Ok(sugg_move)
            },
            Err(e) => Err(e),
        }
    }
}

} // verus!
