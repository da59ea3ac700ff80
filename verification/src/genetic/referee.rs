//! The referee of a generation: it schedules the matches, has them
//! played, and keeps the tallies and the ratings.

use super::elo::{
    elo_adjustment, lemma_adjustment_range, lemma_draw_closes_gap, lemma_even_match,
    ratings_after, update_elo, ELO_ADJUSTMENT, ELO_START,
};
use super::schedule::{pairs_among, schedule, valid_pair, well_scheduled, ScheduleError};
use crate::ai::tree::{deepening_outcome, search_outcome, SearchLimit};
use crate::game::gamestate::{moves_left, Position, State};
use crate::game::player::{AiModel, AI};
use vstd::prelude::*;

verus! {

/// The games won and the games played.
pub type Score = (u32, u32);

/// The result of a match: the first slot and the games it won, the second
/// slot and the games it won.
pub type MatchResult = (usize, u8, usize, u8);

/// A game as it was played: the states in which a step was due, the state
/// it ended in, and the winner.
#[derive(Debug)]
pub struct GameRecord {
    pub winner: Option<u8>,
    pub state_history: Vec<State>,
    pub end: State,
}

/// Whether `after` is the position that the player's search leads to from
/// `before`: the position after the first step of the line that the
/// search expects, for the depth of the player's limit, or for some number
/// of rounds where the limit is a time.
pub open spec fn may_follow(agent: AiModel, before: Position, after: Position) -> bool {
    match agent.limit {
        SearchLimit::Depth(max_depth) => search_outcome(agent.weights, before, max_depth as nat)
            matches Ok(found) && after == before.play(
            found.1[0].origin(),
            found.1[0].dest(),
        ),
        SearchLimit::Time(_) => exists|rounds: nat|
            #[trigger] deepening_outcome(agent.weights, before, rounds) matches Ok(found) && after
                == before.play(found.1[0].origin(), found.1[0].dest()),
    }
}

/// The player whose turn it is.
pub open spec fn to_move(black: AiModel, white: AiModel, pos: Position) -> AiModel {
    if pos.current_turn == 0 {
        black
    } else {
        white
    }
}

/// Whether a record is that of a game between `black` and `white` from
/// `start`: the recorded states are those in which a step was due, each
/// follows from the one before by the search of the player to move, and
/// the game ended where the record says.
pub open spec fn is_game(record: GameRecord, start: State, black: AiModel, white: AiModel) -> bool {
    let history = record.state_history@;
    &&& record.end.wf()
    &&& record.winner == record.end.winner
    &&& forall|i: int| 0 <= i < history.len() ==> (#[trigger] history[i]).active && history[i].wf()
    &&& history.len() == 0 ==> record.end == start
    &&& history.len() > 0 ==> history[0] == start
    &&& forall|i: int|
        0 <= i < history.len() - 1 ==> may_follow(
            to_move(black, white, history[i]@),
            history[i]@,
            #[trigger] history[i + 1]@,
        )
    &&& history.len() > 0 ==> record.end == history.last() || may_follow(
        to_move(black, white, history.last()@),
        history.last()@,
        record.end@,
    )
    &&& record.end.active ==> history.len() > 0 && record.end == history.last() && (to_move(
        black,
        white,
        record.end@,
    ).limit matches SearchLimit::Depth(max_depth) ==> search_outcome(
        to_move(black, white, record.end@).weights,
        record.end@,
        max_depth as nat,
    ) is Err)
}

/// The games that the two players of a match won, from the winners of
/// its two games. The first player has black in the first game and white
/// in the second; a game without a winner counts for neither.
pub open spec fn match_wins(first: Option<u8>, second: Option<u8>) -> (u8, u8) {
    (
        (if first == Some(0u8) {
            1u8
        } else {
            0u8
        } + if second == Some(1u8) {
            1u8
        } else {
            0u8
        }) as u8,
        (if first == Some(1u8) {
            1u8
        } else {
            0u8
        } + if second == Some(0u8) {
            1u8
        } else {
            0u8
        }) as u8,
    )
}

/// Plays a game from `game` to its end: the player to move searches and
/// makes the first step of the line it expects, until the game is over.
/// Should a search come back without a step, the game stops there, without
/// a winner.
pub fn play_one_game(game: State, black: &AI, white: &AI) -> (record: GameRecord)
    requires
        game.wf(),
    ensures
        is_game(record, game, black@, white@),
{
    let mut game = game;
    let ghost start = game;
    let mut state_history: Vec<State> = Vec::new();
    let mut stuck = false;
    while game.active && !stuck
        invariant
            game.wf(),
            start.wf(),
            forall|i: int|
                0 <= i < state_history@.len() ==> (#[trigger] state_history@[i]).active
                    && state_history@[i].wf(),
            state_history@.len() == 0 ==> game == start && !stuck,
            state_history@.len() > 0 ==> state_history@[0] == start,
            forall|i: int|
                0 <= i < state_history@.len() - 1 ==> may_follow(
                    to_move(black@, white@, state_history@[i]@),
                    state_history@[i]@,
                    #[trigger] state_history@[i + 1]@,
                ),
            state_history@.len() > 0 && !stuck ==> may_follow(
                to_move(black@, white@, state_history@.last()@),
                state_history@.last()@,
                game@,
            ),
            stuck ==> game.active && state_history@.len() > 0 && game == state_history@.last() && (
            to_move(black@, white@, game@).limit matches SearchLimit::Depth(max_depth)
                ==> search_outcome(
                to_move(black@, white@, game@).weights,
                game@,
                max_depth as nat,
            ) is Err),
        decreases
                moves_left(game@),
                if stuck {
                    0int
                } else {
                    1int
                },
    {
        let ghost before = game;
        let ghost earlier = state_history@;
        state_history.push(game);
        let mover = if game.current_turn == 0 {
            black
        } else {
            white
        };
        let found = mover.one_turn(&mut game);
        proof {
            assert forall|i: int| 0 <= i < state_history@.len() - 1 implies may_follow(
                to_move(black@, white@, state_history@[i]@),
                state_history@[i]@,
                #[trigger] state_history@[i + 1]@,
            ) by {
                if i < earlier.len() - 1 {
                    assert(state_history@[i] == earlier[i]);
                    assert(state_history@[i + 1] == earlier[i + 1]);
                } else {
                    assert(state_history@[i] == earlier.last());
                    assert(state_history@[i + 1] == before);
                }
            }
        }
        if found.is_err() {
            stuck = true;
        }
    }
    GameRecord { winner: game.winner, state_history, end: game }
}

/// The games that the two players of a match won.
pub fn tally_match(first: &GameRecord, second: &GameRecord) -> (wins: (u8, u8))
    requires
        first.end.wf(),
        second.end.wf(),
        first.winner == first.end.winner,
        second.winner == second.end.winner,
    ensures
        wins == match_wins(first.winner, second.winner),
        wins.0 + wins.1 <= 2,
{
    let mut agent_one_wins: u8 = 0;
    let mut agent_two_wins: u8 = 0;
    match first.winner {
        Some(w) => {
            if w == 0 {
                agent_one_wins += 1;
            } else {
                agent_two_wins += 1;
            }
        },
        None => {},
    }
    match second.winner {
        Some(w) => {
            if w == 0 {
                agent_two_wins += 1;
            } else {
                agent_one_wins += 1;
            }
        },
        None => {},
    }
    (agent_one_wins, agent_two_wins)
}

/// What a match between two players comes to: two games from the opening
/// position, the colours swapped, and the games each has won.
pub open spec fn is_match(one: AiModel, two: AiModel, wins: (u8, u8)) -> bool {
    exists|first: GameRecord, second: GameRecord, start: State|
        #![trigger is_game(first, start, one, two), is_game(second, start, two, one)]
        {
            &&& start.active
            &&& start.current_turn == 0
            &&& start.winner is None
            &&& start.board.is_opening()
            &&& is_game(first, start, one, two)
            &&& is_game(second, start, two, one)
            &&& wins == match_wins(first.winner, second.winner)
        }
}

/// Keeps the tallies and the ratings of the slots of a generation.
pub struct Referee {
    pub agents: Vec<AI>,
    results: Vec<Score>,
    pub elos: Vec<i16>,
    pub batch_num: u32,
}

/// The mathematical content of a [`Referee`], the players left out.
pub struct Standings {
    pub results: Seq<Score>,
    pub elos: Seq<i16>,
}

/// The tallies after a match: each slot has its wins added and two games
/// more played.
pub open spec fn tallies_after(results: Seq<Score>, outcome: MatchResult) -> Seq<Score> {
    let first = results.update(
        outcome.0 as int,
        ((results[outcome.0 as int].0 + outcome.1) as u32, (results[outcome.0 as int].1 + 2) as u32),
    );
    first.update(
        outcome.2 as int,
        ((first[outcome.2 as int].0 + outcome.3) as u32, (first[outcome.2 as int].1 + 2) as u32),
    )
}

/// The standings after a match: the tallies take the games, and the
/// ratings are updated for the wins of the first slot.
pub open spec fn recorded(standings: Standings, outcome: MatchResult) -> Standings {
    Standings {
        results: tallies_after(standings.results, outcome),
        elos: ratings_after(
            standings.elos,
            outcome.0 as int,
            outcome.2 as int,
            outcome.1 as int,
            ELO_ADJUSTMENT as int,
        ),
    }
}

/// The standings after the first `n` of `outcomes`, taken one after the
/// other.
pub open spec fn recorded_all(standings: Standings, outcomes: Seq<MatchResult>, n: int) -> Standings
    decreases n,
{
    if n <= 0 {
        standings
    } else {
        recorded(recorded_all(standings, outcomes, n - 1), outcomes[n - 1])
    }
}

/// Whether every tally can take `matches` more matches of two games.
pub open spec fn has_room(results: Seq<Score>, matches: int) -> bool {
    forall|i: int|
        0 <= i < results.len() ==> (#[trigger] results[i]).0 + 2 * matches <= u32::MAX
            && results[i].1 + 2 * matches <= u32::MAX
}

/// Whether the tallies of the two slots can take the match.
pub open spec fn takes(results: Seq<Score>, outcome: MatchResult) -> bool {
    &&& results[outcome.0 as int].0 + outcome.1 <= u32::MAX
    &&& results[outcome.0 as int].1 + 2 <= u32::MAX
    &&& results[outcome.2 as int].0 + outcome.3 <= u32::MAX
    &&& results[outcome.2 as int].1 + 2 <= u32::MAX
}

/// Whether the tallies, after the matches before it, can take match `k`.
pub open spec fn takes_at(standings: Standings, outcomes: Seq<MatchResult>, k: int) -> bool {
    takes(recorded_all(standings, outcomes, k).results, outcomes[k])
}

/// Whether the tallies can take the matches one after the other.
pub open spec fn takes_all(standings: Standings, outcomes: Seq<MatchResult>) -> bool {
    forall|k: int| 0 <= k < outcomes.len() ==> #[trigger] takes_at(standings, outcomes, k)
}

/// Whether no side of a match is said to have won more than its two
/// games.
pub open spec fn of_two_games(outcomes: Seq<MatchResult>) -> bool {
    forall|k: int| 0 <= k < outcomes.len() ==> (#[trigger] outcomes[k]).1 <= 2 && outcomes[k].3 <= 2
}

/// The first `n` matches of two games add at most `2 * n` to a tally.
pub proof fn lemma_tallies_grow(standings: Standings, outcomes: Seq<MatchResult>, n: int)
    requires
        0 <= n <= outcomes.len(),
        in_population(outcomes, standings.results.len() as int),
        of_two_games(outcomes),
        has_room(standings.results, outcomes.len() as int),
    ensures
        recorded_all(standings, outcomes, n).results.len() == standings.results.len(),
        forall|j: int|
            0 <= j < standings.results.len() ==> (#[trigger] recorded_all(
                standings,
                outcomes,
                n,
            ).results[j]).0 <= standings.results[j].0 + 2 * n && recorded_all(
                standings,
                outcomes,
                n,
            ).results[j].1 <= standings.results[j].1 + 2 * n,
    decreases n,
{
    if n > 0 {
        lemma_tallies_grow(standings, outcomes, n - 1);
        let before = recorded_all(standings, outcomes, n - 1).results;
        let outcome = outcomes[n - 1];
        assert(outcome.0 < standings.results.len() && outcome.2 < standings.results.len());
        assert forall|j: int| 0 <= j < standings.results.len() implies (#[trigger] recorded_all(
            standings,
            outcomes,
            n,
        ).results[j]).0 <= standings.results[j].0 + 2 * n && recorded_all(
            standings,
            outcomes,
            n,
        ).results[j].1 <= standings.results[j].1 + 2 * n by {
            assert(before[j].0 <= standings.results[j].0 + 2 * (n - 1));
            assert(before[j].1 <= standings.results[j].1 + 2 * (n - 1));
            assert(standings.results[j].0 + 2 * outcomes.len() <= u32::MAX);
            assert(standings.results[j].1 + 2 * outcomes.len() <= u32::MAX);
        }
    }
}

/// Tallies with room for as many matches of two games take them all.
pub proof fn lemma_room_takes_all(standings: Standings, outcomes: Seq<MatchResult>)
    requires
        in_population(outcomes, standings.results.len() as int),
        of_two_games(outcomes),
        has_room(standings.results, outcomes.len() as int),
    ensures
        takes_all(standings, outcomes),
{
    assert forall|k: int| 0 <= k < outcomes.len() implies #[trigger] takes_at(
        standings,
        outcomes,
        k,
    ) by {
        lemma_tallies_grow(standings, outcomes, k);
        let results = recorded_all(standings, outcomes, k).results;
        let a = outcomes[k].0 as int;
        let b = outcomes[k].2 as int;
        assert(results[a].0 <= standings.results[a].0 + 2 * k);
        assert(results[b].0 <= standings.results[b].0 + 2 * k);
        assert(standings.results[a].0 + 2 * outcomes.len() <= u32::MAX);
        assert(standings.results[b].0 + 2 * outcomes.len() <= u32::MAX);
    }
}

/// Whether slot `s` wins both games of each of its matches, and every
/// other match ends with a game each.
pub open spec fn sweeps(outcomes: Seq<MatchResult>, s: int) -> bool {
    forall|k: int|
        0 <= k < outcomes.len() ==> {
            let o = #[trigger] outcomes[k];
            if o.0 == s {
                o.1 == 2 && o.3 == 0
            } else if o.2 == s {
                o.1 == 0 && o.3 == 2
            } else {
                o.1 == 1 && o.3 == 1
            }
        }
}

/// Whether slot `s` plays in one of the first `n` matches.
pub open spec fn plays(outcomes: Seq<MatchResult>, s: int, n: int) -> bool {
    exists|k: int|
        0 <= k < n && k < outcomes.len() && ((#[trigger] outcomes[k]).0 == s || outcomes[k].2 == s)
}

/// The slot that wins all its matches is rated highest. Where every
/// rating begins at the start, one slot wins both games of each of its
/// matches and every other match ends with a game each, then after any
/// number of the matches, in any order, that slot is rated at the start or
/// above and every other slot at the start or below; and once the slot
/// has played, it is rated above the start, and so above every other.
pub proof fn lemma_sweep_is_rated_highest(
    standings: Standings,
    outcomes: Seq<MatchResult>,
    s: int,
    n: int,
)
    requires
        0 <= s < standings.elos.len(),
        forall|i: int| 0 <= i < standings.elos.len() ==> standings.elos[i] == ELO_START,
        in_population(outcomes, standings.elos.len() as int),
        sweeps(outcomes, s),
        0 <= n <= outcomes.len(),
    ensures
        recorded_all(standings, outcomes, n).elos.len() == standings.elos.len(),
        forall|i: int|
            0 <= i < standings.elos.len() && i != s ==> (#[trigger] recorded_all(
                standings,
                outcomes,
                n,
            ).elos[i]) <= ELO_START,
        recorded_all(standings, outcomes, n).elos[s] >= ELO_START,
        plays(outcomes, s, n) ==> recorded_all(standings, outcomes, n).elos[s] > ELO_START,
        !plays(outcomes, s, n) ==> forall|i: int|
            0 <= i < standings.elos.len() ==> (#[trigger] recorded_all(standings, outcomes, n).elos[i])
                == ELO_START,
    decreases n,
{
    if n > 0 {
        lemma_sweep_is_rated_highest(standings, outcomes, s, n - 1);
        let before = recorded_all(standings, outcomes, n - 1).elos;
        let after = recorded_all(standings, outcomes, n).elos;
        let o = outcomes[n - 1];
        let a = o.0 as int;
        let b = o.2 as int;
        assert(a < before.len() && b < before.len() && a != b);
        assert(after == ratings_after(before, a, b, o.1 as int, ELO_ADJUSTMENT as int));
        let delta = elo_adjustment(before[a] as int, before[b] as int, o.1 as int, 30);
        lemma_adjustment_range(before[a] as int, before[b] as int, o.1 as int, 30);
        lemma_draw_closes_gap(before[a] as int, before[b] as int);
        if before[a] == before[b] {
            lemma_even_match(before[a] as int, o.1 as int, 30);
        }
        let involved = a == s || b == s;
        if plays(outcomes, s, n - 1) {
            let k = choose|k: int|
                0 <= k < n - 1 && k < outcomes.len() && ((#[trigger] outcomes[k]).0 == s
                    || outcomes[k].2 == s);
            assert(0 <= k < n && (outcomes[k].0 == s || outcomes[k].2 == s));
        }
        if involved {
            assert(0 <= n - 1 < n && (outcomes[n - 1].0 == s || outcomes[n - 1].2 == s));
        }
        if plays(outcomes, s, n) {
            let k = choose|k: int|
                0 <= k < n && k < outcomes.len() && ((#[trigger] outcomes[k]).0 == s
                    || outcomes[k].2 == s);
            if k < n - 1 {
                assert(plays(outcomes, s, n - 1));
            } else {
                assert(involved);
            }
        }
        assert(before[s] >= ELO_START);
        if b != s {
            assert(before[b] <= ELO_START);
        }
        if a != s {
            assert(before[a] <= ELO_START);
        }
        if !plays(outcomes, s, n - 1) {
            assert(before[a] == ELO_START && before[b] == ELO_START);
        }
        assert forall|i: int| 0 <= i < standings.elos.len() && i != s implies (#[trigger] after[i])
            <= ELO_START by {
            if i != a && i != b {
                assert(after[i] == before[i]);
            }
            assert(before[i] <= ELO_START);
        }
        if !plays(outcomes, s, n) {
            assert forall|i: int| 0 <= i < standings.elos.len() implies (#[trigger] after[i])
                == ELO_START by {
                assert(before[i] == ELO_START);
            }
        }
    }
}

/// The outcomes are of matches between two different slots of a
/// population of `n`.
pub open spec fn in_population(outcomes: Seq<MatchResult>, n: int) -> bool {
    forall|k: int|
        0 <= k < outcomes.len() ==> (#[trigger] outcomes[k]).0 < n && outcomes[k].2 < n
            && outcomes[k].0 != outcomes[k].2
}

/// The pairs of slots that the outcomes are of.
pub open spec fn pairings(outcomes: Seq<MatchResult>) -> Seq<(usize, usize)> {
    outcomes.map_values(|o: MatchResult| (o.0, o.2))
}

impl View for Referee {
    type V = Standings;

    closed spec fn view(&self) -> Standings {
        Standings { results: self.results@, elos: self.elos@ }
    }
}

impl Referee {
    /// The players, by slot.
    pub closed spec fn players(&self) -> Seq<AI> {
        self.agents@
    }

    /// The number of the generation.
    pub closed spec fn generation(&self) -> u32 {
        self.batch_num
    }

    /// Every slot has a player, a tally and a rating.
    pub open spec fn wf(&self) -> bool {
        self.players().len() == self@.results.len() && self.players().len() == self@.elos.len()
    }

    /// A referee for the players of generation `batch_num`: no game
    /// played, every rating at the start.
    pub fn new(agents: Vec<AI>, batch_num: u32) -> (referee: Referee)
        ensures
            referee.wf(),
            referee.players() == agents@,
            referee.generation() == batch_num,
            referee@.results == Seq::new(agents@.len(), |i: int| (0u32, 0u32)),
            referee@.elos == Seq::new(agents@.len(), |i: int| ELO_START),
    {
        let n = agents.len();
        let mut results: Vec<Score> = Vec::new();
        let mut elos: Vec<i16> = Vec::new();
        let mut i: usize = 0;
        while i < n
            invariant
                i <= n,
                results@.len() == i,
                elos@.len() == i,
                forall|j: int| 0 <= j < i ==> #[trigger] results@[j] == (0u32, 0u32),
                forall|j: int| 0 <= j < i ==> #[trigger] elos@[j] == ELO_START,
            decreases n - i,
        {
            results.push((0, 0));
            elos.push(ELO_START);
            i += 1;
        }
        proof {
            assert(results@ =~= Seq::new(agents@.len(), |i: int| (0u32, 0u32)));
            assert(elos@ =~= Seq::new(agents@.len(), |i: int| ELO_START));
        }
        Referee { agents, results, elos, batch_num }
    }

    /// The players, by slot.
    pub fn agents(&self) -> (agents: &Vec<AI>)
        ensures
            agents@ == self.players(),
    {
        &self.agents
    }

    /// The ratings, by slot.
    pub fn elos(&self) -> (elos: &Vec<i16>)
        ensures
            elos@ == self@.elos,
    {
        &self.elos
    }

    /// The tallies, by slot.
    pub fn results(&self) -> (results: &Vec<Score>)
        ensures
            results@ == self@.results,
    {
        &self.results
    }

    /// The number of the generation.
    pub fn batch_num(&self) -> (batch_num: u32)
        ensures
            batch_num == self.generation(),
    {
        self.batch_num
    }

    /// A schedule of `num_matches` matches among the slots.
    pub fn generate_matches(&self, num_matches: usize) -> (res: Result<
        Vec<(usize, usize)>,
        ScheduleError,
    >)
        ensures
            num_matches > pairs_among(self.players().len()) <==> res is Err,
            res matches Ok(pairs) ==> pairs@.len() == num_matches && well_scheduled(
                pairs@,
                self.players().len() as usize,
            ),
    {
        schedule(self.agents.len(), num_matches)
    }

    /// Plays a match of two games, the colours swapped, and says how many
    /// games each player won.
    pub fn play_one_match(agent_one: &AI, agent_two: &AI) -> (wins: (u8, u8))
        ensures
            is_match(agent_one@, agent_two@, wins),
            wins.0 + wins.1 <= 2,
    {
        let game_one = State::new();
        let game_two = State::new();
        proof {
            assert(game_one.board.board =~= game_two.board.board);
        }
        let first = play_one_game(game_one, agent_one, agent_two);
        let second = play_one_game(game_two, agent_two, agent_one);
        let wins = tally_match(&first, &second);
        proof {
            assert(is_game(first, game_one, agent_one@, agent_two@));
            assert(is_game(second, game_one, agent_two@, agent_one@));
        }
        wins
    }

    /// Records a match: the tallies take the games, and the ratings are
    /// updated for the games that the first slot won.
    pub fn record_match(&mut self, outcome: MatchResult)
        requires
            old(self).wf(),
            outcome.0 < old(self).players().len(),
            outcome.2 < old(self).players().len(),
            outcome.0 != outcome.2,
            takes(old(self)@.results, outcome),
        ensures
            final(self).wf(),
            final(self).players() == old(self).players(),
            final(self).generation() == old(self).generation(),
            final(self)@ == recorded(old(self)@, outcome),
    {
        let (a1_idx, a1_w, a2_idx, a2_w) = outcome;
        let first = self.results[a1_idx];
        self.results.set(a1_idx, (first.0 + a1_w as u32, first.1 + 2));
        let second = self.results[a2_idx];
        self.results.set(a2_idx, (second.0 + a2_w as u32, second.1 + 2));
        update_elo(&mut self.elos, &a1_idx, &a2_idx, a1_w as i16, ELO_ADJUSTMENT);
    }

    /// Records the matches of a generation in their order. The ratings
    /// depend on that order: a later match is rated on what the earlier
    /// ones have left.
    pub fn apply_results(&mut self, outcomes: &Vec<MatchResult>)
        requires
            old(self).wf(),
            in_population(outcomes@, old(self).players().len() as int),
            takes_all(old(self)@, outcomes@),
        ensures
            final(self).wf(),
            final(self).players() == old(self).players(),
            final(self).generation() == old(self).generation(),
            final(self)@ == recorded_all(old(self)@, outcomes@, outcomes@.len() as int),
    {
        let mut i: usize = 0;
        while i < outcomes.len()
            invariant
                i <= outcomes@.len(),
                self.wf(),
                self.players() == old(self).players(),
                self.generation() == old(self).generation(),
                in_population(outcomes@, self.players().len() as int),
                takes_all(old(self)@, outcomes@),
                self@ == recorded_all(old(self)@, outcomes@, i as int),
            decreases outcomes.len() - i,
        {
            let outcome = outcomes[i];
            assert(takes_at(old(self)@, outcomes@, i as int));
            self.record_match(outcome);
            i += 1;
        }
    }

    /// Plays a generation: schedules `num_matches` matches, has them
    /// played one after the other, and records them in that order. Where
    /// there are not that many pairs, nothing is played.
    pub fn play(&mut self, num_matches: usize) -> (res: Result<Vec<MatchResult>, ScheduleError>)
        requires
            old(self).wf(),
            has_room(old(self)@.results, num_matches as int),
        ensures
            final(self).wf(),
            final(self).players() == old(self).players(),
            final(self).generation() == old(self).generation(),
            num_matches > pairs_among(old(self).players().len()) <==> res is Err,
            res is Err ==> final(self)@ == old(self)@,
            res matches Ok(outcomes) ==> {
                &&& outcomes@.len() == num_matches
                &&& well_scheduled(pairings(outcomes@), old(self).players().len() as usize)
                &&& forall|k: int|
                    0 <= k < outcomes@.len() ==> is_match(
                        old(self).players()[(#[trigger] outcomes@[k]).0 as int]@,
                        old(self).players()[outcomes@[k].2 as int]@,
                        (outcomes@[k].1, outcomes@[k].3),
                    )
                &&& final(self)@ == recorded_all(old(self)@, outcomes@, outcomes@.len() as int)
            },
    {
        let matches = match self.generate_matches(num_matches) {
            Ok(matches) => matches,
            Err(e) => {
                return Err(e);
            },
        };
        let mut outcomes: Vec<MatchResult> = Vec::new();
        let mut i: usize = 0;
        while i < matches.len()
            invariant
                i <= matches@.len(),
                self.wf(),
                *self == *old(self),
                well_scheduled(matches@, self.players().len() as usize),
                outcomes@.len() == i,
                forall|k: int|
                    0 <= k < i ==> (#[trigger] outcomes@[k]).0 == matches@[k].0 && outcomes@[k].2
                        == matches@[k].1,
                forall|k: int|
                    0 <= k < i ==> is_match(
                        self.players()[(#[trigger] outcomes@[k]).0 as int]@,
                        self.players()[outcomes@[k].2 as int]@,
                        (outcomes@[k].1, outcomes@[k].3),
                    ),
                of_two_games(outcomes@),
            decreases matches.len() - i,
        {
            let (agent_one_idx, agent_two_idx) = matches[i];
            assert(valid_pair(matches@[i as int], self.players().len() as usize));
            let (agent_one_wins, agent_two_wins) = Referee::play_one_match(
                &self.agents[agent_one_idx],
                &self.agents[agent_two_idx],
            );
            outcomes.push((agent_one_idx, agent_one_wins, agent_two_idx, agent_two_wins));
            i += 1;
        }
        proof {
            assert(pairings(outcomes@) =~= matches@);
            assert forall|k: int| 0 <= k < outcomes@.len() implies (#[trigger] outcomes@[k]).0
                < self.players().len() && outcomes@[k].2 < self.players().len() && outcomes@[k].0
                != outcomes@[k].2 by {
                assert(valid_pair(matches@[k], self.players().len() as usize));
            }
            lemma_room_takes_all(self@, outcomes@);
        }
        self.apply_results(&outcomes);
        Ok(outcomes)
    }

    /// The players with their tallies, slot by slot.
    pub fn get_agents_with_results(self) -> (pairs: Vec<(Score, AI)>)
        requires
            self.wf(),
        ensures
            pairs@.len() == self.players().len(),
            forall|i: int|
                0 <= i < pairs@.len() ==> (#[trigger] pairs@[i]).0 == self@.results[i] && pairs@[i].1
                    == self.players()[i],
    {
        let Referee { agents, results, elos, batch_num } = self;
        let mut agents = agents;
        let ghost all = agents@;
        let mut pairs: Vec<(Score, AI)> = Vec::new();
        let mut rest: Vec<AI> = Vec::new();
        let n = agents.len();
        let mut i: usize = n;
        while i > 0
            invariant
                i <= n,
                n == all.len(),
                n == results@.len(),
                agents@ == all.subrange(0, i as int),
                rest@.len() == n - i,
                forall|j: int| 0 <= j < rest@.len() ==> #[trigger] rest@[j] == all[n - 1 - j],
            decreases i,
        {
            let agent = agents.pop().unwrap();
            rest.push(agent);
            i -= 1;
        }
        let mut k: usize = 0;
        while k < n
            invariant
                k <= n,
                n == all.len(),
                n == results@.len(),
                rest@.len() == n - k,
                forall|j: int| 0 <= j < rest@.len() ==> #[trigger] rest@[j] == all[n - 1 - j],
                pairs@.len() == k,
                forall|j: int|
                    0 <= j < k ==> (#[trigger] pairs@[j]).0 == results@[j] && pairs@[j].1 == all[j],
            decreases n - k,
        {
            let agent = rest.pop().unwrap();
            pairs.push((results[k], agent));
            k += 1;
        }
        pairs
    }

    /// The players with their ratings, slot by slot.
    pub fn get_agents_with_elos(self) -> (pairs: Vec<(i16, AI)>)
        requires
            self.wf(),
        ensures
            pairs@.len() == self.players().len(),
            forall|i: int|
                0 <= i < pairs@.len() ==> (#[trigger] pairs@[i]).0 == self@.elos[i] && pairs@[i].1
                    == self.players()[i],
    {
        let Referee { agents, results, elos, batch_num } = self;
        let mut agents = agents;
        let ghost all = agents@;
        let mut pairs: Vec<(i16, AI)> = Vec::new();
        let mut rest: Vec<AI> = Vec::new();
        let n = agents.len();
        let mut i: usize = n;
        while i > 0
            invariant
                i <= n,
                n == all.len(),
                n == elos@.len(),
                agents@ == all.subrange(0, i as int),
                rest@.len() == n - i,
                forall|j: int| 0 <= j < rest@.len() ==> #[trigger] rest@[j] == all[n - 1 - j],
            decreases i,
        {
            let agent = agents.pop().unwrap();
            rest.push(agent);
            i -= 1;
        }
        let mut k: usize = 0;
        while k < n
            invariant
                k <= n,
                n == all.len(),
                n == elos@.len(),
                rest@.len() == n - k,
                forall|j: int| 0 <= j < rest@.len() ==> #[trigger] rest@[j] == all[n - 1 - j],
                pairs@.len() == k,
                forall|j: int|
                    0 <= j < k ==> (#[trigger] pairs@[j]).0 == elos@[j] && pairs@[j].1 == all[j],
            decreases n - k,
        {
            let agent = rest.pop().unwrap();
            pairs.push((elos[k], agent));
            k += 1;
        }
        pairs
    }
}

} // verus!
