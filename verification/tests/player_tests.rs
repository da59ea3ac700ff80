use milestone::ai::genetic::{shifted, Agent, Batch, GeneticAlgorithm};
use milestone::ai::heuristics::WEIGHT_ONE;
use milestone::ai::tree::{get_best_move, SearchError, SearchLimit};
use milestone::cli::{get_gametype_from_string, GameType};
use milestone::game::gamestate::State;
use milestone::game::player::AI;
use std::time::Duration;

#[test]
fn an_ai_from_a_name_has_unit_weights_and_the_default_limit() {
    let ai = AI::from_name("AI".to_string());
    assert_eq!(ai.name(), "AI");
    assert_eq!(ai.weights, [WEIGHT_ONE; 19]);
    assert_eq!(ai.weights(), [WEIGHT_ONE; 19]);
    assert_eq!(ai.limit(), SearchLimit::Time(Duration::from_millis(700)));
    let d = AI::default();
    assert_eq!(d.name(), "");
    assert_eq!(d.weights, [WEIGHT_ONE; 19]);
    assert_eq!(d.limit(), SearchLimit::default());
}

#[test]
fn an_ai_from_weights_takes_them_in_order() {
    let ai = AI::from_weights("w".to_string(), vec![5, 6, 7]);
    let mut expected = [0i64; 19];
    expected[0] = 5;
    expected[1] = 6;
    expected[2] = 7;
    assert_eq!(ai.weights, expected);
    let full = AI::from_weights("w".to_string(), (1..=19).collect());
    assert_eq!(full.weights[18], 19);
    assert_eq!(AI::from_weights("w".to_string(), vec![]).weights, [0i64; 19]);
}

#[test]
fn a_new_ai_has_its_weights_normalized() {
    let ai = AI::new("AI 1".to_string(), [WEIGHT_ONE; 19], SearchLimit::Depth(3));
    assert_eq!(ai.weights, [52_631i64; 19]);
    assert_eq!(ai.limit(), SearchLimit::Depth(3));
    assert_eq!(ai.name(), "AI 1");
    let zero = AI::new(String::new(), [0i64; 19], SearchLimit::Depth(3));
    assert_eq!(zero.weights, [0i64; 19]);
}

#[test]
fn an_ai_with_raw_weights_keeps_them() {
    let ai = AI::with_raw_weights(String::new(), [3 * WEIGHT_ONE; 19], SearchLimit::Depth(1));
    assert_eq!(ai.weights, [3 * WEIGHT_ONE; 19]);
    let copy = ai.duplicate();
    assert_eq!(copy.weights, ai.weights);
    assert_eq!(copy.limit(), ai.limit());
    assert_eq!(copy.name(), ai.name());
}

#[test]
fn one_turn_plays_the_step_that_the_search_suggests() {
    let ai = AI::with_raw_weights(String::new(), [WEIGHT_ONE; 19], SearchLimit::Depth(2));
    let mut state = State::new();
    let expected = get_best_move(&state, &SearchLimit::Depth(2), &[WEIGHT_ONE; 19]).unwrap();
    let played = ai.one_turn(&mut state).unwrap();
    assert_eq!(played.suggestion, expected.suggestion);
    assert_eq!(state.current_turn, 1);
    let mut replayed = State::new();
    let (o, d) = match expected.suggestion {
        milestone::game::board::Move::Straight(o, d) => (o, d),
        milestone::game::board::Move::Diagonal(o, d) => (o, d),
    };
    replayed.move_piece(o, d, true).unwrap();
    assert_eq!(
        state.board.current_players_pieces(0),
        replayed.board.current_players_pieces(0)
    );
}

#[test]
fn one_turn_without_a_suggestion_leaves_the_state() {
    let ai = AI::with_raw_weights(String::new(), [WEIGHT_ONE; 19], SearchLimit::Depth(0));
    let mut state = State::new();
    assert_eq!(ai.one_turn(&mut state).err(), Some(SearchError::NoLegalMove));
    assert_eq!(state.current_turn, 0);
    assert_eq!(state.board.current_players_pieces(0).len(), 10);
}

#[test]
fn the_menu_answers() {
    assert_eq!(get_gametype_from_string("1"), Some(GameType::Black));
    assert_eq!(get_gametype_from_string("2"), Some(GameType::White));
    assert_eq!(get_gametype_from_string("3"), Some(GameType::Humans));
    assert_eq!(get_gametype_from_string("4"), Some(GameType::AIs));
    assert_eq!(get_gametype_from_string("5"), Some(GameType::String));
    assert_eq!(get_gametype_from_string("6"), Some(GameType::BlackWeights));
    assert_eq!(get_gametype_from_string("7"), Some(GameType::WhiteWeights));
    assert_eq!(get_gametype_from_string("0"), Some(GameType::Genetic));
}

#[test]
fn other_answers_are_not_on_the_menu() {
    assert_eq!(get_gametype_from_string(""), None);
    assert_eq!(get_gametype_from_string("8"), None);
    assert_eq!(get_gametype_from_string("11"), None);
    assert_eq!(get_gametype_from_string(" 1"), None);
    assert_eq!(get_gametype_from_string("one"), None);
    assert_eq!(get_gametype_from_string("é"), None);
}

#[test]
fn the_genetic_algorithm_starts_small() {
    let ga = GeneticAlgorithm::new();
    assert_eq!(ga.num_batches, 2);
    assert_eq!(ga.num_agents_per_batch, 2);
    assert_eq!(ga.num_agents_retained, 1);
    assert_eq!(ga.num_children_per_retained_agent, 1);
}

#[test]
fn running_no_batches_returns_the_settings() {
    let ga = GeneticAlgorithm {
        num_batches: 0,
        num_agents_per_batch: 4,
        num_agents_retained: 2,
        num_children_per_retained_agent: 1,
    };
    assert_eq!(ga.run(), ga);
}

#[test]
fn shifted_keeps_a_weight_between_zero_and_one() {
    assert_eq!(shifted(500_000, 200_000), 700_000);
    assert_eq!(shifted(500_000, -200_000), 300_000);
    assert_eq!(shifted(500_000, 600_000), WEIGHT_ONE);
    assert_eq!(shifted(500_000, -600_000), 0);
    assert_eq!(shifted(500_000, -500_000), 0);
    assert_eq!(shifted(0, 0), 0);
    assert_eq!(shifted(WEIGHT_ONE, 0), WEIGHT_ONE);
}

#[test]
fn agents_of_a_batch() {
    let fresh = Agent::new();
    assert_eq!(fresh.weights(), [0i64; 19]);
    assert_eq!(fresh.wins(), 0);
    assert_eq!(fresh.losses(), 0);
    let random = fresh.randomize_weights();
    for w in random.weights().iter() {
        assert!(0 <= *w && *w < WEIGHT_ONE);
    }
    let moved = random.perturb_weights();
    for w in moved.weights().iter() {
        assert!(0 <= *w && *w <= WEIGHT_ONE);
    }
    let normal = random.normalize_weights();
    let sum: i64 = normal.weights().iter().sum();
    assert!(sum <= WEIGHT_ONE && sum > WEIGHT_ONE - 19);
    assert_eq!(normal.clear_record().wins(), 0);
    assert_eq!(Agent::new().normalize_weights().weights(), [0i64; 19]);
}

#[test]
fn a_batch_is_filled_and_scheduled() {
    let batch = Batch::new(4, 2, 1);
    assert_eq!(batch.agents.len(), 0);
    let parents = vec![
        Agent::new().randomize_weights(),
        Agent::new().randomize_weights(),
    ];
    let filled = batch.initialize_agents(Some(parents.clone()));
    assert_eq!(filled.agents.len(), 4);
    assert_eq!(filled.agents[0].weights(), parents[0].weights());
    assert_eq!(filled.agents[1].weights(), parents[1].weights());
    let scheduled = filled.schedule_agent_matches();
    assert_eq!(scheduled.match_schedule.len(), 4);
    for (k, m) in scheduled.match_schedule.iter().enumerate() {
        assert_eq!(m.0, k);
        assert!(m.1 < 4);
        assert_ne!(m.0, m.1);
    }
    let best = scheduled.best_agents_from_batch();
    assert_eq!(best.len(), 2);
    assert_eq!(best[0].weights(), parents[0].weights());
    assert_eq!(best[1].weights(), parents[1].weights());

    let mut more = Batch::new(3, 1, 2);
    more.include_best_agents(&Some(parents.clone()));
    assert_eq!(more.agents.len(), 2);
    more.add_children_from_best_agents(&Some(parents));
    assert_eq!(more.agents.len(), 6);
    more.generate_and_add_new_agents();
    assert_eq!(more.agents.len(), 6);
    let mut fresh = Batch::new(3, 1, 2);
    fresh.include_best_agents(&None);
    fresh.add_children_from_best_agents(&None);
    fresh.generate_and_add_new_agents();
    assert_eq!(fresh.agents.len(), 3);
}

#[test]
fn a_game_is_recorded_for_its_winner_and_its_loser() {
    let mut batch = Batch::new(3, 1, 1).initialize_agents(None);
    assert_eq!(batch.agents.len(), 3);
    let weights: Vec<_> = batch.agents.iter().map(|a| a.weights()).collect();
    batch.record_game(0, 2, Some(0));
    assert_eq!((batch.agents[0].wins(), batch.agents[0].losses()), (1, 0));
    assert_eq!((batch.agents[1].wins(), batch.agents[1].losses()), (0, 0));
    assert_eq!((batch.agents[2].wins(), batch.agents[2].losses()), (0, 1));
    batch.record_game(0, 2, Some(1));
    assert_eq!((batch.agents[0].wins(), batch.agents[0].losses()), (1, 1));
    assert_eq!((batch.agents[2].wins(), batch.agents[2].losses()), (1, 1));
    batch.record_game(1, 0, None);
    assert_eq!((batch.agents[0].wins(), batch.agents[0].losses()), (1, 1));
    assert_eq!((batch.agents[1].wins(), batch.agents[1].losses()), (0, 0));
    batch.record_game(1, 0, Some(1));
    assert_eq!((batch.agents[0].wins(), batch.agents[0].losses()), (2, 1));
    assert_eq!((batch.agents[1].wins(), batch.agents[1].losses()), (0, 1));
    let after: Vec<_> = batch.agents.iter().map(|a| a.weights()).collect();
    assert_eq!(weights, after);
}

#[test]
fn a_batch_is_filled_whatever_it_holds() {
    let parents = vec![Agent::new().randomize_weights(), Agent::new().randomize_weights()];
    // One agent a batch, three children each: the best and their children stay.
    let crowded = Batch::new(1, 1, 3).initialize_agents(Some(parents.clone()));
    assert_eq!(crowded.agents.len(), 8);
    assert_eq!(crowded.agents[0].weights(), parents[0].weights());
    assert_eq!(crowded.agents[1].weights(), parents[1].weights());
    // A batch that holds agents already keeps them in front.
    let mut held = Batch::new(5, 1, 0);
    held.agents.push(parents[1]);
    let filled = held.initialize_agents(Some(vec![parents[0]]));
    assert_eq!(filled.agents.len(), 5);
    assert_eq!(filled.agents[0].weights(), parents[1].weights());
    assert_eq!(filled.agents[1].weights(), parents[0].weights());
    let empty = Batch::new(0, 0, 0).initialize_agents(None);
    assert_eq!(empty.agents.len(), 0);
}
