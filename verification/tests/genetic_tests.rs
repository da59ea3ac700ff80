use milestone::ai::heuristics::WEIGHT_ONE;
use milestone::ai::tree::SearchLimit;
use milestone::game::board::{Board, Hole};
use milestone::game::gamestate::State;
use milestone::game::pieces::Piece;
use milestone::game::player::AI;
use milestone::genetic::elo::{adjustment, expected_share, update_elo, ELO_ADJUSTMENT, ELO_START};
use milestone::genetic::emperor::{
    children_from_agent, get_best_agents, mutate, mutate_from_recovery, perturbation, perturbed,
    random_agent, resume_from, snapshot, top_slots, top_winners, Checkpoint, Evolution,
    EvolutionConfig, Phase,
};
use milestone::genetic::limbs::{one, order, times, times_power};
use milestone::genetic::referee::{play_one_game, tally_match, GameRecord, Referee};
use milestone::genetic::schedule::{
    factorial, n_choose_r, schedule, Schedule, ScheduleError,
};
use std::time::Duration;

fn state_with(black: &[usize], white: &[usize], turn: u8) -> State {
    let mut board = Board { board: [Hole(None); 37] };
    for &b in black {
        board.board[b] = Hole(Some(Piece::Black));
    }
    for &w in white {
        board.board[w] = Hole(Some(Piece::White));
    }
    State { active: true, winner: None, current_turn: turn, board }
}

fn player(seed: i64, depth: u8) -> AI {
    let mut w = [0i64; 19];
    for (i, slot) in w.iter_mut().enumerate() {
        *slot = ((i as i64 * 31 + seed * 17) % 29) * 40_000;
    }
    AI::with_raw_weights(String::new(), w, SearchLimit::Depth(depth))
}

fn small_config() -> EvolutionConfig {
    EvolutionConfig {
        per_num_batches: 2,
        total_num_batches: 3,
        num_agents_retained: 2,
        num_children_per_retained_agent: 1,
        max_perturb_amt: 100_000,
        perturb_decr: 500_000,
        num_agents: 3,
        num_matches: 2,
        agent_depth: SearchLimit::Depth(1),
    }
}

fn assert_well_scheduled(pairs: &[(usize, usize)], n: usize) {
    for (k, p) in pairs.iter().enumerate() {
        assert!(p.0 < p.1 && p.1 < n);
        for q in &pairs[..k] {
            assert_ne!(p, q);
        }
    }
}

#[test]
fn factorial_and_n_choose_r() {
    assert_eq!(factorial(0), 1);
    assert_eq!(factorial(1), 1);
    assert_eq!(factorial(5), 120);
    assert_eq!(n_choose_r(4, 2), 6);
    assert_eq!(n_choose_r(36, 2), 630);
    assert_eq!(n_choose_r(5, 0), 1);
    assert_eq!(n_choose_r(5, 5), 1);
    assert_eq!(n_choose_r(6, 3), 20);
}

#[test]
fn schedule_of_all_pairs_has_every_pair_once() {
    for _ in 0..20 {
        let mut pairs = schedule(4, 6).unwrap();
        assert_eq!(pairs.len(), 6);
        assert_well_scheduled(&pairs, 4);
        pairs.sort();
        assert_eq!(pairs, vec![(0, 1), (0, 2), (0, 3), (1, 2), (1, 3), (2, 3)]);
    }
}

#[test]
fn schedule_has_exactly_the_matches_asked_for() {
    for m in 0..=15 {
        let pairs = schedule(6, m).unwrap();
        assert_eq!(pairs.len(), m);
        assert_well_scheduled(&pairs, 6);
    }
    let pairs = schedule(36, 108).unwrap();
    assert_eq!(pairs.len(), 108);
    assert_well_scheduled(&pairs, 36);
}

#[test]
fn schedule_of_more_matches_than_pairs_fails() {
    assert_eq!(
        schedule(4, 7),
        Err(ScheduleError::TooManyMatches { requested: 7, possible: 6 })
    );
    assert_eq!(
        schedule(1, 1),
        Err(ScheduleError::TooManyMatches { requested: 1, possible: 0 })
    );
    assert_eq!(
        schedule(0, 1),
        Err(ScheduleError::TooManyMatches { requested: 1, possible: 0 })
    );
    assert_eq!(
        ScheduleError::TooManyMatches { requested: 1, possible: 0 }.message(),
        "cannot schedule more matches than possible pairings of agents"
    );
}

#[test]
fn schedule_of_no_matches_is_empty() {
    assert_eq!(schedule(0, 0), Ok(vec![]));
    assert_eq!(schedule(1, 0), Ok(vec![]));
    assert_eq!(schedule(5, 0), Ok(vec![]));
}

#[test]
fn a_schedule_takes_a_pair_once_and_no_slot_against_itself() {
    let mut s = Schedule::new(4);
    assert_eq!(s.len(), 0);
    assert!(s.offer(2, 1));
    assert!(!s.offer(1, 2));
    assert!(!s.offer(2, 1));
    assert!(!s.offer(3, 3));
    assert!(s.offer(0, 3));
    assert_eq!(s.len(), 2);
    assert_eq!(s.into_matches(), vec![(1, 2), (0, 3)]);
}

#[test]
fn a_schedule_is_filled_with_the_first_pairs_not_taken() {
    let mut s = Schedule::new(4);
    assert!(s.offer(0, 2));
    s.fill(4);
    assert_eq!(s.into_matches(), vec![(0, 2), (0, 1), (1, 2), (0, 3)]);
    let mut t = Schedule::new(4);
    assert!(t.offer(0, 2));
    assert!(t.offer(1, 3));
    t.fill(1);
    assert_eq!(t.len(), 2);
    let mut all = Schedule::new(3);
    all.fill(3);
    assert_eq!(all.into_matches(), vec![(0, 1), (0, 2), (1, 2)]);
}

#[test]
fn adjustment_between_equal_ratings() {
    assert_eq!(adjustment(1000, 1000, 2, 30), 30);
    assert_eq!(adjustment(1000, 1000, 1, 30), 0);
    assert_eq!(adjustment(1000, 1000, 0, 30), -30);
    assert_eq!(adjustment(1000, 1000, 2, 32767), 32767);
    assert_eq!(adjustment(1000, 1200, 1, 0), 0);
}

#[test]
fn adjustment_against_a_stronger_and_a_weaker_side() {
    assert_eq!(adjustment(1000, 1400, 2, 30), 54);
    assert_eq!(adjustment(1000, 1400, 1, 30), 24);
    assert_eq!(adjustment(1000, 1400, 0, 30), -5);
    assert_eq!(adjustment(1400, 1000, 2, 30), 5);
    assert_eq!(adjustment(1400, 1000, 1, 30), -24);
    assert_eq!(adjustment(1400, 1000, 0, 30), -54);
    assert_eq!(adjustment(1000, 1800, 1, 30), 29);
    assert_eq!(adjustment(1800, 1000, 1, 30), -29);
}

#[test]
fn adjustment_counts_a_gap_of_less_than_four_hundred() {
    assert_eq!(adjustment(1000, 1200, 2, 30), 45);
    assert_eq!(adjustment(1200, 1000, 2, 30), 14);
    assert_eq!(adjustment(1030, 970, 2, 30), 24);
    assert_eq!(adjustment(1057, 973, 2, 30), 22);
    assert_eq!(adjustment(1000, 1399, 2, 30), 54);
    assert_eq!(adjustment(1399, 1000, 0, 30), -54);
    assert_eq!(adjustment(1390, 960, 0, 30), -55);
    assert_eq!(adjustment(1390, 960, 1, 30), -25);
    assert_eq!(adjustment(1390, 960, 2, 30), 4);
    assert_eq!(adjustment(1000, 1001, 1, 30), 0);
    assert_eq!(adjustment(1000, 1001, 1, 3000), 8);
    assert_eq!(adjustment(1001, 1000, 1, 3000), -8);
    assert_eq!(adjustment(1, 0, 2, 32767), 32672);
}

#[test]
fn adjustment_with_a_negative_factor() {
    assert_eq!(adjustment(1000, 1200, 2, -30), -45);
    assert_eq!(adjustment(1000, 1200, 0, -30), 14);
    assert_eq!(adjustment(1000, 1400, 2, -7), -12);
}

#[test]
fn adjustment_between_ratings_far_apart_never_expects_all_or_nothing() {
    assert_eq!(adjustment(-10000, 10000, 1, 30), 29);
    assert_eq!(adjustment(-10000, 10000, 0, 30), 0);
    assert_eq!(adjustment(10000, -10000, 1, 30), -29);
    assert_eq!(adjustment(10000, -10000, 2, 30), 0);
    assert_eq!(adjustment(0, 7200, 1, 30), 29);
    assert_eq!(adjustment(0, 7600, 1, 30), 29);
    assert_eq!(adjustment(1000, 3001, 2, 30), 59);
    assert_eq!(adjustment(3001, 1000, 0, 30), -59);
    assert_eq!(adjustment(32767, -32768, 0, 30), -59);
    assert_eq!(adjustment(-32768, 32767, 2, 30), 59);
    assert_eq!(adjustment(-32768, 32767, 2, 32767), 65533);
}

#[test]
fn update_elo_on_a_gap_of_two_hundred() {
    let mut elos = vec![1000, 1200];
    assert!(update_elo(&mut elos, &0, &1, 2, 30));
    assert_eq!(elos, vec![1045, 1155]);
}

#[test]
fn update_elo_match_by_match() {
    let mut elos = vec![1000i16; 4];
    for (a, b, wins) in [(0usize, 1usize, 2i16), (0, 2, 2), (0, 3, 2), (1, 2, 1), (1, 3, 1)] {
        update_elo(&mut elos, &a, &b, wins, 30);
    }
    assert_eq!(elos, vec![1082, 970, 973, 975]);
    assert!(!update_elo(&mut elos, &2, &3, 1, 30));
    assert_eq!(elos, vec![1082, 970, 973, 975]);
}

#[test]
fn update_elo_gives_to_one_what_it_takes_from_the_other() {
    for (a, b) in [(1000i16, 1000i16), (1000, 1400), (1390, 960), (-200, 900), (2500, 40)] {
        for wins in 0..=2i16 {
            let mut elos = vec![17, a, 23, b];
            let changed = update_elo(&mut elos, &1, &3, wins, ELO_ADJUSTMENT);
            let delta_a = elos[1] - a;
            let delta_b = elos[3] - b;
            assert_eq!(delta_a, -delta_b);
            assert_eq!(delta_a as i128, adjustment(a, b, wins, ELO_ADJUSTMENT));
            assert_eq!(changed, delta_a != 0);
            assert_eq!(elos[0], 17);
            assert_eq!(elos[2], 23);
        }
    }
}

#[test]
fn update_elo_exact_values() {
    let mut elos = vec![ELO_START, ELO_START];
    assert!(update_elo(&mut elos, &0, &1, 2, 30));
    assert_eq!(elos, vec![1030, 970]);
    assert!(update_elo(&mut elos, &0, &1, 1, 30));
    assert_eq!(elos, vec![1025, 975]);
    assert!(update_elo(&mut elos, &1, &0, 0, 30));
    assert_eq!(elos, vec![1050, 950]);
    let mut even = vec![ELO_START, ELO_START];
    assert!(!update_elo(&mut even, &0, &1, 1, 30));
    assert_eq!(even, vec![1000, 1000]);
}

#[test]
fn update_elo_leaves_ratings_that_would_not_fit() {
    let mut elos = vec![32760, 32760];
    assert!(!update_elo(&mut elos, &0, &1, 2, 30));
    assert_eq!(elos, vec![32760, 32760]);
    let mut low = vec![-32760, -32760];
    assert!(!update_elo(&mut low, &0, &1, 2, 30));
    assert_eq!(low, vec![-32760, -32760]);
    let mut big = vec![100, 100];
    assert!(!update_elo(&mut big, &0, &1, 2, 32767));
    assert_eq!(big, vec![100, 100]);
    let mut fits = vec![0, 0];
    assert!(update_elo(&mut fits, &0, &1, 2, 32767));
    assert_eq!(fits, vec![32767, -32767]);
}

#[test]
fn update_elo_of_a_slot_against_itself_changes_nothing() {
    let mut elos = vec![1000, 1200];
    assert!(!update_elo(&mut elos, &1, &1, 2, 30));
    assert_eq!(elos, vec![1000, 1200]);
}

#[test]
fn a_new_referee_starts_every_slot_at_the_start() {
    let r = Referee::new(vec![player(1, 1), player(2, 1), player(3, 1)], 7);
    assert_eq!(r.elos(), &vec![1000i16; 3]);
    assert_eq!(r.results(), &vec![(0u32, 0u32); 3]);
    assert_eq!(r.batch_num(), 7);
    assert_eq!(r.agents().len(), 3);
    assert_eq!(r.elos, vec![ELO_START; 3]);
}

#[test]
fn the_slot_that_wins_all_its_matches_is_rated_best() {
    let agents = vec![player(1, 1), player(2, 1), player(3, 1), player(4, 1)];
    let mut r = Referee::new(agents, 1);
    let outcomes = vec![
        (0, 2, 1, 0),
        (0, 2, 2, 0),
        (0, 2, 3, 0),
        (1, 1, 2, 1),
        (1, 1, 3, 1),
        (2, 1, 3, 1),
    ];
    r.apply_results(&outcomes);
    assert_eq!(r.results(), &vec![(6, 6), (2, 6), (2, 6), (2, 6)]);
    assert_eq!(r.elos()[0], 1082);
    assert_eq!(r.elos(), &vec![1082, 970, 973, 975]);
    assert_eq!(top_slots(r.elos(), 1), vec![0]);
    let config = EvolutionConfig { num_agents_retained: 1, ..small_config() };
    let best = get_best_agents(&r, &config);
    assert_eq!(best.len(), 1);
    assert_eq!(best[0].weights, r.agents()[0].weights);
}

#[test]
fn later_matches_are_rated_on_what_earlier_ones_left() {
    let agents = vec![player(1, 1), player(2, 1), player(3, 1)];
    let mut one = Referee::new(agents, 1);
    one.record_match((0, 2, 1, 0));
    assert_eq!(one.elos(), &vec![1030, 970, 1000]);
    one.record_match((1, 2, 2, 0));
    assert_eq!(one.elos(), &vec![1030, 1002, 968]);
    assert_eq!(one.results(), &vec![(2, 2), (2, 4), (0, 2)]);
}

#[test]
fn top_slots_ranks_by_rating_and_then_by_the_higher_slot() {
    assert_eq!(top_slots(&vec![1000, 1030, 970, 1030], 4), vec![3, 1, 0, 2]);
    assert_eq!(top_slots(&vec![1000, 1030, 970, 1030], 2), vec![3, 1]);
    assert_eq!(top_slots(&vec![1000, 1000, 1000], 2), vec![2, 1]);
    assert_eq!(top_slots(&vec![5, 9], 7), vec![1, 0]);
    assert_eq!(top_slots(&vec![5, 9], 0), Vec::<usize>::new());
    assert_eq!(top_slots(&vec![], 3), Vec::<usize>::new());
}

#[test]
fn top_winners_ranks_by_wins_and_then_by_the_lower_slot() {
    assert_eq!(top_winners(&vec![1, 4, 0, 4], 4), vec![1, 3, 0, 2]);
    assert_eq!(top_winners(&vec![2, 2, 2], 2), vec![0, 1]);
    assert_eq!(top_winners(&vec![], 1), Vec::<usize>::new());
}

#[test]
fn perturbation_decays_from_generation_to_generation() {
    let config = EvolutionConfig::default();
    assert_eq!(perturbation(&config, 1), 100_000);
    assert_eq!(perturbation(&config, 2), 10_000);
    assert_eq!(perturbation(&config, 3), 1_000);
    assert_eq!(perturbation(&config, 6), 1);
    assert_eq!(perturbation(&config, 7), 0);
    assert_eq!(perturbation(&config, 4_000_000_000), 0);
    let slow = EvolutionConfig { perturb_decr: 990_000, ..config };
    assert_eq!(perturbation(&slow, 2), 99_000);
    assert_eq!(perturbation(&slow, 3), 98_010);
    let still = EvolutionConfig { perturb_decr: WEIGHT_ONE, ..config };
    assert_eq!(perturbation(&still, 50), 100_000);
}

#[test]
fn the_default_settings() {
    let config = EvolutionConfig::default();
    assert_eq!(config.per_num_batches, 10);
    assert_eq!(config.total_num_batches, 100);
    assert_eq!(config.num_agents_retained, 10);
    assert_eq!(config.num_children_per_retained_agent, 2);
    assert_eq!(config.max_perturb_amt, 100_000);
    assert_eq!(config.perturb_decr, 100_000);
    assert_eq!(config.num_agents, 36);
    assert_eq!(config.num_matches, 108);
    assert_eq!(config.agent_depth, SearchLimit::Depth(4));
}

#[test]
fn perturbed_multiplies_in_fixed_point() {
    assert_eq!(perturbed(1_000_000, 1_100_000), 1_100_000);
    assert_eq!(perturbed(500_000, 900_000), 450_000);
    assert_eq!(perturbed(3, 500_000), 1);
    assert_eq!(perturbed(-3, 500_000), -1);
    assert_eq!(perturbed(7, 0), 0);
    assert_eq!(perturbed(i64::MAX, 2_000_000), i64::MAX);
    assert_eq!(perturbed(i64::MIN, 2_000_000), i64::MIN);
    assert_eq!(perturbed(i64::MAX, 1_000_000), i64::MAX);
}

#[test]
fn children_stay_within_the_perturbation_of_their_parent() {
    let mut w = [0i64; 19];
    for (i, slot) in w.iter_mut().enumerate() {
        *slot = (i as i64 - 4) * 123_457;
    }
    let parent = AI::with_raw_weights(String::new(), w, SearchLimit::Depth(2));
    let config = EvolutionConfig { num_children_per_retained_agent: 25, ..small_config() };
    for p in [0i64, 1, 100_000, 350_000, WEIGHT_ONE] {
        let children = children_from_agent(&parent, p, &config);
        assert_eq!(children.len(), 25);
        for child in &children {
            assert_eq!(child.limit(), SearchLimit::Depth(1));
            for i in 0..19 {
                let a = perturbed(w[i], WEIGHT_ONE - p);
                let b = perturbed(w[i], WEIGHT_ONE + p);
                let (low, high) = if a <= b { (a, b) } else { (b, a) };
                assert!(low <= child.weights[i] && child.weights[i] <= high);
            }
        }
    }
}

#[test]
fn children_without_perturbation_are_copies() {
    let parent = player(5, 2);
    let config = EvolutionConfig { num_children_per_retained_agent: 3, ..small_config() };
    for child in children_from_agent(&parent, 0, &config) {
        assert_eq!(child.weights, parent.weights);
    }
}

#[test]
fn random_agents_have_weights_from_zero_to_below_one() {
    let config = small_config();
    let mut seen_different = false;
    let first = random_agent(&config);
    for _ in 0..50 {
        let agent = random_agent(&config);
        assert_eq!(agent.limit(), SearchLimit::Depth(1));
        for w in agent.weights.iter() {
            assert!(0 <= *w && *w < WEIGHT_ONE);
        }
        if agent.weights != first.weights {
            seen_different = true;
        }
    }
    assert!(seen_different);
}

#[test]
fn mutate_puts_children_first_and_fills_with_random_players() {
    let config = EvolutionConfig {
        num_children_per_retained_agent: 2,
        num_agents: 7,
        ..small_config()
    };
    let parents = vec![player(1, 1), player(2, 1)];
    let next = mutate(vec![player(1, 1), player(2, 1)], 1, &config);
    assert_eq!(next.len(), 7);
    for (k, parent) in parents.iter().enumerate() {
        for j in 0..2 {
            let child = &next[k * 2 + j];
            for i in 0..19 {
                let a = perturbed(parent.weights[i], 900_000);
                let b = perturbed(parent.weights[i], 1_100_000);
                assert!(a <= child.weights[i] && child.weights[i] <= b);
            }
        }
    }
    for agent in &next[4..] {
        for w in agent.weights.iter() {
            assert!(0 <= *w && *w < WEIGHT_ONE);
        }
    }
}

#[test]
fn mutate_keeps_the_population_at_its_size() {
    let config = EvolutionConfig {
        num_children_per_retained_agent: 2,
        num_agents: 3,
        ..small_config()
    };
    let parents = vec![player(1, 1), player(2, 1)];
    let next = mutate(vec![player(1, 1), player(2, 1)], 1, &config);
    assert_eq!(next.len(), 3);
    for (slot, child) in next.iter().enumerate() {
        let parent = &parents[slot / 2];
        for i in 0..19 {
            let a = perturbed(parent.weights[i], 900_000);
            let b = perturbed(parent.weights[i], 1_100_000);
            assert!(a <= child.weights[i] && child.weights[i] <= b);
        }
    }
    let one = EvolutionConfig { num_agents: 1, ..config };
    assert_eq!(mutate(vec![player(1, 1), player(2, 1)], 1, &one).len(), 1);
    let none = EvolutionConfig { num_agents: 0, ..config };
    assert_eq!(mutate(vec![player(1, 1), player(2, 1)], 1, &none).len(), 0);
    let many = EvolutionConfig { num_children_per_retained_agent: 5, num_agents: 10, ..config };
    assert_eq!(mutate(vec![player(1, 1), player(2, 1), player(3, 1)], 1, &many).len(), 10);
}

#[test]
fn a_run_is_taken_up_from_the_best_rated_of_a_checkpoint() {
    let config = EvolutionConfig {
        num_agents_retained: 2,
        num_children_per_retained_agent: 1,
        num_agents: 4,
        max_perturb_amt: 0,
        ..small_config()
    };
    let agents = vec![player(1, 1), player(2, 1), player(3, 1), player(4, 1)];
    let checkpoint = Checkpoint {
        generation: 6,
        agents: agents.clone(),
        ratings: vec![990, 1040, 970, 1040],
    };
    let (next, population) = resume_from(checkpoint, &config);
    assert_eq!(next, 7);
    assert_eq!(population.len(), 4);
    // Among equal ratings the lower slot comes first.
    assert_eq!(population[0].weights, agents[1].weights);
    assert_eq!(population[1].weights, agents[3].weights);
    for agent in &population[2..] {
        for w in agent.weights.iter() {
            assert!(0 <= *w && *w < WEIGHT_ONE);
        }
    }
    let low = Checkpoint {
        generation: 1,
        agents: agents.clone(),
        ratings: vec![-32768, 32767, -32768, 0],
    };
    let (after, from_low) = resume_from(low, &config);
    assert_eq!(after, 2);
    assert_eq!(from_low[0].weights, agents[1].weights);
    assert_eq!(from_low[1].weights, agents[3].weights);
}

#[test]
fn tallies_take_any_count_of_wins_that_fits() {
    let mut r = Referee::new(vec![player(1, 1), player(2, 1)], 1);
    r.record_match((0, 255, 1, 7));
    assert_eq!(r.results(), &vec![(255, 2), (7, 2)]);
}

#[test]
fn a_schedule_for_a_large_population() {
    let pairs = schedule(2000, 3000).unwrap();
    assert_eq!(pairs.len(), 3000);
    assert_well_scheduled(&pairs, 2000);
    let mut filled = Schedule::new(60);
    filled.fill(1770);
    let all = filled.into_matches();
    assert_eq!(all.len(), 1770);
    assert_well_scheduled(&all, 60);
    assert_eq!(all[0], (0, 1));
    assert_eq!(all[1769], (58, 59));
}

#[test]
fn the_share_of_the_expected_score_is_rounded_both_ways() {
    assert_eq!(expected_share(0, 60), (30, 30));
    assert_eq!(expected_share(200, 60), (14, 15));
    assert_eq!(expected_share(-200, 60), (45, 46));
    assert_eq!(expected_share(400, 22), (2, 2));
    assert_eq!(expected_share(-400, 22), (20, 20));
    assert_eq!(expected_share(800, 202), (2, 2));
    assert_eq!(expected_share(65535, 65536), (0, 1));
    assert_eq!(expected_share(-65535, 65536), (65535, 65536));
    assert_eq!(expected_share(2001, 65536), (0, 1));
    assert_eq!(expected_share(2000, 65536), (0, 1));
    assert_eq!(expected_share(1999, 65536), (0, 1));
    assert_eq!(expected_share(17, 0), (0, 0));
    assert_eq!(expected_share(0, 1), (0, 1));
}

#[test]
fn large_numbers_are_multiplied_and_ordered() {
    assert_eq!(one(), vec![1]);
    assert_eq!(times(&vec![0xffff_ffff], 0xffff_ffff), vec![1, 0xffff_fffe]);
    assert_eq!(times(&vec![5, 7], 0), vec![0, 0]);
    assert_eq!(times(&vec![], 9), Vec::<u32>::new());
    assert_eq!(times_power(one(), 10, 9), vec![1_000_000_000]);
    assert_eq!(times_power(one(), 10, 10), vec![1_410_065_408, 2]);
    assert_eq!(times_power(vec![3], 2, 0), vec![3]);
    assert_eq!(times_power(one(), 2, 64), vec![0, 0, 1]);
    assert_eq!(order(vec![1, 2], vec![2, 1]), 1);
    assert_eq!(order(vec![2, 1], vec![1, 2]), -1);
    assert_eq!(order(vec![7, 0, 0], vec![7]), 0);
    assert_eq!(order(vec![], vec![0, 0]), 0);
    assert_eq!(order(vec![0, 1], vec![0xffff_ffff]), 1);
    assert_eq!(order(times_power(one(), 10, 400), times_power(times_power(one(), 2, 400), 5, 400)), 0);
    assert_eq!(order(times_power(one(), 3, 400), times_power(one(), 10, 190)), 1);
    assert_eq!(order(times_power(one(), 3, 400), times_power(one(), 10, 191)), -1);
}

#[test]
fn mutate_from_recovery_retains_the_first_players() {
    let config = EvolutionConfig {
        num_agents_retained: 2,
        num_children_per_retained_agent: 1,
        num_agents: 3,
        perturb_decr: 0,
        ..small_config()
    };
    // In generation 2 the perturbation has decayed to nothing: the
    // children are copies of the two players that are retained.
    let agents = vec![player(1, 1), player(2, 1), player(3, 1)];
    let next = mutate_from_recovery(2, agents, &config);
    assert_eq!(next.len(), 3);
    assert_eq!(next[0].weights, player(1, 1).weights);
    assert_eq!(next[1].weights, player(2, 1).weights);
}

#[test]
fn a_game_is_played_to_its_end() {
    let record = play_one_game(State::new(), &player(1, 1), &player(2, 2));
    assert!(!record.end.active);
    assert!(record.winner == Some(0) || record.winner == Some(1));
    assert_eq!(record.winner, record.end.winner);
    assert!(!record.state_history.is_empty());
    assert!(record.state_history.len() <= 481);
    assert_eq!(record.state_history[0].current_turn, 0);
    for pair in record.state_history.windows(2) {
        assert!(pair[0].active);
        assert_eq!(pair[1].current_turn, 1 - pair[0].current_turn);
    }
}

#[test]
fn a_game_that_is_over_is_not_played() {
    let mut over = State::new();
    over.active = false;
    over.winner = Some(1);
    let record = play_one_game(over, &player(1, 1), &player(2, 1));
    assert_eq!(record.winner, Some(1));
    assert!(record.state_history.is_empty());
}

#[test]
fn a_game_stops_where_a_search_finds_no_step() {
    let timeless = AI::with_raw_weights(
        String::new(),
        [WEIGHT_ONE; 19],
        SearchLimit::Time(Duration::ZERO),
    );
    let record = play_one_game(State::new(), &timeless, &player(2, 1));
    assert_eq!(record.winner, None);
    assert!(record.end.active);
    assert_eq!(record.state_history.len(), 1);
}

#[test]
fn a_win_in_one_is_played() {
    let start = state_with(&[32, 3], &[20, 30], 0);
    let record = play_one_game(start, &player(1, 2), &player(2, 2));
    assert_eq!(record.winner, Some(0));
    assert_eq!(record.state_history.len(), 1);
    assert_eq!(record.end.board.board[36].0, Some(Piece::Black));
}

#[test]
fn tally_match_counts_the_wins_of_both_games() {
    let game = |winner: Option<u8>| {
        let mut end = State::new();
        end.winner = winner;
        end.active = winner.is_none();
        GameRecord { winner, state_history: vec![], end }
    };
    assert_eq!(tally_match(&game(Some(0)), &game(Some(1))), (2, 0));
    assert_eq!(tally_match(&game(Some(1)), &game(Some(0))), (0, 2));
    assert_eq!(tally_match(&game(Some(0)), &game(Some(0))), (1, 1));
    assert_eq!(tally_match(&game(Some(1)), &game(Some(1))), (1, 1));
    assert_eq!(tally_match(&game(None), &game(Some(1))), (1, 0));
    assert_eq!(tally_match(&game(Some(1)), &game(None)), (0, 1));
    assert_eq!(tally_match(&game(None), &game(None)), (0, 0));
}

#[test]
fn a_match_is_two_games_with_the_colours_swapped() {
    let one = player(1, 1);
    let two = player(2, 1);
    let first = play_one_game(State::new(), &one, &two);
    let second = play_one_game(State::new(), &two, &one);
    assert_eq!(Referee::play_one_match(&one, &two), tally_match(&first, &second));
}

#[test]
fn a_referee_plays_a_generation() {
    let mut r = Referee::new(vec![player(1, 1), player(2, 1), player(3, 1)], 1);
    let outcomes = r.play(3).unwrap();
    assert_eq!(outcomes.len(), 3);
    let mut pairs: Vec<(usize, usize)> = outcomes.iter().map(|o| (o.0, o.2)).collect();
    pairs.sort();
    assert_eq!(pairs, vec![(0, 1), (0, 2), (1, 2)]);
    let mut again = Referee::new(vec![player(1, 1), player(2, 1), player(3, 1)], 1);
    again.apply_results(&outcomes);
    assert_eq!(again.elos(), r.elos());
    assert_eq!(again.results(), r.results());
    for tally in r.results() {
        assert_eq!(tally.1, 4);
    }
    let total: i32 = r.elos().iter().map(|e| *e as i32).sum();
    assert_eq!(total, 3000);
}

#[test]
fn a_referee_does_not_play_more_matches_than_pairs() {
    let mut r = Referee::new(vec![player(1, 1), player(2, 1)], 1);
    assert_eq!(
        r.play(2).err(),
        Some(ScheduleError::TooManyMatches { requested: 2, possible: 1 })
    );
    assert_eq!(r.elos(), &vec![1000, 1000]);
    assert!(r.generate_matches(1).is_ok());
    assert!(r.generate_matches(2).is_err());
}

#[test]
fn agents_are_handed_out_with_their_tallies_and_ratings() {
    let mut r = Referee::new(vec![player(1, 1), player(2, 1)], 1);
    r.record_match((0, 2, 1, 0));
    let with_elos = Referee::new(vec![player(1, 1), player(2, 1)], 1);
    let mut rated = with_elos;
    rated.record_match((0, 2, 1, 0));
    let elos = rated.get_agents_with_elos();
    assert_eq!(elos[0].0, 1030);
    assert_eq!(elos[1].0, 970);
    assert_eq!(elos[0].1.weights, player(1, 1).weights);
    let results = r.get_agents_with_results();
    assert_eq!(results[0].0, (2, 2));
    assert_eq!(results[1].0, (0, 2));
    assert_eq!(results[1].1.weights, player(2, 1).weights);
}

#[test]
fn a_snapshot_holds_the_generation_as_it_stands() {
    let mut r = Referee::new(vec![player(1, 1), player(2, 1)], 4);
    r.record_match((1, 2, 0, 0));
    let checkpoint = snapshot(&r);
    assert_eq!(checkpoint.generation, 4);
    assert_eq!(checkpoint.ratings, vec![970, 1030]);
    assert_eq!(checkpoint.agents.len(), 2);
    assert_eq!(checkpoint.agents[0].weights, player(1, 1).weights);
    assert_eq!(checkpoint.agents[1].weights, player(2, 1).weights);
}

#[test]
fn a_run_goes_from_phase_to_phase() {
    let mut run = Evolution::new(small_config());
    assert_eq!(run.phase(), Phase::Initializing);
    run.initialize(1, None);
    assert_eq!(run.phase(), Phase::RunningGeneration);
    assert_eq!(run.total_batch_num(), 1);
    assert_eq!(run.prev_batch().agents().len(), 3);

    let first = run.run_generation().unwrap();
    assert_eq!(run.phase(), Phase::Checkpointing);
    assert_eq!(first.generation, 1);
    assert_eq!(first.agents.len(), 3);
    assert_eq!(&first.ratings, run.prev_batch().elos());
    let ranked = top_slots(&first.ratings, 2);
    let parents: Vec<[i64; 19]> = ranked.iter().map(|s| first.agents[*s].weights).collect();

    run.advance();
    assert_eq!(run.phase(), Phase::RunningGeneration);
    assert_eq!(run.total_batch_num(), 2);
    let next = run.prev_batch().agents();
    assert_eq!(next.len(), 3);
    for (k, parent) in parents.iter().enumerate() {
        for i in 0..19 {
            let a = perturbed(parent[i], 900_000);
            let b = perturbed(parent[i], 1_100_000);
            assert!(a <= next[k].weights[i] && next[k].weights[i] <= b);
        }
    }
    assert_eq!(run.prev_batch().elos(), &vec![1000i16; 3]);

    let second = run.complete_generation(&vec![(0, 2, 1, 0), (1, 1, 2, 1)]);
    assert_eq!(second.generation, 2);
    assert_eq!(second.ratings, vec![1030, 972, 998]);
    assert_eq!(run.process_batch_num(), 2);
    run.advance();
    // The run has played its share of two generations.
    assert_eq!(run.phase(), Phase::Done);
    assert_eq!(run.total_batch_num(), 3);
    assert!(run.best_agent().is_some());
}

#[test]
fn a_run_beyond_the_last_generation_is_over_at_once() {
    let mut run = Evolution::new(small_config());
    run.initialize(4, Some(vec![player(1, 1), player(2, 1)]));
    assert_eq!(run.phase(), Phase::Done);
    let mut none = Evolution::new(EvolutionConfig { per_num_batches: 0, ..small_config() });
    none.initialize(1, None);
    assert_eq!(none.phase(), Phase::Done);
}

#[test]
fn the_best_agent_of_an_unplayed_generation_is_the_last_slot() {
    let mut run = Evolution::new(small_config());
    run.initialize(1, Some(vec![player(1, 1), player(2, 1), player(3, 1)]));
    assert_eq!(run.best_agent().unwrap().weights, player(3, 1).weights);
    let mut empty = Evolution::new(small_config());
    empty.initialize(1, Some(vec![]));
    assert!(empty.best_agent().is_none());
}

#[test]
fn the_slot_that_wins_all_its_matches_is_rated_best_in_any_order() {
    let orders: [[(usize, u8, usize, u8); 6]; 4] = [
        [(0, 2, 1, 0), (0, 2, 2, 0), (0, 2, 3, 0), (1, 1, 2, 1), (1, 1, 3, 1), (2, 1, 3, 1)],
        [(1, 1, 2, 1), (1, 1, 3, 1), (2, 1, 3, 1), (0, 2, 1, 0), (0, 2, 2, 0), (0, 2, 3, 0)],
        [(2, 1, 3, 1), (1, 0, 0, 2), (1, 1, 3, 1), (3, 0, 0, 2), (1, 1, 2, 1), (2, 0, 0, 2)],
        [(0, 2, 3, 0), (1, 1, 3, 1), (2, 1, 3, 1), (2, 0, 0, 2), (1, 1, 2, 1), (0, 2, 1, 0)],
    ];
    for order in orders.iter() {
        let agents = vec![player(1, 1), player(2, 1), player(3, 1), player(4, 1)];
        let mut r = Referee::new(agents, 1);
        r.apply_results(&order.to_vec());
        let elos = r.elos().clone();
        assert!(elos[0] > 1000);
        for other in 1..4 {
            assert!(elos[other] <= 1000);
        }
        assert_eq!(elos.iter().map(|e| *e as i32).sum::<i32>(), 4000);
        assert_eq!(top_slots(&elos, 1), vec![0]);
        let config = EvolutionConfig { num_agents_retained: 1, ..small_config() };
        let best = get_best_agents(&r, &config);
        assert_eq!(best[0].weights, r.agents()[0].weights);
    }
}

#[test]
fn a_drawn_match_brings_two_ratings_closer_without_passing() {
    for (a, b) in [(1000i16, 1000i16), (1000, 1001), (1000, 1002), (1000, 1029), (970, 1000), (900, 1400), (-300, 2000)] {
        let gain = adjustment(a, b, 1, 30);
        assert!(0 <= gain && gain <= (b - a) as i128);
        assert_eq!(adjustment(b, a, 1, 30), -gain);
    }
    assert_eq!(adjustment(1000, 1001, 1, 30), 0);
    assert_eq!(adjustment(1000, 1030, 1, 30), 2);
    assert_eq!(adjustment(900, 1400, 1, 30), 26);
}
