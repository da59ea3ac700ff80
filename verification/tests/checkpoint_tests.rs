use milestone::ai::tree::SearchLimit;
use milestone::game::player::AI;
use milestone::genetic::emperor::{snapshot, Checkpoint};
use milestone::genetic::referee::Referee;
use std::time::Duration;

/// A player as plain values: the name, the weights, and the limit as a
/// time or a depth.
type PlainAgent = (String, [i64; 19], Option<Duration>, Option<u8>);

/// A checkpoint as plain values.
type PlainCheckpoint = (u32, Vec<PlainAgent>, Vec<i16>);

fn to_plain(checkpoint: &Checkpoint) -> PlainCheckpoint {
    let agents = checkpoint
        .agents
        .iter()
        .map(|ai| match ai.limit() {
            SearchLimit::Time(t) => (ai.name(), ai.weights, Some(t), None),
            SearchLimit::Depth(d) => (ai.name(), ai.weights, None, Some(d)),
        })
        .collect();
    (checkpoint.generation, agents, checkpoint.ratings.clone())
}

fn from_plain(plain: PlainCheckpoint) -> Checkpoint {
    let agents = plain
        .1
        .into_iter()
        .map(|(name, weights, time, depth)| {
            let limit = match (time, depth) {
                (Some(t), _) => SearchLimit::Time(t),
                (None, Some(d)) => SearchLimit::Depth(d),
                (None, None) => panic!("a limit is a time or a depth"),
            };
            AI::with_raw_weights(name, weights, limit)
        })
        .collect();
    Checkpoint { generation: plain.0, agents, ratings: plain.2 }
}

fn population() -> Vec<AI> {
    let mut first = [0i64; 19];
    let mut second = [0i64; 19];
    for i in 0..19 {
        first[i] = (i as i64 + 1) * 52_631;
        second[i] = 999_999 - (i as i64) * 40_000;
    }
    vec![
        AI::with_raw_weights("first".to_string(), first, SearchLimit::Depth(4)),
        AI::with_raw_weights(
            "second".to_string(),
            second,
            SearchLimit::Time(Duration::from_millis(700)),
        ),
        AI::with_raw_weights(String::new(), [i64::MIN; 19], SearchLimit::Depth(0)),
    ]
}

#[test]
fn checkpoint_round_trip() {
    let mut referee = Referee::new(population(), 17);
    referee.apply_results(&vec![(0, 2, 1, 0), (2, 1, 0, 1), (1, 0, 2, 2)]);
    let checkpoint = snapshot(&referee);

    let bytes = bincode::serialize(&to_plain(&checkpoint)).unwrap();
    let read: PlainCheckpoint = bincode::deserialize(&bytes).unwrap();
    let restored = from_plain(read);

    assert_eq!(restored.generation, 17);
    assert_eq!(restored.generation, checkpoint.generation);
    assert_eq!(restored.ratings, checkpoint.ratings);
    assert_eq!(&restored.ratings, referee.elos());
    assert_eq!(restored.agents.len(), checkpoint.agents.len());
    for (back, kept) in restored.agents.iter().zip(referee.agents().iter()) {
        assert_eq!(back.name(), kept.name());
        assert_eq!(back.weights, kept.weights);
        assert_eq!(back.limit(), kept.limit());
    }
    assert_eq!(to_plain(&restored), to_plain(&checkpoint));
}

#[test]
fn a_checkpoint_cut_short_is_not_read() {
    let referee = Referee::new(population(), 3);
    let bytes = bincode::serialize(&to_plain(&snapshot(&referee))).unwrap();
    let read: Result<PlainCheckpoint, _> = bincode::deserialize(&bytes[..bytes.len() - 1]);
    assert!(read.is_err());
}
