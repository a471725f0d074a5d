use leader_batching::leader_reputation::{
    ActiveInactiveHeuristic, Author, InMemoryHistory, LeaderReputation, MetadataBackend,
    NewBlockEvent, ReputationHeuristic,
};
use leader_batching::mixing::{mix_bytes, next, round_seed, to_le_bytes};
use leader_batching::selection::select_proposer_index;

fn create_block(epoch: u64, proposer: Author, voters: Vec<bool>) -> NewBlockEvent {
    NewBlockEvent::new(epoch, 0, voters, proposer, 0)
}

fn authors(n: u64) -> Vec<Author> {
    (0..n).map(|i| 1000 + 7 * i).collect()
}

#[test]
fn test_simple_heuristic() {
    let active_weight = 9;
    let inactive_weight = 1;
    let proposers = authors(8);
    let heuristic = ActiveInactiveHeuristic::new(proposers[0], active_weight, inactive_weight);
    // 1. Window size not enough
    let weights = heuristic.get_weights(0, &proposers, &vec![]);
    assert_eq!(weights.len(), proposers.len());
    for w in weights {
        assert_eq!(w, inactive_weight);
    }
    // 2. Sliding window with [proposer 0, voters 1, 2], [proposer 0, voters 3]
    let weights = heuristic.get_weights(
        0,
        &proposers,
        &vec![
            create_block(
                0,
                proposers[0],
                vec![false, true, true, false, false, false, false, false],
            ),
            create_block(
                0,
                proposers[0],
                vec![false, false, false, true, false, false, false, false],
            ),
        ],
    );
    assert_eq!(weights.len(), proposers.len());
    for (i, w) in weights.iter().enumerate() {
        let expected = if i < 4 { active_weight } else { inactive_weight };
        assert_eq!(*w, expected);
    }
}

#[test]
fn test_epoch_change() {
    let active_weight = 9;
    let inactive_weight = 1;
    let proposers = authors(8);
    let heuristic = ActiveInactiveHeuristic::new(proposers[0], active_weight, inactive_weight);
    // History with [proposer 0, voters 1, 2], [proposer 0, voters 3] in current epoch
    let weights = heuristic.get_weights(
        2,
        &proposers,
        &vec![
            create_block(
                2,
                proposers[0],
                vec![false, true, true, false, false, false, false, false],
            ),
            create_block(
                2,
                proposers[0],
                vec![false, false, false, true, false, false, false, false],
            ),
            create_block(
                1,
                proposers[0],
                vec![false, true, true, true, true, true, true, true],
            ),
            create_block(
                0,
                proposers[0],
                vec![false, true, true, true, true, true, true, true],
            ),
        ],
    );
    assert_eq!(weights.len(), proposers.len());
    for (i, w) in weights.iter().enumerate() {
        let expected = if i < 4 { active_weight } else { inactive_weight };
        assert_eq!(*w, expected);
    }
}

#[test]
fn test_api() {
    let active_weight = 9;
    let inactive_weight = 1;
    let proposers: Vec<Author> = vec![11, 22, 33, 44, 55];
    let history = vec![
        create_block(0, proposers[0], vec![false, true, true, false, false]),
        create_block(0, proposers[0], vec![false, false, false, true, false]),
    ];
    let leader_reputation = LeaderReputation::new(
        0,
        proposers.clone(),
        InMemoryHistory::new(1, history),
        ActiveInactiveHeuristic::new(proposers[0], active_weight, inactive_weight),
        4,
    );
    let round = 42u64;
    // first metadata is ignored because of window size 1
    let expected_weights = vec![
        active_weight,
        inactive_weight,
        inactive_weight,
        active_weight,
        inactive_weight,
    ];
    let sum = expected_weights.iter().fold(0, |mut s, w| {
        s += *w;
        s
    });
    let mut state = round.to_le_bytes().to_vec();
    let chosen_weight = next(&mut state) % sum;
    // the first candidate whose cumulative weight exceeds the threshold wins
    let mut expected_index = 0usize;
    let mut accu = 0u64;
    for (i, w) in expected_weights.iter().enumerate() {
        accu += *w;
        if accu > chosen_weight {
            expected_index = i;
            break;
        }
    }
    let unexpected_index = (expected_index + 1) % proposers.len();
    let output = leader_reputation.get_valid_proposer(round);
    assert_eq!(output, proposers[expected_index]);
    assert!(leader_reputation.is_valid_proposer(proposers[expected_index], 42));
    assert!(!leader_reputation.is_valid_proposer(proposers[unexpected_index], 42));
}

#[test]
fn round_42_selects_first_candidate() {
    // the draw for round 42 is 6 modulo 21, inside candidate 0's interval [0, 9)
    assert_eq!(round_seed(42) % 21, 6);
    let proposers: Vec<Author> = vec![11, 22, 33, 44, 55];
    let history = vec![create_block(0, 11, vec![false, false, false, true, false])];
    let engine = LeaderReputation::new(
        0,
        proposers.clone(),
        InMemoryHistory::new(10, history),
        ActiveInactiveHeuristic::new(11, 9, 1),
        4,
    );
    assert_eq!(engine.get_valid_proposer(42), 11);
}

#[test]
fn weighted_selection_example_threshold_twelve() {
    let weights = vec![9u64, 1, 1, 9, 1];
    assert_eq!(select_proposer_index(&weights, 12), 3);
}

#[test]
fn selection_interval_edges() {
    let weights = vec![9u64, 1, 1, 9, 1];
    assert_eq!(select_proposer_index(&weights, 0), 0);
    assert_eq!(select_proposer_index(&weights, 8), 0);
    assert_eq!(select_proposer_index(&weights, 9), 1);
    assert_eq!(select_proposer_index(&weights, 10), 2);
    assert_eq!(select_proposer_index(&weights, 11), 3);
    assert_eq!(select_proposer_index(&weights, 19), 3);
    assert_eq!(select_proposer_index(&weights, 20), 4);
}

#[test]
fn selection_skips_zero_weights() {
    let weights = vec![0u64, 0, 5, 0, 3];
    assert_eq!(select_proposer_index(&weights, 0), 2);
    assert_eq!(select_proposer_index(&weights, 4), 2);
    assert_eq!(select_proposer_index(&weights, 5), 4);
}

#[test]
fn selection_handles_largest_weights() {
    let weights = vec![u64::MAX, u64::MAX, u64::MAX];
    assert_eq!(select_proposer_index(&weights, u64::MAX as u128 - 1), 0);
    assert_eq!(select_proposer_index(&weights, u64::MAX as u128), 1);
    assert_eq!(select_proposer_index(&weights, 3 * (u64::MAX as u128) - 1), 2);
}

#[test]
fn selection_frequency_follows_weights() {
    let proposers: Vec<Author> = vec![1, 2, 3, 4, 5];
    let history = vec![create_block(3, 1, vec![false, false, false, true, false])];
    let engine = LeaderReputation::new(
        3,
        proposers.clone(),
        InMemoryHistory::new(10, history),
        ActiveInactiveHeuristic::new(1, 9, 1),
        0,
    );
    let rounds = 21_000u64;
    let mut counts = [0u64; 5];
    for round in 1..=rounds {
        let p = engine.get_valid_proposer(round);
        counts[(p - 1) as usize] += 1;
    }
    let weights = [9u64, 1, 1, 9, 1];
    for i in 0..5 {
        let expected = rounds * weights[i] / 21;
        let tolerance = expected / 10 + 50;
        assert!(counts[i] + tolerance >= expected && counts[i] <= expected + tolerance);
    }
}

#[test]
fn determinism_across_calls_and_instances() {
    let proposers: Vec<Author> = vec![5, 6, 7, 8];
    let make = || {
        LeaderReputation::new(
            1,
            proposers.clone(),
            InMemoryHistory::new(
                3,
                vec![
                    create_block(1, 6, vec![true, false, false, false]),
                    create_block(1, 8, vec![false, false, true, false]),
                ],
            ),
            ActiveInactiveHeuristic::new(5, 5, 2),
            2,
        )
    };
    let a = make();
    let b = make();
    for round in 0..200u64 {
        let x = a.get_valid_proposer(round);
        assert_eq!(x, a.get_valid_proposer(round));
        assert_eq!(x, b.get_valid_proposer(round));
        assert!(a.is_valid_proposer(x, round));
    }
}

#[test]
fn epoch_isolation_ignores_older_epochs() {
    let proposers = authors(5);
    let heuristic = ActiveInactiveHeuristic::new(proposers[0], 9, 1);
    let current = vec![create_block(7, proposers[1], vec![false, false, true, false, false])];
    let mixed = vec![
        create_block(6, proposers[4], vec![true, true, true, true, true]),
        create_block(7, proposers[1], vec![false, false, true, false, false]),
        create_block(5, proposers[3], vec![true, true, true, true, true]),
    ];
    let a = heuristic.get_weights(7, &proposers, &current);
    let b = heuristic.get_weights(7, &proposers, &mixed);
    assert_eq!(a, vec![1, 9, 9, 1, 1]);
    assert_eq!(a, b);
}

#[test]
fn window_of_other_epochs_gives_inactive_weight() {
    let proposers = authors(4);
    let heuristic = ActiveInactiveHeuristic::new(proposers[0], 9, 2);
    let history = vec![
        create_block(1, proposers[0], vec![true, true, true, true]),
        create_block(2, proposers[1], vec![true, true, true, true]),
    ];
    assert_eq!(heuristic.get_weights(3, &proposers, &history), vec![2, 2, 2, 2]);
}

#[test]
fn proposer_and_voters_are_active() {
    let proposers = authors(6);
    let heuristic = ActiveInactiveHeuristic::new(proposers[0], 4, 3);
    // votes shorter than the candidate list cover only their own positions
    let history = vec![create_block(0, proposers[5], vec![false, true, false, true])];
    assert_eq!(heuristic.get_weights(0, &proposers, &history), vec![3, 4, 3, 4, 3, 4]);
}

#[test]
fn history_window_keeps_most_recent_known_records() {
    let data = vec![
        NewBlockEvent::new(0, 1, vec![], 1, 10),
        NewBlockEvent::new(0, 2, vec![], 2, 20),
        NewBlockEvent::new(0, 3, vec![], 3, 30),
        NewBlockEvent::new(0, 9, vec![], 9, 90),
    ];
    let backend = InMemoryHistory::new(2, data);
    let window = backend.get_block_metadata(5);
    let proposers: Vec<Author> = window.iter().map(|e| e.proposer).collect();
    assert_eq!(proposers, vec![2, 3]);
    let all = backend.get_block_metadata(100);
    assert_eq!(all.iter().map(|e| e.round).collect::<Vec<_>>(), vec![3, 9]);
    assert!(backend.get_block_metadata(0).is_empty());
}

#[test]
fn event_duplicate_keeps_fields() {
    let e = NewBlockEvent::new(3, 4, vec![true, false], 5, 6);
    let d = e.duplicate();
    assert_eq!((d.epoch, d.round, d.proposer, d.timestamp), (3, 4, 5, 6));
    assert_eq!(d.votes, vec![true, false]);
}

#[test]
fn mixing_known_values() {
    assert_eq!(mix_bytes(&vec![]), 0xf52a15e9a9b5e89b);
    assert_eq!(mix_bytes(&vec![1, 2, 3]), 0x88e1bcb6ceaf5755);
    assert_eq!(round_seed(42), 0xe15f07fef55b9454);
    assert_eq!(to_le_bytes(0x0102030405060708), vec![8, 7, 6, 5, 4, 3, 2, 1]);
}

#[test]
fn next_replaces_state_with_drawn_value() {
    let mut state = 42u64.to_le_bytes().to_vec();
    let v = next(&mut state);
    assert_eq!(v, 0xe15f07fef55b9454);
    assert_eq!(state, v.to_le_bytes().to_vec());
    let w = next(&mut state);
    assert_ne!(v, w);
}
