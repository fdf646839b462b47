use akc::errors::AkcError;
use akc::ledger::MemoryInfo;
use akc::ledger::MemoryKind;
use akc::projection::apply_memory_to_config;
use akc::projection::decrease_chances_by_reduction;
use akc::projection::get_config_total_chance;
use akc::projection::get_unit_added_chance;
use akc::projection::get_unknown_names;
use akc::projection::increase_chances_by_unit;
use akc::projection::rebuild_chances_from_memories;
use akc::projection::undo_memory;
use akc::projection::reduction_from_kind;
use akc::projection::reset_chances_to_level_defaults;
use akc::roster::AkcConfig;
use akc::roster::FriendInfo;
use akc::roster::Level;

fn friend(name: &str, chance: i64, level: Level) -> FriendInfo {
    FriendInfo { name: name.to_owned(), chance, level }
}

fn names(list: &[&str]) -> Vec<String> {
    list.iter().map(|n| (*n).to_owned()).collect()
}

fn chances(config: &AkcConfig) -> Vec<i64> {
    config.friends.iter().map(|f| f.chance).collect()
}

#[test]
fn test_get_unit_added_chance_when_total_is_zero() {
    assert_eq!(get_unit_added_chance(1_000_000, 0), 0);
}

#[test]
fn test_get_unit_added_chance_when_total_is_positive() {
    assert_eq!(get_unit_added_chance(1_000_000, 2_000_000), 500_000);
}

#[test]
fn test_get_unknown_names() {
    let config = AkcConfig {
        friends: vec![
            friend("John", 50_000_000, Level::Aji),
            friend("Doe", 5_000_000, Level::Ki),
        ],
    };

    let list = names(&["John", "Doe", "Jane"]);
    let unknown_names = get_unknown_names(&config, &list);

    assert_eq!(unknown_names.len(), 1);
    assert_eq!(unknown_names[0], "Jane");
}

#[test]
fn test_get_config_total_chance() {
    let config = AkcConfig {
        friends: vec![
            friend("John", 50_000_000, Level::Aji),
            friend("Doe", 5_000_000, Level::Ki),
            friend("Doe2", 1_000_000, Level::Chi),
        ],
    };

    let total_chance = get_config_total_chance(&config, &names(&["Doe"]));
    assert_eq!(total_chance, 50_000_000 + 1_000_000);
}

#[test]
fn test_increase_chances_by_unit() {
    let mut config = AkcConfig {
        friends: vec![
            friend("John", 50_000_000, Level::Aji),
            friend("Doe", 5_000_000, Level::Ki),
            friend("Doe2", 1_000_000, Level::Chi),
        ],
    };

    // A unit of 0.1 in micro-units.
    increase_chances_by_unit(&mut config, 100_000, &names(&["Doe"]));
    assert_eq!(config.friends[0].chance, 50_000_000 + 5_000_000);
    assert_eq!(config.friends[1].chance, 5_000_000);
    assert_eq!(config.friends[2].chance, 1_000_000 + 100_000);
}

#[test]
fn test_decrease_chances_by_reduction() {
    let mut config = AkcConfig {
        friends: vec![
            friend("John", 50_000_000, Level::Aji),
            friend("Doe", 5_000_000, Level::Ki),
            friend("Doe2", 1_000_000, Level::Chi),
        ],
    };

    // A reduction of 1.0 in micro-units.
    decrease_chances_by_reduction(&mut config, 1_000_000, &names(&["Doe"]));
    assert_eq!(config.friends[0].chance, 50_000_000);
    assert_eq!(config.friends[1].chance, 5_000_000 - 1_000_000);
    assert_eq!(config.friends[2].chance, 1_000_000);
}

#[test]
fn reduction_constants_match_kinds() {
    assert_eq!(reduction_from_kind(MemoryKind::Hangout), 2_000_000);
    assert_eq!(reduction_from_kind(MemoryKind::VideoCall), 1_000_000);
    assert_eq!(reduction_from_kind(MemoryKind::Call), 500_000);
    assert_eq!(reduction_from_kind(MemoryKind::Text), 250_000);
}

#[test]
fn reset_restores_tier_defaults() {
    let mut config = AkcConfig {
        friends: vec![
            friend("A", 123, Level::Aji),
            friend("B", -456, Level::Ki),
            friend("C", 0, Level::Chi),
        ],
    };
    reset_chances_to_level_defaults(&mut config);
    assert_eq!(chances(&config), vec![50_000_000, 5_000_000, 1_000_000]);
}

// The scenario of the weight model: a hangout with B on the default roster.
// Baseline 51.0, unit gain 2.0 / 51 (39215 micro-units after truncation), so
// A gains 50 times the unit, C gains once the unit, and B loses 2.0.
#[test]
fn hangout_with_one_friend_redistributes() {
    let config = AkcConfig {
        friends: vec![
            friend("A", 50_000_000, Level::Aji),
            friend("B", 5_000_000, Level::Ki),
            friend("C", 1_000_000, Level::Chi),
        ],
    };
    let updated = apply_memory_to_config(&config, MemoryKind::Hangout, &names(&["B"])).unwrap();
    assert_eq!(chances(&updated), vec![51_960_750, 3_000_000, 1_039_215]);
    // The original roster is untouched.
    assert_eq!(chances(&config), vec![50_000_000, 5_000_000, 1_000_000]);
}

// Undo of the scenario: deleting the only ledger entry and replaying the
// empty remainder restores exactly the tier defaults.
#[test]
fn undo_after_hangout_restores_exactly() {
    let config = AkcConfig {
        friends: vec![
            friend("A", 50_000_000, Level::Aji),
            friend("B", 5_000_000, Level::Ki),
            friend("C", 1_000_000, Level::Chi),
        ],
    };
    let logged = apply_memory_to_config(&config, MemoryKind::Hangout, &names(&["B"])).unwrap();
    let remaining: Vec<MemoryInfo> = Vec::new();
    let rebuilt = rebuild_chances_from_memories(&logged, &remaining).unwrap();
    assert_eq!(chances(&rebuilt), vec![50_000_000, 5_000_000, 1_000_000]);
}

// Loss conservation: the participants together lose exactly
// reduction * participant count, whatever the roster size.
#[test]
fn participants_lose_exactly_the_total_reduction() {
    let config = AkcConfig {
        friends: vec![
            friend("A", 50_000_000, Level::Aji),
            friend("B", 5_000_000, Level::Ki),
            friend("C", 1_000_000, Level::Chi),
            friend("D", 7_250_000, Level::Ki),
        ],
    };
    let updated = apply_memory_to_config(&config, MemoryKind::Call, &names(&["B", "D"])).unwrap();
    let lost = (config.friends[1].chance - updated.friends[1].chance)
        + (config.friends[3].chance - updated.friends[3].chance);
    assert_eq!(lost, 500_000 * 2);
}

// Non-conservation is expected: with a baseline away from the tier defaults,
// the roster total strictly changes — the gain is anchored to tier defaults,
// not to current weights.
#[test]
fn total_weight_is_not_conserved() {
    let config = AkcConfig {
        friends: vec![
            friend("A", 10_000_000, Level::Aji),
            friend("B", 5_000_000, Level::Ki),
        ],
    };
    let updated = apply_memory_to_config(&config, MemoryKind::Text, &names(&["B"])).unwrap();
    // Baseline 10.0, unit 0.025, A gains 50 * 0.025 = 1.25 while B loses 0.25.
    assert_eq!(chances(&updated), vec![11_250_000, 4_750_000]);
    let before: i64 = chances(&config).iter().sum();
    let after: i64 = chances(&updated).iter().sum();
    assert_ne!(before, after);
}

// Degenerate baseline: with no positive chance outside the event, no gain is
// distributed and non-participants keep their weights bit for bit.
#[test]
fn degenerate_baseline_distributes_no_gain() {
    let config = AkcConfig {
        friends: vec![
            friend("A", 0, Level::Aji),
            friend("B", 5_000_000, Level::Ki),
        ],
    };
    let updated = apply_memory_to_config(&config, MemoryKind::Hangout, &names(&["B"])).unwrap();
    assert_eq!(chances(&updated), vec![0, 3_000_000]);
}

#[test]
fn empty_participants_are_rejected() {
    let config = AkcConfig { friends: vec![friend("A", 50_000_000, Level::Aji)] };
    let result = apply_memory_to_config(&config, MemoryKind::Text, &Vec::new());
    assert!(matches!(result, Err(AkcError::EmptyParticipants)));
}

#[test]
fn unknown_participants_are_reported_by_name() {
    let config = AkcConfig { friends: vec![friend("A", 50_000_000, Level::Aji)] };
    let result = apply_memory_to_config(&config, MemoryKind::Text, &names(&["B", "A", "C"]));
    match result {
        Err(AkcError::UnknownParticipant(unknown)) => {
            assert_eq!(unknown, names(&["B", "C"]));
        }
        _ => panic!("expected UnknownParticipant"),
    }
}

#[test]
fn weight_overflow_leaves_roster_unchanged() {
    let config = AkcConfig {
        friends: vec![
            friend("A", i64::MIN + 100, Level::Aji),
            friend("B", 5_000_000, Level::Ki),
        ],
    };
    let result = apply_memory_to_config(&config, MemoryKind::Text, &names(&["A"]));
    assert!(matches!(result, Err(AkcError::WeightOverflow)));
    assert_eq!(chances(&config), vec![i64::MIN + 100, 5_000_000]);
}

// Determinism: replaying the same ledger from the reset point of rosters that
// hold the same friends gives bit-identical weights, whatever chances the
// rosters held before.
#[test]
fn replay_is_deterministic() {
    let memories = vec![
        MemoryInfo { id: 1, kind: MemoryKind::Hangout, names: names(&["B"]) },
        MemoryInfo { id: 2, kind: MemoryKind::Text, names: names(&["A", "C"]) },
    ];
    let first = AkcConfig {
        friends: vec![
            friend("A", 50_000_000, Level::Aji),
            friend("B", 5_000_000, Level::Ki),
            friend("C", 1_000_000, Level::Chi),
        ],
    };
    let second = AkcConfig {
        friends: vec![
            friend("A", -3, Level::Aji),
            friend("B", 99, Level::Ki),
            friend("C", 7, Level::Chi),
        ],
    };
    let from_first = rebuild_chances_from_memories(&first, &memories).unwrap();
    let from_second = rebuild_chances_from_memories(&second, &memories).unwrap();
    let again = rebuild_chances_from_memories(&first, &memories).unwrap();
    assert_eq!(chances(&from_first), chances(&from_second));
    assert_eq!(chances(&from_first), chances(&again));
}

// Undo correctness on a longer ledger: logging one more event and then
// replaying without it equals replaying the original ledger.
#[test]
fn undo_equals_replay_of_shorter_ledger() {
    let config = AkcConfig {
        friends: vec![
            friend("A", 50_000_000, Level::Aji),
            friend("B", 5_000_000, Level::Ki),
        ],
    };
    let ledger = vec![MemoryInfo { id: 1, kind: MemoryKind::Call, names: names(&["A"]) }];
    let projected = rebuild_chances_from_memories(&config, &ledger).unwrap();
    // Log one more event, then undo it: delete it and replay the rest.
    let logged = apply_memory_to_config(&projected, MemoryKind::Hangout, &names(&["B"])).unwrap();
    let undone = rebuild_chances_from_memories(&logged, &ledger).unwrap();
    assert_eq!(chances(&undone), chances(&projected));
}

// The undo step names the most recent ledger entry and replays the rest.
#[test]
fn undo_step_drops_only_the_last_event() {
    let config = AkcConfig {
        friends: vec![
            friend("A", 50_000_000, Level::Aji),
            friend("B", 5_000_000, Level::Ki),
        ],
    };
    let memories = vec![
        MemoryInfo { id: 1, kind: MemoryKind::Call, names: names(&["A"]) },
        MemoryInfo { id: 2, kind: MemoryKind::Hangout, names: names(&["B"]) },
    ];
    let (rebuilt, deleted_id) = undo_memory(&config, &memories).unwrap();
    assert_eq!(deleted_id, 2);
    let shorter = vec![MemoryInfo { id: 1, kind: MemoryKind::Call, names: names(&["A"]) }];
    let expected = rebuild_chances_from_memories(&config, &shorter).unwrap();
    assert_eq!(chances(&rebuilt.unwrap()), chances(&expected));
    assert!(undo_memory(&config, &Vec::new()).is_none());
}

#[test]
fn replay_fails_fast_on_missing_participant() {
    let config = AkcConfig { friends: vec![friend("A", 50_000_000, Level::Aji)] };
    let memories = vec![
        MemoryInfo { id: 4, kind: MemoryKind::Text, names: names(&["A"]) },
        MemoryInfo { id: 7, kind: MemoryKind::Call, names: names(&["Removed"]) },
        MemoryInfo { id: 9, kind: MemoryKind::Call, names: names(&["A"]) },
    ];
    let result = rebuild_chances_from_memories(&config, &memories);
    assert!(matches!(result, Err(AkcError::ReplayInconsistency(7))));
}
