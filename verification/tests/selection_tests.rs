use akc::errors::AkcError;
use akc::friend::Friend;
use akc::friend::FriendCommand;
use akc::friend::FriendCommandBase;
use akc::memory::Memory;
use akc::memory::MemoryCommand;
use akc::memory::MemoryCommandBase;
use akc::roster::AkcConfig;
use akc::roster::FriendInfo;
use akc::roster::Level;
use akc::selection::filter_config_by_enough_chance;
use akc::selection::suggest;
use akc::selection::suggest_from;

fn friend(name: &str, chance: i64, level: Level) -> FriendInfo {
    FriendInfo { name: name.to_owned(), chance, level }
}

#[test]
fn test_filter_config_by_enough_chance() {
    let config = AkcConfig {
        friends: vec![
            friend("John", 50_000_000, Level::Aji),
            friend("Doe", 250_000, Level::Ki),
            friend("Jane", 0, Level::Chi),
        ],
    };

    let filtered_config = filter_config_by_enough_chance(&config);
    assert_eq!(filtered_config.len(), 2);
}

// Selection exclusion: a friend below the floor (0.1 points against a floor
// of 0.25) is never suggested, however often the draw is repeated.
#[test]
fn below_floor_friend_is_never_suggested() {
    let config = AkcConfig {
        friends: vec![
            friend("High", 50_000_000, Level::Aji),
            friend("Low", 100_000, Level::Chi),
        ],
    };
    let eligible = filter_config_by_enough_chance(&config);
    assert_eq!(eligible.len(), 1);
    assert_eq!(eligible[0].name, "High");
    for _ in 0..200 {
        assert_eq!(suggest(&config).unwrap(), "High");
    }
}

#[test]
fn empty_roster_has_no_suggestion() {
    let config = AkcConfig { friends: Vec::new() };
    assert!(matches!(suggest(&config), Err(AkcError::NoEligibleFriend)));
}

// The floor is inclusive: a chance of exactly one text reduction stays
// eligible.
#[test]
fn floor_chance_is_still_eligible() {
    let config = AkcConfig { friends: vec![friend("Edge", 250_000, Level::Chi)] };
    assert_eq!(suggest(&config).unwrap(), "Edge");
}

// The draw walks cumulative mass intervals: with weights 2.0 and 1.0, picks
// below 2.0 points land on the first friend, the rest on the second.
#[test]
fn suggest_from_is_deterministic_in_the_pick() {
    let config = AkcConfig {
        friends: vec![
            friend("First", 2_000_000, Level::Ki),
            friend("Second", 1_000_000, Level::Chi),
        ],
    };
    assert_eq!(suggest_from(&config, 250_000, 0).unwrap(), "First");
    assert_eq!(suggest_from(&config, 250_000, 1_999_999).unwrap(), "First");
    assert_eq!(suggest_from(&config, 250_000, 2_000_000).unwrap(), "Second");
    assert_eq!(suggest_from(&config, 250_000, 2_999_999).unwrap(), "Second");
}

// A negative chance is zero probability mass, not an error; with no positive
// mass at all among the eligible, selection reports degenerate weights.
#[test]
fn non_positive_eligible_weights_are_degenerate() {
    let config = AkcConfig {
        friends: vec![
            friend("Minus", -2_000_000, Level::Aji),
            friend("Zero", 0, Level::Ki),
        ],
    };
    let result = suggest_from(&config, -5_000_000, 0);
    assert!(matches!(result, Err(AkcError::DegenerateWeights)));
}

// A friend with negative chance among eligible ones is never drawn: its mass
// interval is empty.
#[test]
fn negative_chance_is_never_drawn() {
    let config = AkcConfig {
        friends: vec![
            friend("Minus", -2_000_000, Level::Aji),
            friend("Plus", 1_000_000, Level::Ki),
        ],
    };
    for pick in [0u128, 500_000, 999_999] {
        assert_eq!(suggest_from(&config, -5_000_000, pick).unwrap(), "Plus");
    }
}

#[test]
fn friend_command_adds_at_the_commanded_tier() {
    let mut config = AkcConfig { friends: Vec::new() };
    let args = Friend {
        command: FriendCommand::Ki(FriendCommandBase { name: "Ana".to_owned() }),
    };
    akc::friend::handle(&mut config, args).unwrap();
    assert_eq!(config.friends[0].name, "Ana");
    assert_eq!(config.friends[0].chance, 5_000_000);
    assert_eq!(config.friends[0].level, Level::Ki);
    let again = Friend {
        command: FriendCommand::Chi(FriendCommandBase { name: "Ana".to_owned() }),
    };
    assert!(matches!(
        akc::friend::handle(&mut config, again),
        Err(AkcError::DuplicateName(_))
    ));
}

#[test]
fn memory_command_applies_the_commanded_event() {
    let config = AkcConfig {
        friends: vec![
            friend("A", 50_000_000, Level::Aji),
            friend("B", 5_000_000, Level::Ki),
            friend("C", 1_000_000, Level::Chi),
        ],
    };
    let args = Memory {
        command: MemoryCommand::Hangout(MemoryCommandBase { names: vec!["B".to_owned()] }),
    };
    let updated = akc::memory::handle(&config, &args).unwrap();
    let chances: Vec<i64> = updated.friends.iter().map(|f| f.chance).collect();
    assert_eq!(chances, vec![51_960_750, 3_000_000, 1_039_215]);
}

#[test]
fn suggest_command_draws_an_eligible_friend() {
    let config = AkcConfig { friends: vec![friend("Only", 1_000_000, Level::Chi)] };
    assert_eq!(akc::suggest::handle(&config).unwrap(), "Only");
}
