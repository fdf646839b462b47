use akc::errors::AkcError;
use akc::roster::AkcConfig;
use akc::roster::FriendInfo;
use akc::roster::Level;
use akc::roster::is_name_duplicate;
use akc::roster::level_default_chance;
use akc::session::add_friend;
use akc::session::add_many_friends;
use akc::session::edit_friend;
use akc::session::list_friends;
use akc::session::make_friend;
use akc::session::level_from_str;
use akc::session::remove_friend;
use akc::session::search_friends;

fn friend(name: &str, chance: i64, level: Level) -> FriendInfo {
    FriendInfo { name: name.to_owned(), chance, level }
}

fn roster_names(config: &AkcConfig) -> Vec<String> {
    config.friends.iter().map(|f| f.name.clone()).collect()
}

#[test]
fn test_is_name_duplicate() {
    let config = AkcConfig {
        friends: vec![
            friend("John", 50_000_000, Level::Aji),
            friend("Doe", 5_000_000, Level::Ki),
        ],
    };

    assert!(is_name_duplicate(&config, &"John".to_owned()));
    assert!(is_name_duplicate(&config, &"Doe".to_owned()));
    assert!(!is_name_duplicate(&config, &"John Doe".to_owned()));
}

#[test]
fn level_labels_parse_and_reject() {
    assert_eq!(level_from_str(&"aji".to_owned()), Some(Level::Aji));
    assert_eq!(level_from_str(&"ki".to_owned()), Some(Level::Ki));
    assert_eq!(level_from_str(&"chi".to_owned()), Some(Level::Chi));
    assert_eq!(level_from_str(&"best".to_owned()), None);
}

#[test]
fn tier_defaults_are_fixed() {
    assert_eq!(level_default_chance(Level::Aji), 50_000_000);
    assert_eq!(level_default_chance(Level::Ki), 5_000_000);
    assert_eq!(level_default_chance(Level::Chi), 1_000_000);
}

#[test]
fn make_friend_uses_tier_default() {
    let made = make_friend("Ana".to_owned(), &"ki".to_owned()).unwrap();
    assert_eq!(made.name, "Ana");
    assert_eq!(made.chance, 5_000_000);
    assert_eq!(made.level, Level::Ki);
    assert!(make_friend("Ana".to_owned(), &"closest".to_owned()).is_none());
}

// Uniqueness invariant: a duplicate add is rejected and the roster is left
// exactly as it was.
#[test]
fn duplicate_add_is_rejected_and_changes_nothing() {
    let mut config = AkcConfig { friends: vec![friend("John", 50_000_000, Level::Aji)] };
    let result = add_friend(&mut config, friend("John", 1_000_000, Level::Chi));
    match result {
        Err(AkcError::DuplicateName(name)) => assert_eq!(name, "John"),
        _ => panic!("expected DuplicateName"),
    }
    assert_eq!(config.friends.len(), 1);
    assert_eq!(config.friends[0].chance, 50_000_000);
    assert_eq!(config.friends[0].level, Level::Aji);
}

#[test]
fn add_appends_the_friend() {
    let mut config = AkcConfig { friends: Vec::new() };
    add_friend(&mut config, friend("John", 50_000_000, Level::Aji)).unwrap();
    add_friend(&mut config, friend("Doe", 5_000_000, Level::Ki)).unwrap();
    assert_eq!(roster_names(&config), vec!["John".to_owned(), "Doe".to_owned()]);
}

#[test]
fn remove_deletes_exactly_the_named_friend() {
    let mut config = AkcConfig {
        friends: vec![
            friend("John", 50_000_000, Level::Aji),
            friend("Doe", 5_000_000, Level::Ki),
        ],
    };
    remove_friend(&mut config, &"John".to_owned()).unwrap();
    assert_eq!(roster_names(&config), vec!["Doe".to_owned()]);
    let missing = remove_friend(&mut config, &"John".to_owned());
    assert!(matches!(missing, Err(AkcError::UnknownName)));
    assert_eq!(config.friends.len(), 1);
}

#[test]
fn edit_renames_and_keeps_weight() {
    let mut config = AkcConfig {
        friends: vec![
            friend("John", 42_000_000, Level::Aji),
            friend("Doe", 5_000_000, Level::Ki),
        ],
    };
    edit_friend(&mut config, &"John".to_owned(), Some("Jon".to_owned()), None).unwrap();
    assert_eq!(config.friends[0].name, "Jon");
    assert_eq!(config.friends[0].chance, 42_000_000);
    assert_eq!(config.friends[0].level, Level::Aji);
}

#[test]
fn edit_retier_resets_to_new_default() {
    let mut config = AkcConfig { friends: vec![friend("John", 42_000_000, Level::Aji)] };
    edit_friend(&mut config, &"John".to_owned(), None, Some("chi".to_owned())).unwrap();
    assert_eq!(config.friends[0].level, Level::Chi);
    assert_eq!(config.friends[0].chance, 1_000_000);
}

#[test]
fn edit_with_no_changes_is_a_no_op() {
    let mut config = AkcConfig { friends: vec![friend("John", 42_000_000, Level::Aji)] };
    edit_friend(&mut config, &"John".to_owned(), None, None).unwrap();
    assert_eq!(config.friends[0].chance, 42_000_000);
}

#[test]
fn edit_rejects_unknown_name() {
    let mut config = AkcConfig { friends: vec![friend("John", 42_000_000, Level::Aji)] };
    let result = edit_friend(&mut config, &"Jane".to_owned(), Some("Janet".to_owned()), None);
    assert!(matches!(result, Err(AkcError::UnknownName)));
}

#[test]
fn edit_rejects_rename_onto_existing_name() {
    let mut config = AkcConfig {
        friends: vec![
            friend("John", 50_000_000, Level::Aji),
            friend("Doe", 5_000_000, Level::Ki),
        ],
    };
    let result = edit_friend(&mut config, &"John".to_owned(), Some("Doe".to_owned()), None);
    match result {
        Err(AkcError::DuplicateName(name)) => assert_eq!(name, "Doe"),
        _ => panic!("expected DuplicateName"),
    }
    assert_eq!(config.friends[0].name, "John");
}

#[test]
fn edit_rejects_unknown_tier_label() {
    let mut config = AkcConfig { friends: vec![friend("John", 42_000_000, Level::Aji)] };
    let result = edit_friend(&mut config, &"John".to_owned(), None, Some("closest".to_owned()));
    assert!(matches!(result, Err(AkcError::InvalidTier)));
    assert_eq!(config.friends[0].chance, 42_000_000);
}

#[test]
fn add_many_skips_duplicates_inside_the_batch() {
    let mut config = AkcConfig { friends: vec![friend("John", 50_000_000, Level::Aji)] };
    let batch = vec![
        "John".to_owned(),
        "Ana".to_owned(),
        "Ana".to_owned(),
        "Bea".to_owned(),
    ];
    let skipped = add_many_friends(&mut config, &"chi".to_owned(), &batch).unwrap();
    assert_eq!(skipped, vec!["John".to_owned(), "Ana".to_owned()]);
    assert_eq!(
        roster_names(&config),
        vec!["John".to_owned(), "Ana".to_owned(), "Bea".to_owned()]
    );
    assert_eq!(config.friends[1].chance, 1_000_000);
}

#[test]
fn add_many_rejects_empty_batch_and_bad_tier() {
    let mut config = AkcConfig { friends: Vec::new() };
    let empty = add_many_friends(&mut config, &"chi".to_owned(), &Vec::new());
    assert!(matches!(empty, Err(AkcError::EmptyParticipants)));
    let bad = add_many_friends(&mut config, &"closest".to_owned(), &vec!["Ana".to_owned()]);
    assert!(matches!(bad, Err(AkcError::InvalidTier)));
    assert!(config.friends.is_empty());
}

#[test]
fn list_filters_by_tier_in_roster_order() {
    let config = AkcConfig {
        friends: vec![
            friend("John", 50_000_000, Level::Aji),
            friend("Doe", 5_000_000, Level::Ki),
            friend("Ana", 6_000_000, Level::Ki),
        ],
    };
    let listed = list_friends(&config, Some(Level::Ki), false);
    let listed_names: Vec<String> = listed.iter().map(|f| f.name.clone()).collect();
    assert_eq!(listed_names, vec!["Doe".to_owned(), "Ana".to_owned()]);
}

#[test]
fn list_sorts_by_chance_descending() {
    let config = AkcConfig {
        friends: vec![
            friend("Low", 1_000_000, Level::Chi),
            friend("High", 50_000_000, Level::Aji),
            friend("Mid", 5_000_000, Level::Ki),
        ],
    };
    let listed = list_friends(&config, None, true);
    let listed_names: Vec<String> = listed.iter().map(|f| f.name.clone()).collect();
    assert_eq!(
        listed_names,
        vec!["High".to_owned(), "Mid".to_owned(), "Low".to_owned()]
    );
}

#[test]
fn search_matches_substrings_case_sensitively() {
    let config = AkcConfig {
        friends: vec![
            friend("Johnny", 50_000_000, Level::Aji),
            friend("john", 5_000_000, Level::Ki),
            friend("Ana", 1_000_000, Level::Chi),
        ],
    };
    let found = search_friends(&config, &"ohn".to_owned());
    let found_names: Vec<String> = found.iter().map(|f| f.name.clone()).collect();
    assert_eq!(found_names, vec!["Johnny".to_owned(), "john".to_owned()]);
    assert!(search_friends(&config, &"Zoe".to_owned()).is_empty());
    assert_eq!(search_friends(&config, &String::new()).len(), 3);
}
