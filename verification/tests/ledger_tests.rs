use akc::ledger::MemoryInfo;
use akc::ledger::MemoryKind;
use akc::ledger::deserialize_memory_names;
use akc::ledger::kind_from_str;
use akc::ledger::kind_label;
use akc::ledger::last_memory_id;
use akc::ledger::serialize_memory_names;

#[test]
fn test_serialize_memory_names() {
    let names = vec!["A".to_owned(), "B".to_owned()];
    assert_eq!(serialize_memory_names(&names), "A\nB");
}

#[test]
fn test_deserialize_memory_names() {
    assert_eq!(
        deserialize_memory_names("A\nB"),
        vec!["A".to_owned(), "B".to_owned()]
    );
}

#[test]
fn empty_column_decodes_to_no_names() {
    assert!(deserialize_memory_names("").is_empty());
    assert_eq!(serialize_memory_names(&Vec::new()), "");
}

#[test]
fn names_round_trip_through_the_column() {
    let names = vec!["Ana".to_owned(), "Bea".to_owned(), "Cy".to_owned()];
    assert_eq!(deserialize_memory_names(&serialize_memory_names(&names)), names);
}

#[test]
fn kind_labels_round_trip() {
    for kind in [
        MemoryKind::Hangout,
        MemoryKind::VideoCall,
        MemoryKind::Call,
        MemoryKind::Text,
    ] {
        assert_eq!(kind_from_str(&kind_label(kind)), Some(kind));
    }
    assert_eq!(kind_label(MemoryKind::VideoCall), "video-call");
    assert_eq!(kind_from_str(&"letter".to_owned()), None);
}

#[test]
fn last_memory_id_names_the_most_recent_entry() {
    assert_eq!(last_memory_id(&Vec::new()), None);
    let memories = vec![
        MemoryInfo { id: 3, kind: MemoryKind::Call, names: vec!["A".to_owned()] },
        MemoryInfo { id: 8, kind: MemoryKind::Text, names: vec!["B".to_owned()] },
    ];
    assert_eq!(last_memory_id(&memories), Some(8));
}
