use blob_store::lookup::{all_resolved, complete, empty_slots, record_matches};

#[test]
fn empty_slots_are_all_empty() {
    let slots: Vec<Option<u8>> = empty_slots(3);
    assert_eq!(slots, vec![None, None, None]);
    let none: Vec<Option<u8>> = empty_slots(0);
    assert!(none.is_empty());
}

#[test]
fn record_matches_fills_the_named_slots() {
    let mut slots: Vec<Option<char>> = empty_slots(4);
    record_matches(&mut slots, vec![(2, 'c'), (0, 'a')]);
    assert_eq!(slots, vec![Some('a'), None, Some('c'), None]);
}

#[test]
fn a_later_pair_replaces_an_earlier_one() {
    let mut slots: Vec<Option<char>> = vec![Some('x'), Some('y'), None];
    record_matches(&mut slots, vec![(0, 'a'), (2, 'b'), (0, 'c')]);
    assert_eq!(slots, vec![Some('c'), Some('y'), Some('b')]);
}

#[test]
fn recording_nothing_changes_nothing() {
    let mut slots: Vec<Option<char>> = vec![Some('x'), None];
    record_matches(&mut slots, vec![]);
    assert_eq!(slots, vec![Some('x'), None]);
}

#[test]
fn all_resolved_needs_every_slot() {
    assert!(all_resolved(&vec![Some(1u8), Some(2u8)]));
    assert!(!all_resolved(&vec![Some(1u8), None]));
    assert!(!all_resolved(&vec![None, Some(1u8)]));
    let none: Vec<Option<u8>> = vec![];
    assert!(all_resolved(&none));
}

#[test]
fn complete_is_all_or_nothing() {
    assert_eq!(complete(vec![Some(1u8), Some(2u8), Some(3u8)]), Some(vec![1u8, 2u8, 3u8]));
    assert_eq!(complete(vec![Some(1u8), None, Some(3u8)]), None);
    assert_eq!(complete(vec![None::<u8>]), None);
    assert_eq!(complete(Vec::<Option<u8>>::new()), Some(vec![]));
}
