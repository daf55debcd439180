use majiang::hand::{add_group, contains_card, dedup_cards, remove_cards, same_cards, sort_cards};
use majiang::notice::MessageType;

#[test]
fn sorting_cards() {
    let mut v = vec![9, 3, 7, 3, 0];
    sort_cards(&mut v);
    assert_eq!(v, vec![0, 3, 3, 7, 9]);
    let mut e: Vec<u8> = vec![];
    sort_cards(&mut e);
    assert!(e.is_empty());
}

#[test]
fn card_list_helpers() {
    assert!(same_cards(&vec![1, 2], &vec![1, 2]));
    assert!(!same_cards(&vec![1, 2], &vec![2, 1]));
    assert!(!same_cards(&vec![1], &vec![1, 2]));
    assert!(contains_card(&vec![4, 5], 5));
    assert!(!contains_card(&vec![4, 5], 6));
    assert_eq!(dedup_cards(&vec![3, 1, 3, 2, 1]), vec![3, 1, 2]);
    assert_eq!(remove_cards(&vec![1, 2, 3, 2], &vec![2]), vec![1, 3]);
}

#[test]
fn groups_are_kept_once() {
    let mut g: Vec<Vec<u8>> = vec![vec![0, 4, 8]];
    add_group(&mut g, vec![0, 4, 8]);
    assert_eq!(g.len(), 1);
    add_group(&mut g, vec![1, 2, 3]);
    assert_eq!(g, vec![vec![0, 4, 8], vec![1, 2, 3]]);
}

#[test]
fn notice_kinds() {
    assert_ne!(MessageType::NEW_RECV, MessageType::NEW_POP);
}
