use majiang::model::{face_of_id, Majiang};
use majiang::operation::{Action, MajiangOperation};

fn op(a: Action, on_hand: Vec<u8>, target: u8) -> MajiangOperation {
    MajiangOperation { op: a, on_hand, target }
}

fn full_faces() -> Vec<Majiang> {
    (0u8..112).map(face_of_id).collect()
}

#[test]
fn priorities_rank_the_answers() {
    assert_eq!(Action::Pop.priority(), 0);
    assert_eq!(Action::Chi.priority(), 1);
    assert_eq!(Action::Peng.priority(), 2);
    assert_eq!(Action::Gang.priority(), 3);
    assert_eq!(Action::Hu.priority(), 4);
    assert_eq!(Action::ZiMo.priority(), 5);
    assert_eq!(Action::DealNextCard.priority(), 0);
}

#[test]
fn action_codes_round_trip() {
    let all = [
        Action::Pop,
        Action::Chi,
        Action::Peng,
        Action::Gang,
        Action::Hu,
        Action::ZiMo,
        Action::QiangJin,
        Action::QingYiSe,
        Action::JinQue,
        Action::JinLong,
        Action::DealBeginCard,
        Action::DealNextCard,
    ];
    for (i, a) in all.iter().enumerate() {
        assert_eq!(a.code(), (i + 1) as i8);
        assert_eq!(Action::from_code(a.code()), Some(*a));
    }
    assert_eq!(Action::from_code(0), None);
    assert_eq!(Action::from_code(13), None);
    assert_eq!(Action::from_code(-1), None);
}

#[test]
fn pop_card_names_the_card() {
    let o = MajiangOperation::pop_card(17).unwrap();
    assert_eq!(o.op, Action::Pop);
    assert_eq!(o.on_hand, vec![17]);
    assert_eq!(o.target, 17);
}

#[test]
fn peng_takes_the_first_two_of_the_kind() {
    let o = MajiangOperation::get_peng_op(&vec![0, 5, 1, 2], 3).unwrap();
    assert_eq!(o.op, Action::Peng);
    assert_eq!(o.on_hand, vec![0, 1]);
    assert_eq!(o.target, 3);
    assert!(MajiangOperation::get_peng_op(&vec![0, 5], 3).is_none());
}

#[test]
fn gang_takes_the_first_three_of_the_kind() {
    let o = MajiangOperation::get_gang_op(&vec![0, 1, 9, 2], 3).unwrap();
    assert_eq!(o.op, Action::Gang);
    assert_eq!(o.on_hand, vec![0, 1, 2]);
    assert_eq!(o.target, 3);
    assert!(MajiangOperation::get_gang_op(&vec![0, 1], 3).is_none());
}

#[test]
fn chi_offers_each_shape_in_order() {
    let ops = MajiangOperation::get_chi_op(&vec![0, 4, 12, 16], 8).unwrap();
    assert_eq!(ops.len(), 3);
    assert!(ops.iter().all(|o| o.op == Action::Chi && o.target == 8));
    assert_eq!(ops[0].on_hand, vec![12, 16]);
    assert_eq!(ops[1].on_hand, vec![4, 12]);
    assert_eq!(ops[2].on_hand, vec![4, 0]);
}

#[test]
fn chi_does_not_cross_a_suit() {
    let ops = MajiangOperation::get_chi_op(&vec![4, 8, 32], 0).unwrap();
    assert_eq!(ops.len(), 1);
    assert_eq!(ops[0].on_hand, vec![4, 8]);
    assert!(MajiangOperation::get_chi_op(&vec![28, 24], 36).is_none());
    assert!(MajiangOperation::get_chi_op(&vec![100, 104], 108).is_none());
    assert!(MajiangOperation::get_chi_op(&vec![], 8).is_none());
}

#[test]
fn same_card_ignores_the_target_itself() {
    assert!(MajiangOperation::check_same_card(&vec![0, 5], 1));
    assert!(!MajiangOperation::check_same_card(&vec![1], 1));
    assert!(!MajiangOperation::check_same_card(&vec![4], 1));
}

#[test]
fn neighbors_stay_in_the_suit() {
    assert!(MajiangOperation::check_neighbor_card(&vec![4], 0));
    assert!(!MajiangOperation::check_neighbor_card(&vec![8], 0));
    assert!(MajiangOperation::check_neighbor_card(&vec![28], 32));
    assert!(!MajiangOperation::check_neighbor_card(&vec![36], 32));
    assert!(MajiangOperation::check_neighbor_card(&vec![8], 12));
    assert!(MajiangOperation::check_neighbor_card(&vec![16], 12));
    assert!(!MajiangOperation::check_neighbor_card(&vec![20], 12));
    assert!(!MajiangOperation::check_neighbor_card(&vec![104], 108));
}

#[test]
fn advised_pop_is_the_first_isolated_card() {
    assert_eq!(MajiangOperation::select_advised_pop_card(&vec![0, 1, 20, 50]), Some(20));
    assert_eq!(MajiangOperation::select_advised_pop_card(&vec![0, 1]), None);
    assert_eq!(MajiangOperation::select_advised_pop_card(&vec![]), None);
}

#[test]
fn operation_text() {
    let faces = full_faces();
    assert_eq!(op(Action::Chi, vec![0, 4], 8).to_string(&faces), "CHI:1-W||2-W");
    assert_eq!(op(Action::Peng, vec![36, 37], 38).to_string(&faces), "PENG:1-T||1-T");
    assert_eq!(op(Action::Gang, vec![72, 73, 74], 75).to_string(&faces), "GANG:1-B||1-B||1-B");
    assert_eq!(op(Action::Pop, vec![3], 3).to_string(&faces), "");
}

#[test]
fn equal_compares_action_and_target() {
    assert!(op(Action::Peng, vec![0, 1], 2).equal(&op(Action::Peng, vec![0, 3], 2)));
    assert!(!op(Action::Peng, vec![0, 1], 2).equal(&op(Action::Peng, vec![0, 1], 3)));
    assert!(!op(Action::Peng, vec![0, 1], 2).equal(&op(Action::Gang, vec![0, 1], 2)));
}

#[test]
fn winning_hands_are_a_pair_and_melds() {
    assert!(MajiangOperation::check_win(&vec![0, 1, 4, 8, 12]));
    assert!(MajiangOperation::check_win(&vec![0, 1]));
    assert!(MajiangOperation::check_win(&vec![0, 1, 2, 4, 8]));
    assert!(MajiangOperation::check_win(&vec![
        0, 1, 4, 8, 12, 16, 20, 24, 36, 37, 38, 72, 76, 80
    ]));
    assert!(!MajiangOperation::check_win(&vec![0, 4, 9]));
    assert!(!MajiangOperation::check_win(&vec![0, 1, 4, 12]));
    assert!(!MajiangOperation::check_win(&vec![]));
}

#[test]
fn melds_cover_the_cards() {
    assert!(MajiangOperation::all_in_seq(&vec![]));
    assert!(!MajiangOperation::all_in_seq(&vec![0, 4]));
    assert!(MajiangOperation::all_in_seq(&vec![0, 4, 8]));
    assert!(MajiangOperation::all_in_seq(&vec![0, 1, 2]));
    assert!(MajiangOperation::all_in_seq(&vec![0, 4, 9]));
    assert!(!MajiangOperation::all_in_seq(&vec![0, 4, 12]));
    assert!(MajiangOperation::all_in_seq(&vec![0, 4, 8, 40, 41, 42]));
}

#[test]
fn all_groups_of_three() {
    assert_eq!(MajiangOperation::get_all_seq(&vec![0, 4, 8]), Some(vec![vec![0, 4, 8]]));
    assert_eq!(MajiangOperation::get_all_seq(&vec![0, 4]), None);
    let groups = MajiangOperation::get_all_seq(&vec![0, 1, 2, 4]).unwrap();
    assert!(groups.contains(&vec![0, 1, 2]));
    assert!(groups.iter().all(|g| g.len() == 3));
}

#[test]
fn winning_hands_have_two_more_than_groups_of_three() {
    assert!(!MajiangOperation::check_win(&vec![0, 1, 4, 8]));
    assert!(!MajiangOperation::check_win(&vec![0, 1, 4, 8, 12, 16]));
    assert!(MajiangOperation::check_win(&vec![0, 1, 4, 8, 12, 16, 20, 24]));
}

#[test]
fn winning_depends_only_on_the_ids_held() {
    let a = vec![0, 1, 4, 8, 12];
    let b = vec![12, 8, 4, 1, 0, 0, 12];
    assert_eq!(MajiangOperation::check_win(&a), MajiangOperation::check_win(&b));
    assert!(MajiangOperation::check_win(&b));
    assert_eq!(MajiangOperation::check_win(&vec![0, 4, 8]), MajiangOperation::check_win(&vec![8, 8, 4, 0]));
}
