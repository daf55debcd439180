use majiang::operation::{Action, MajiangOperation};
use majiang::state::{GameState, MajiangPlayerState, StateType};

#[test]
fn player_hand_is_kept_in_ascending_order() {
    let mut p = MajiangPlayerState::new();
    assert!(p.on_hand_card_id().is_empty());
    p.add_card(&[5, 3, 9]);
    assert_eq!(p.on_hand_card_id(), vec![3, 5, 9]);
    assert!(p.has_card(3));
    p.pop_card(3);
    assert_eq!(p.on_hand_card_id(), vec![5, 9]);
    assert!(!p.has_card(3));
    assert_eq!(p.on_recv_now, None);
}

#[test]
fn drawing_one_card_marks_it_received() {
    let mut p = MajiangPlayerState::new();
    p.add_card(&[7]);
    assert_eq!(p.on_recv_now, Some(7));
    p.add_card(&[8, 9]);
    assert_eq!(p.on_recv_now, Some(7));
}

#[test]
fn an_operation_lays_a_sorted_group() {
    let mut p = MajiangPlayerState::new();
    p.add_card(&[2, 1, 9]);
    assert_eq!(p.group_card_id(), None);
    p.execute_op(&MajiangOperation { op: Action::Peng, on_hand: vec![2, 1], target: 3 });
    assert_eq!(p.on_hand_card_id(), vec![9]);
    assert_eq!(p.group_card_id(), Some(vec![vec![1, 2, 3]]));
    assert!(p.get_win_op().is_none());
}

#[test]
fn state_names() {
    assert_eq!(StateType::DealCard.to_string(), "DEAL_CARD");
    assert_eq!(StateType::WaitPop.to_string(), "WAIT_POP");
    assert_eq!(StateType::WaitResponse.to_string(), "WAIT_RESPONSE");
    assert_eq!(StateType::WinOver.to_string(), "WIN_OVER");
    assert_eq!(StateType::OutOfCard.to_string(), "OUT_OF_CARD");
}

#[test]
fn init_lays_a_full_shuffled_set() {
    let mut s = GameState::new(4);
    assert_eq!(s.win_player, 5);
    s.init();
    assert_eq!(s.cards.len(), 112);
    let mut ids = s.hide_card.clone();
    ids.sort();
    assert_eq!(ids, (0u8..112).collect::<Vec<u8>>());
    // a shuffle that kept the order would show the ids in order
    assert_ne!(s.hide_card, (0u8..112).collect::<Vec<u8>>());
}

#[test]
fn dealing_gives_thirteen_cards_each() {
    let mut s = GameState::new(4);
    s.init();
    s.deal_card();
    assert_eq!(s.player_state.len(), 4);
    assert_eq!(s.cur_card_ix, 52);
    for q in 0..4 {
        let mut expect: Vec<u8> = s.hide_card[13 * q..13 * q + 13].to_vec();
        expect.sort();
        assert_eq!(s.get_player_state(q).on_hand_card_id(), expect);
    }
    let next = s.hide_card[52];
    let card = s.deal_next_card();
    assert_eq!(card, next);
    assert_eq!(s.cur_step, 1);
    assert_eq!(s.cur_state, StateType::WaitPop);
    assert!(s.get_player_state(0).on_hand_card_id().contains(&card));
    assert_eq!(s.get_player_state(0).on_recv_now, Some(card));
}

#[test]
fn turn_passes_round_the_table() {
    let mut s = GameState::new(4);
    assert_eq!(s.cur_player(), 0);
    s.next_player();
    s.next_player();
    s.next_player();
    assert_eq!(s.cur_player(), 3);
    s.next_player();
    assert_eq!(s.cur_player(), 0);
}

#[test]
fn pop_and_win() {
    let mut s = GameState::new(4);
    s.init();
    s.deal_card();
    let card = s.get_player_state(0).on_hand_card_id()[0];
    s.do_pop_card(0, &MajiangOperation::pop_card(card).unwrap());
    assert_eq!(s.cur_pop_card, card);
    assert_eq!(s.cur_state, StateType::WaitResponse);
    assert!(!s.get_player_state(0).on_hand_card_id().contains(&card));
    assert!(!s.over());
    s.execute_win_op(2, &MajiangOperation { op: Action::Hu, on_hand: vec![], target: card });
    assert_eq!(s.win_player, 2);
    assert_eq!(s.cur_player, 2);
    assert!(s.over());
}

#[test]
fn popping_a_card_not_held_changes_nothing() {
    let mut s = GameState::new(4);
    s.init();
    s.deal_card();
    let held = s.get_player_state(1).on_hand_card_id()[0];
    let before = s.get_player_state(0).on_hand_card_id();
    s.do_pop_card(0, &MajiangOperation::pop_card(held).unwrap());
    assert_eq!(s.cur_step, 0);
    assert_eq!(s.cur_state, StateType::DealCard);
    assert_eq!(s.get_player_state(0).on_hand_card_id(), before);
}

#[test]
fn answers_to_a_pop() {
    let mut s = GameState::new(4);
    s.player_state = vec![
        MajiangPlayerState::new(),
        MajiangPlayerState::new(),
        MajiangPlayerState::new(),
        MajiangPlayerState::new(),
    ];
    s.player_state[1].add_card(&[0, 1, 4, 12, 16]);
    s.player_state[2].add_card(&[2, 3, 40]);
    s.cur_pop_card = 8;
    s.cur_player = 0;
    let next = s.get_player_rsp_for_pop_card(1).unwrap();
    assert_eq!(next.len(), 3);
    assert!(next.iter().all(|o| o.op == Action::Chi));
    assert!(s.get_player_rsp_for_pop_card(2).is_none());
    s.cur_pop_card = 1;
    let other = s.get_player_rsp_for_pop_card(2).unwrap();
    assert_eq!(other.len(), 1);
    assert_eq!(other[0].op, Action::Peng);
    assert_eq!(other[0].on_hand, vec![2, 3]);
}
