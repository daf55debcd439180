use majiang::game::{first_choice, merge_choice, op_from_message, Game, PendingOp, Player, StartGame};
use majiang::message::{GameBasicInfo, GameOperation, Header, MsgType, RoundInfoType};
use majiang::operation::{Action, MajiangOperation};

fn players(ids: &[i64]) -> Vec<Player> {
    ids.iter().enumerate().map(|(i, &id)| Player { id, pos: i, score: 100 }).collect()
}

fn op_msg(round: i32, step: i64, op_type: i8, cards: Vec<u8>, target: u8) -> GameOperation {
    GameOperation {
        header: Header { msg_type: MsgType::GameOp.value(), len: 0 },
        game_info: GameBasicInfo::new(round, step, 0, 0, [0u8; 6]),
        op_type,
        target,
        provide_cards: cards,
    }
}

#[test]
fn new_game_pads_the_room_id() {
    let g = Game::new(players(&[11, 12, 13, 14]), 1, "ABC".to_string());
    assert_eq!(g.room_id_buf, [65, 66, 67, 0, 0, 0]);
    assert_eq!(g.base_score, 5);
    assert_eq!(g.cur_round, 1);
    assert_eq!(g.get_cur_banker_pos(), 0);
    assert_eq!(g.state.win_player, 5);
    assert_eq!(g.get_win_user_id(), None);
}

#[test]
fn scores_without_winner_cost_the_banker() {
    let g = Game::new(players(&[11, 12, 13, 14]), 1, "R".to_string());
    assert_eq!(g.get_user_score(&11), -15);
    assert_eq!(g.get_user_score(&12), 5);
    assert_eq!(g.get_user_score(&13), 5);
    assert_eq!(g.get_user_score(&14), 5);
    assert_eq!(g.get_user_score(&99), 0);
}

#[test]
fn scores_with_a_winner_add_up_to_zero() {
    let mut g = Game::new(players(&[11, 12, 13, 14]), 1, "R".to_string());
    g.state.win_player = 2;
    assert_eq!(g.get_win_user_id(), Some(13));
    let total: i32 = [11, 12, 13, 14].iter().map(|id| g.get_user_score(id)).sum();
    assert_eq!(total, 0);
    assert_eq!(g.get_user_score(&13), 15);
    assert_eq!(g.get_user_score(&11), -5);
}

#[test]
fn seats_by_user_id() {
    let g = Game::new(players(&[11, 12, 13, 14]), 1, "R".to_string());
    assert_eq!(g.get_user_pos(13), 2);
    assert_eq!(g.get_user_pos(99), 0);
}

#[test]
fn only_messages_of_this_step_count() {
    let g = Game::new(players(&[11, 12, 13, 14]), 1, "R".to_string());
    assert!(g.check_user_op_valid(11, &op_msg(1, 0, 1, vec![], 0)));
    assert!(!g.check_user_op_valid(11, &op_msg(2, 0, 1, vec![], 0)));
    assert!(!g.check_user_op_valid(11, &op_msg(1, 3, 1, vec![], 0)));
}

#[test]
fn message_to_operation() {
    let o = op_from_message(&op_msg(1, 0, 3, vec![4, 5], 6)).unwrap();
    assert_eq!(o.op, Action::Peng);
    assert_eq!(o.on_hand, vec![4, 5]);
    assert_eq!(o.target, 6);
    assert!(op_from_message(&op_msg(1, 0, 0, vec![], 6)).is_none());
    assert!(op_from_message(&op_msg(1, 0, 13, vec![], 6)).is_none());
}

#[test]
fn reset_keeps_or_passes_the_bank() {
    let mut g = Game::new(players(&[11, 12, 13, 14]), 1, "R".to_string());
    g.reset(false, players(&[11, 12, 13, 14]), 2);
    assert_eq!(g.base_score, 6);
    assert_eq!(g.cur_banker, 0);
    assert_eq!(g.cur_round, 2);
    g.reset(true, players(&[11, 12, 13, 14]), 3);
    assert_eq!(g.base_score, 5);
    assert_eq!(g.cur_banker, 1);
    g.reset(true, players(&[11, 12, 13, 14]), 4);
    g.reset(true, players(&[11, 12, 13, 14]), 5);
    g.reset(true, players(&[11, 12, 13, 14]), 6);
    assert_eq!(g.cur_banker, 0);
    g.state.execute_win_op(1, &MajiangOperation { op: Action::ZiMo, on_hand: vec![], target: 0 });
    g.reset(false, players(&[11, 12, 13, 14]), 7);
    assert_eq!(g.state.cur_state, majiang::state::StateType::DealCard);
    assert_eq!(g.state.win_method, Action::Hu);
    assert_eq!(g.state.cur_pop_card, 0);
}

#[test]
fn init_deals_the_table() {
    let mut g = Game::new(players(&[11, 12, 13, 14]), 1, "R".to_string());
    g.init();
    assert_eq!(g.state.player_state.len(), 4);
    assert_eq!(g.state.cur_card_ix, 52);
    for q in 0..4 {
        assert_eq!(g.state.get_player_state(q).on_hand_card_id().len(), 13);
    }
}

fn pending(player: usize, a: Action, target: u8) -> PendingOp {
    PendingOp { player, op: MajiangOperation { op: a, on_hand: vec![], target } }
}

#[test]
fn offered_operations_are_ranked() {
    let mut g = Game::new(players(&[11, 12, 13, 14]), 1, "R".to_string());
    g.other_ops = vec![
        None,
        Some(vec![MajiangOperation { op: Action::Chi, on_hand: vec![1, 2], target: 3 }]),
        Some(vec![
            MajiangOperation { op: Action::Hu, on_hand: vec![], target: 3 },
            MajiangOperation { op: Action::Peng, on_hand: vec![1, 2], target: 3 },
        ]),
        None,
    ];
    let ops = g.collect_possible_ops();
    let order: Vec<(usize, Action)> = ops.iter().map(|p| (p.player, p.op.op)).collect();
    assert_eq!(order, vec![(1, Action::Chi), (2, Action::Peng), (2, Action::Hu)]);
}

#[test]
fn a_choice_replaces_the_offers_of_its_seat() {
    let mut possible = vec![pending(1, Action::Chi, 3), pending(2, Action::Peng, 3), pending(2, Action::Hu, 3)];
    let first = merge_choice(&mut possible, 2, MajiangOperation { op: Action::Pop, on_hand: vec![], target: 3 });
    let order: Vec<(usize, Action)> = possible.iter().map(|p| (p.player, p.op.op)).collect();
    assert_eq!(order, vec![(2, Action::Pop), (1, Action::Chi)]);
    assert!(first);
    let chosen = first_choice(&possible).unwrap();
    assert_eq!(chosen.0, 2);
    assert_eq!(chosen.1.op, Action::Pop);
    let mut possible = vec![pending(1, Action::Chi, 3), pending(2, Action::Peng, 3)];
    assert!(!merge_choice(&mut possible, 2, MajiangOperation { op: Action::Peng, on_hand: vec![], target: 3 }));
    let order: Vec<(usize, Action)> = possible.iter().map(|p| (p.player, p.op.op)).collect();
    assert_eq!(order, vec![(1, Action::Chi), (2, Action::Peng)]);
    assert!(first_choice(&Vec::new()).is_none());
}

#[test]
fn the_current_player_without_choice_pops_an_isolated_card() {
    let mut g = Game::new(players(&[11, 12, 13, 14]), 1, "R".to_string());
    g.init();
    g.cur_player_ops = None;
    let o = g.mock_recv_cur_player_op();
    assert_eq!(o.op, Action::Pop);
    assert_eq!(o.on_hand, vec![o.target]);
    assert!(g.state.get_player_state(0).on_hand_card_id().contains(&o.target));
    g.cur_player_ops = Some(vec![
        MajiangOperation { op: Action::Pop, on_hand: vec![1], target: 1 },
        MajiangOperation { op: Action::ZiMo, on_hand: vec![1, 2], target: 7 },
    ]);
    let o = g.mock_recv_cur_player_op();
    assert_eq!(o.op, Action::ZiMo);
    assert_eq!(o.target, 7);
}

#[test]
fn others_without_choice_take_their_first_offer() {
    let mut g = Game::new(players(&[11, 12, 13, 14]), 1, "R".to_string());
    g.other_ops = vec![
        None,
        Some(vec![MajiangOperation { op: Action::Chi, on_hand: vec![1, 2], target: 3 }]),
        None,
        Some(vec![
            MajiangOperation { op: Action::Peng, on_hand: vec![4, 5], target: 3 },
            MajiangOperation { op: Action::Hu, on_hand: vec![], target: 3 },
        ]),
    ];
    g.recv_other_ops = vec![None, None, None, None];
    g.mock_recv_other_player_op();
    assert!(g.recv_other_ops[0].is_none());
    assert_eq!(g.recv_other_ops[1].as_ref().unwrap().op, Action::Chi);
    assert!(g.recv_other_ops[2].is_none());
    assert_eq!(g.recv_other_ops[3].as_ref().unwrap().op, Action::Peng);
}

#[test]
fn a_game_starts_at_one_hundred() {
    let sg = StartGame::new("R1".to_string(), vec![1, 2, 3, 4]);
    assert_eq!(sg.get_player_score(), vec![100, 100, 100, 100]);
    assert_eq!(sg.cur_round, 1);
    assert_eq!(sg.end_score, 0);
    assert!(!sg.over());
    for (i, p) in sg.players.iter().enumerate() {
        assert_eq!(p.pos, i);
    }
}

#[test]
fn settling_a_round_keeps_the_total() {
    let mut sg = StartGame::new("R1".to_string(), vec![1, 2, 3, 4]);
    let round = sg.new_round();
    let start = sg.round_start(&round);
    assert_eq!(start.round_info_type, RoundInfoType::RoundStart.value());
    assert_eq!(start.header.len, 67);
    assert_eq!(start.user_score_change, vec![0, 0, 0, 0]);
    assert_eq!(start.cur_banker_user_id, 1);
    let over = sg.settle_round(&round);
    assert_eq!(over.round_info_type, RoundInfoType::RoundOver.value());
    assert_eq!(over.user_score_change, vec![-15, 5, 5, 5]);
    assert_eq!(over.user_cur_score, vec![85, 105, 105, 105]);
    assert_eq!(sg.get_player_score().iter().sum::<i32>(), 400);
    assert!(!sg.next_banker);
}

#[test]
fn a_won_round_passes_the_bank_from_then_on() {
    let mut sg = StartGame::new("R1".to_string(), vec![1, 2, 3, 4]);
    let mut round = sg.new_round();
    round.state.win_player = 3;
    sg.settle_round(&round);
    assert!(sg.next_banker);
    assert_eq!(sg.get_player_score(), vec![95, 95, 95, 115]);
    sg.next_round(&mut round);
    assert_eq!(sg.cur_round, 2);
    assert_eq!(round.cur_banker, 1);
    assert_eq!(round.base_score, 5);
    assert_eq!(round.cur_round, 1);
    sg.settle_round(&round);
    assert!(sg.next_banker);
}

#[test]
fn the_game_ends_when_a_score_runs_out() {
    let mut sg = StartGame::new("R1".to_string(), vec![1, 2, 3, 4]);
    sg.players[2].score = 0;
    assert!(sg.over());
}
