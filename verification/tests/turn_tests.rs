use majiang::game::{Game, Player};
use majiang::message::{GameBasicInfo, GameOperation, Header, MsgType};
use majiang::operation::{Action, MajiangOperation};
use majiang::turn::{AnswerStep, Outbound, TurnStep};

fn table() -> Game {
    let players: Vec<Player> =
        [11i64, 12, 13, 14].iter().enumerate().map(|(i, &id)| Player { id, pos: i, score: 100 }).collect();
    let mut g = Game::new(players, 1, "ROOM01".to_string());
    g.init();
    g
}

fn update_of(m: &Outbound) -> (i64, &majiang::message::GameUpdate) {
    match m {
        Outbound::Update(uid, u) => (*uid, u),
        Outbound::Offer(_, _) => panic!("an offer where an update was expected"),
    }
}

#[test]
fn a_round_opens_with_each_hand() {
    let g = table();
    let msgs = g.begin_round();
    assert_eq!(msgs.len(), 4);
    for (i, m) in msgs.iter().enumerate() {
        let (uid, u) = update_of(m);
        assert_eq!(uid, 11 + i as i64);
        assert_eq!(u.header.msg_type, MsgType::GameUpdate.value());
        assert_eq!(u.header.len, 55);
        assert_eq!(u.op_type, Action::DealBeginCard.code());
        assert_eq!(u.game_info.user_pos, i as u8);
        assert_eq!(u.game_info.room_id, *b"ROOM01");
        assert_eq!(u.provide_cards, g.state.get_player_state(i).on_hand_card_id());
    }
}

#[test]
fn a_draw_is_told_to_the_table() {
    let mut g = table();
    let before = g.state.get_player_state(0).on_hand_card_id();
    let card = g.state.hide_card[52];
    let msgs = g.deal_turn();
    assert!(msgs.len() == 4 || msgs.len() == 5);
    assert_eq!(g.state.cur_step, 1);
    let (uid, u) = update_of(&msgs[0]);
    assert_eq!(uid, 11);
    assert_eq!(u.target, card);
    assert_eq!(u.provide_cards, before);
    assert_eq!(u.header.len as usize, 42 + before.len());
    assert_eq!(u.game_info.cur_game_step, 1);
    for i in 1..4 {
        let (uid, u) = update_of(&msgs[i]);
        assert_eq!(uid, 11 + i as i64);
        assert_eq!(u.target, 0);
        assert!(u.provide_cards.is_empty());
        assert_eq!(u.header.len, 42);
        assert_eq!(u.game_info.user_id, 11);
    }
    assert_eq!(msgs.len() == 5, g.cur_player_ops.is_some());
}

#[test]
fn a_pop_offers_the_answers() {
    let mut g = table();
    g.deal_turn();
    let card = g.state.get_player_state(0).on_hand_card_id()[0];
    let step = g.cur_player_choice(MajiangOperation::pop_card(card).unwrap());
    let msgs = match step {
        TurnStep::WaitOthers(m) => m,
        _ => panic!("a pop waits for answers"),
    };
    assert_eq!(g.state.cur_pop_card, card);
    assert_eq!(g.state.cur_step, 2);
    assert!(!g.state.get_player_state(0).on_hand_card_id().contains(&card));
    assert_eq!(g.other_ops.len(), 4);
    assert!(g.other_ops[0].is_none());
    let answering = g.other_ops.iter().filter(|o| o.is_some()).count();
    assert_eq!(msgs.len(), 4 + answering);
    for i in 0..4 {
        let (uid, u) = update_of(&msgs[i]);
        assert_eq!(uid, 11 + i as i64);
        assert_eq!(u.op_type, Action::Pop.code());
        assert_eq!(u.target, card);
        assert_eq!(u.header.len, 43);
    }
    for m in msgs[4..].iter() {
        match m {
            Outbound::Offer(uid, pack) => {
                let seat = (*uid - 11) as usize;
                let ops = g.other_ops[seat].as_ref().unwrap();
                assert_eq!(pack.operations.len(), ops.len());
                assert_eq!(pack.header.msg_type, MsgType::GameOpPack.value());
                assert_eq!(pack.header.len as usize, pack.size());
            },
            Outbound::Update(_, _) => panic!("an update where an offer was expected"),
        }
    }
}

#[test]
fn other_moves_of_the_current_player_change_nothing() {
    let mut g = table();
    g.deal_turn();
    let step = g.cur_player_choice(MajiangOperation { op: Action::Gang, on_hand: vec![], target: 0 });
    assert!(matches!(step, TurnStep::KeepWaiting));
    assert_eq!(g.state.cur_step, 1);
}

#[test]
fn zimo_ends_the_round() {
    let mut g = table();
    g.deal_turn();
    let step = g.cur_player_choice(MajiangOperation { op: Action::ZiMo, on_hand: vec![], target: 0 });
    match step {
        TurnStep::RoundOver(m) => assert_eq!(m.len(), 4),
        _ => panic!("a zimo ends the round"),
    }
    assert_eq!(g.state.win_player, 0);
    assert!(g.state.over());
    assert_eq!(g.get_win_user_id(), Some(11));
}

#[test]
fn no_answer_passes_the_turn() {
    let mut g = table();
    g.deal_turn();
    let card = g.state.get_player_state(0).on_hand_card_id()[0];
    g.cur_player_choice(MajiangOperation::pop_card(card).unwrap());
    let step = g.answer_step(None);
    assert!(matches!(step, AnswerStep::NextTurn));
    assert_eq!(g.state.cur_player, 1);
}

#[test]
fn a_taken_card_gives_the_turn() {
    let mut g = table();
    g.deal_turn();
    let card = g.state.get_player_state(0).on_hand_card_id()[0];
    g.cur_player_choice(MajiangOperation::pop_card(card).unwrap());
    let step = g.answer_step(Some((2, MajiangOperation { op: Action::Peng, on_hand: vec![], target: card })));
    match step {
        AnswerStep::SameTurn(m) => {
            assert_eq!(m.len(), 4);
            let (_, u) = update_of(&m[0]);
            assert_eq!(u.game_info.user_pos, 2);
            assert_eq!(u.game_info.user_id, 13);
        },
        _ => panic!("a peng gives the turn"),
    }
    assert_eq!(g.state.cur_player, 2);
    assert!(g.cur_player_ops.is_none());
    let step = g.answer_step(Some((3, MajiangOperation { op: Action::Hu, on_hand: vec![], target: card })));
    assert!(matches!(step, AnswerStep::RoundOver(_)));
    assert_eq!(g.state.win_player, 3);
}

fn msg(round: i32, step: i64, op_type: i8) -> GameOperation {
    GameOperation {
        header: Header { msg_type: MsgType::GameOp.value(), len: 0 },
        game_info: GameBasicInfo::new(round, step, 0, 0, [0u8; 6]),
        op_type,
        target: 9,
        provide_cards: vec![9],
    }
}

#[test]
fn messages_of_the_current_player() {
    let mut g = table();
    g.deal_turn();
    let o = g.cur_player_message(11, &msg(1, 1, 1)).unwrap();
    assert_eq!(o.op, Action::Pop);
    assert_eq!(o.target, 9);
    assert!(g.cur_player_message(11, &msg(1, 0, 1)).is_none());
    assert!(g.cur_player_message(11, &msg(1, 1, 0)).is_none());
}

#[test]
fn messages_of_the_answering_players() {
    let mut g = table();
    g.deal_turn();
    let card = g.state.get_player_state(0).on_hand_card_id()[0];
    g.cur_player_choice(MajiangOperation::pop_card(card).unwrap());
    let mut possible = g.collect_possible_ops();
    let stale = g.other_player_message(&mut possible, 13, &msg(1, 1, 1));
    assert!(!stale);
    let decided = g.other_player_message(&mut possible, 13, &msg(1, 2, 1));
    assert!(decided);
    assert_eq!(possible[0].player, 2);
    assert_eq!(possible[0].op.op, Action::Pop);
}
