use majiang::message::{
    AuthenResult, Code, GameBasicInfo, GameOperation, GameOperationPack, GameOver, GameRoundUpdate,
    GameSnapshot, GameUpdate, Header, MsgType, OpType, QueryGameSnapshot, RoomManage,
    RoomManageResult, RoomSnapshot, RoomUpdate, AUTHORIZED_INFO_SIZE, HEADER_SIZE, MAX_MSG_SIZE,
};

fn info() -> GameBasicInfo {
    GameBasicInfo::new(1, 2, 3, 4, [0u8; 6])
}

#[test]
fn wire_constants() {
    assert_eq!(HEADER_SIZE, 5);
    assert_eq!(AUTHORIZED_INFO_SIZE, 8);
    assert_eq!(MAX_MSG_SIZE, 1024);
}

#[test]
fn headers_start_at_their_own_length() {
    let h = Header::new(MsgType::GameOp);
    assert_eq!(h.msg_type, 20);
    assert_eq!(h.len, 5);
}

#[test]
fn kinds_round_trip() {
    for t in [
        MsgType::RoomOp,
        MsgType::RoomManageResult,
        MsgType::RoomSnapshot,
        MsgType::RoomUpdate,
        MsgType::GameOp,
        MsgType::GameOpPack,
        MsgType::GameUpdate,
        MsgType::GameRoundUpdate,
        MsgType::QueryGameState,
        MsgType::GameSnapshot,
        MsgType::GameOver,
        MsgType::Authen,
    ] {
        assert_eq!(MsgType::from_value(t.value()), Some(t));
    }
    assert_eq!(MsgType::from_value(0), None);
    assert_eq!(MsgType::Authen.value(), 6);
    assert_eq!(OpType::from_value(OpType::CancelReady.value()), Some(OpType::CancelReady));
    assert_eq!(OpType::CreateRoom.value(), 1);
    assert_eq!(OpType::from_value(7), None);
    assert_eq!(Code::CreateOk.value(), 1100);
    assert_eq!(Code::CancelReadyOk.value(), 1600);
    assert_eq!(Code::AuthenInExist.value(), 6002);
}

#[test]
fn login_answers() {
    let ok = AuthenResult::login_answer(true);
    assert_eq!(ok.header.msg_type, 6);
    assert_eq!(ok.header.len, 9);
    assert_eq!(ok.code, 6000);
    assert_eq!(ok.size(), 9);
    assert_eq!(AuthenResult::login_answer(false).code, 6001);
}

#[test]
fn operation_sizes() {
    let o = GameOperation {
        header: Header::new(MsgType::GameOp),
        game_info: info(),
        op_type: 1,
        target: 2,
        provide_cards: vec![1, 2, 3],
    };
    assert_eq!(o.size(), 45);
    let o2 = GameOperation {
        header: Header::new(MsgType::GameOp),
        game_info: info(),
        op_type: 1,
        target: 2,
        provide_cards: vec![],
    };
    let pack = GameOperationPack { header: Header::new(MsgType::GameOpPack), operations: vec![o, o2] };
    assert_eq!(pack.size(), 13 + 45 + 42);
    let u = GameUpdate {
        header: Header::new(MsgType::GameUpdate),
        game_info: info(),
        op_type: 1,
        target: 2,
        provide_cards: vec![1],
    };
    assert_eq!(u.size(), 43);
}

#[test]
fn room_message_sizes() {
    let m = RoomManage { header: Header::new(MsgType::RoomOp), op_type: 1, user_id: 3, room_id: [0u8; 6] };
    assert_eq!(m.size(), 20);
    let r = RoomManageResult {
        header: Header::new(MsgType::RoomManageResult),
        op_type: 1,
        user_id: 3,
        code: 1100,
        room_id: vec![1, 2, 3, 4, 5, 6],
    };
    assert_eq!(r.size(), 32);
    let u = RoomUpdate { header: Header::new(MsgType::RoomUpdate), op_type: 2, user_id: 3, room_id: vec![1, 2] };
    assert_eq!(u.size(), 24);
    let s = RoomSnapshot {
        header: Header::new(MsgType::RoomSnapshot),
        user_pos: vec![1, 2, 3, 4],
        user_ready_status: vec![0, 1, 0, 1],
        room_id: vec![1, 2, 3, 4, 5, 6],
    };
    assert_eq!(s.size(), 71);
}

#[test]
fn game_message_sizes() {
    let r = GameRoundUpdate {
        header: Header::new(MsgType::GameRoundUpdate),
        round_info_type: 0,
        cur_round: 1,
        cur_banker_pos: 0,
        cur_banker_user_id: 1,
        user_cur_score: vec![100; 4],
        user_score_change: vec![0; 4],
    };
    assert_eq!(r.size(), 67);
    let q = QueryGameSnapshot { header: Header::new(MsgType::QueryGameState), user_id: 1 };
    assert_eq!(q.size(), 13);
    let o = GameOver {
        header: Header::new(MsgType::GameOver),
        room_id: vec![1, 2, 3, 4, 5, 6],
        cur_round: 3,
        user_cur_score: vec![100, 90, 110, 100],
    };
    assert_eq!(o.size(), 47);
    let snap = GameSnapshot {
        header: Header::new(MsgType::GameSnapshot),
        game_info: info(),
        user_id: 1,
        user_on_hand: vec![1, 2, 3],
        on_game_user_id: vec![1, 2, 3, 4],
        on_game_group_cards: vec![vec![vec![4, 5, 6]], vec![], vec![], vec![]],
    };
    assert_eq!(snap.size(), 142);
}
