use majiang::message::Code;
use majiang::room::{first_index, GameRoomMng, RoomType};

fn mng() -> GameRoomMng<u32> {
    GameRoomMng::new(10, "redis://127.0.0.1:6379/".to_string())
}

fn open(m: &mut GameRoomMng<u32>, user: i64, id: &str) -> String {
    let (room, code) = m.create_room(user, id.to_string()).unwrap();
    assert_eq!(code, Code::CreateOk);
    room
}

#[test]
fn room_type_number() {
    assert_eq!(RoomType::MAJIANG.value(), 1);
}

#[test]
fn random_room_ids_are_six_room_letters() {
    let m = mng();
    for _ in 0..20 {
        let id = m.random_room_id();
        assert_eq!(id.chars().count(), 6);
        assert!(id.chars().all(|c| "QAZWSXEDCRFVTGB1234567890".contains(c)));
    }
}

#[test]
fn creating_a_room_seats_its_creator() {
    let mut m = mng();
    let id = open(&mut m, 1, "ABCDEF");
    assert_eq!(id, "ABCDEF");
    assert_eq!(m.get_room_user_id(&id), Some(vec![1, -1, -1, -1]));
    assert_eq!(m.get_user_room_id(1), Some("ABCDEF".to_string()));
    assert_eq!(m.create_room(1, "XYZXYZ".to_string()), Some(("ABCDEF".to_string(), Code::CreateFail)));
    assert_eq!(m.create_room(2, "ABCDEF".to_string()), None);
    assert_eq!(m.get_user_room_id(2), None);
}

#[test]
fn too_many_rooms_refuse_a_new_one() {
    let mut m: GameRoomMng<u32> = GameRoomMng::new(0, String::new());
    open(&mut m, 1, "AAAAAA");
    assert_eq!(m.create_room(2, "BBBBBB".to_string()), Some((String::new(), Code::CreateFail)));
}

#[test]
fn joining_takes_the_first_free_seat() {
    let mut m = mng();
    let id = open(&mut m, 1, "ABCDEF");
    assert_eq!(m.join_room(2, &id), (id.clone(), Code::JoinOk));
    assert_eq!(m.join_room(2, &id), (String::new(), Code::AlreadyInRoom));
    assert_eq!(m.join_room(3, &"NOROOM".to_string()), (String::new(), Code::RoomInexist));
    assert_eq!(m.join_room(3, &id).1, Code::JoinOk);
    assert_eq!(m.join_room(4, &id).1, Code::JoinOk);
    assert_eq!(m.join_room(5, &id), (String::new(), Code::RoomFull));
    assert_eq!(m.get_room_user_id(&id), Some(vec![1, 2, 3, 4]));
    assert_eq!(m.get_user_room_id(4), Some(id.clone()));
}

#[test]
fn readiness_of_a_room() {
    let mut m = mng();
    let id = open(&mut m, 1, "ABCDEF");
    for u in 2..5 {
        m.join_room(u, &id);
    }
    assert_eq!(m.all_ready(&id), Some(false));
    assert_eq!(m.ready_room(1, &id), (id.clone(), Code::ReadyOk));
    assert_eq!(m.ready_room(9, &id), (String::new(), Code::NotInRoom));
    assert_eq!(m.ready_room(1, &"OTHER1".to_string()), (String::new(), Code::WrongRoom));
    assert_eq!(m.all_ready(&id), Some(false));
    for u in 2..5 {
        assert_eq!(m.ready_room(u, &id).1, Code::ReadyOk);
    }
    assert_eq!(m.all_ready(&id), Some(true));
    assert_eq!(m.cancel_ready(4, &id), (id.clone(), Code::CancelReadyOk));
    assert_eq!(m.all_ready(&id), Some(false));
    assert_eq!(m.all_ready(&"NOROOM".to_string()), None);
}

#[test]
fn a_game_handle_is_kept_once_all_are_ready() {
    let mut m = mng();
    let id = open(&mut m, 1, "ABCDEF");
    m.set_room_notifier(&id, 7);
    assert!(!m.room_has_start(&id));
    for u in 2..5 {
        m.join_room(u, &id);
    }
    for u in 1..5 {
        m.ready_room(u, &id);
    }
    m.set_room_notifier(&id, 7);
    assert!(m.room_has_start(&id));
    assert_eq!(m.get_room_notifier(&id), Some(7));
    m.set_room_notifier(&id, 8);
    assert_eq!(m.get_room_notifier(&id), Some(8));
    m.room_game_over(&id);
    assert!(!m.room_has_start(&id));
    assert_eq!(m.get_room_notifier(&id), None);
    assert_eq!(m.all_ready(&id), Some(false));
}

#[test]
fn leaving_frees_the_seat() {
    let mut m = mng();
    let id = open(&mut m, 1, "ABCDEF");
    m.join_room(2, &id);
    m.ready_room(2, &id);
    assert_eq!(m.leave_room(2, &id), (id.clone(), Code::ReadyOk));
    assert_eq!(m.get_room_user_id(&id), Some(vec![1, -1, -1, -1]));
    assert_eq!(m.get_user_room_id(2), Some(id.clone()));
    assert_eq!(m.leave_room(7, &id), (String::new(), Code::NotInRoom));
}

#[test]
fn snapshot_of_a_room() {
    let mut m = mng();
    let id = open(&mut m, 1, "ABCDEF");
    m.join_room(2, &id);
    m.ready_room(2, &id);
    let s = m.get_room_snapshot(&id).unwrap();
    assert_eq!(s.user_pos, vec![1, 2, -1, -1]);
    assert_eq!(s.user_ready_status, vec![0, 1, 0, 0]);
    assert_eq!(s.room_id, b"ABCDEF".to_vec());
    assert_eq!(s.header.len, 71);
    assert_eq!(s.header.len as usize, s.size());
    assert!(m.get_room_snapshot(&"NOROOM".to_string()).is_none());
}

#[test]
fn first_index_of_a_value() {
    assert_eq!(first_index(&vec![5, -1, 7, -1], -1), Some(1));
    assert_eq!(first_index(&vec![5, 6], -1), None);
}

#[test]
fn active_rooms_are_listed() {
    let mut m = mng();
    open(&mut m, 1, "ABCDEF");
    open(&mut m, 2, "GHIJKL");
    let rooms = m.active_rooms();
    assert_eq!(rooms.len(), 2);
    assert_eq!(rooms[1].room_id, "GHIJKL");
    assert_eq!(rooms[1].max_player, 4);
}
