use vstd::prelude::*;

use std::collections::HashMap;

use crate::message;
use crate::message::{Code, Header, MsgType, RoomSnapshot};
use crate::random;

verus! {

broadcast use vstd::std_specs::hash::group_hash_axioms;

/// The kinds of rooms.
#[derive(Clone, Copy, Debug, PartialEq, Eq, Structural)]
#[allow(non_camel_case_types)]
pub enum RoomType {
    MAJIANG,
}

impl RoomType {
    pub open spec fn spec_value(self) -> u8 {
        match self {
            RoomType::MAJIANG => 1,
        }
    }

    pub fn value(&self) -> (r: u8)
        ensures
            r == self.spec_value(),
    {
        match self {
            RoomType::MAJIANG => 1,
        }
    }
}

/// A room: its seats (a user id, or -1 for a free seat) and who is ready.
pub struct GameRoom {
    pub room_id: String,
    pub room_type: u8,
    pub room_state: u8,
    pub max_player: usize,
    pub players: Vec<i64>,
    pub readys: HashMap<i64, bool>,
}

/// The letters that room ids are made of.
pub open spec fn room_letters() -> Seq<char> {
    seq![
        'Q', 'A', 'Z', 'W', 'S', 'X', 'E', 'D', 'C', 'R', 'F', 'V', 'T', 'G', 'B', '1', '2', '3',
        '4', '5', '6', '7', '8', '9', '0',
    ]
}

/// `k` is the first index at which `s` holds `x`.
pub open spec fn first_at(s: Seq<i64>, x: i64, k: int) -> bool {
    &&& 0 <= k < s.len()
    &&& s[k] == x
    &&& forall|j: int| 0 <= j < k ==> s[j] != x
}

/// The readiness of the seats of a room: 1 for a taken seat whose user is ready, else 0.
pub open spec fn ready_marks(players: Seq<i64>, readys: Map<i64, bool>) -> Seq<u8> {
    Seq::new(
        players.len(),
        |k: int|
            if players[k] != -1 && readys.contains_key(players[k]) {
                1u8
            } else {
                0u8
            },
    )
}

/// The rooms of the server, who is in which room, and the rooms whose game has started,
/// each with the handle `N` through which its game is reached.
pub struct GameRoomMng<N> {
    redis_uri: String,
    letters: Vec<char>,
    act_rooms: Vec<GameRoom>,
    user_rooms: HashMap<i64, String>,
    start_game: Vec<(String, N)>,
    max_room_num: usize,
}

/// Appends the character `c` to `s`, by `String::push`, which its documentation says
/// appends the char to the end of the string.
#[verifier::external_body]
fn push_char(s: &mut String, c: char)
    ensures
        final(s)@ == old(s)@.push(c),
{
    s.push(c)
}

impl<N> GameRoomMng<N> {
    /// The active rooms.
    pub closed spec fn rooms(&self) -> Seq<GameRoom> {
        self.act_rooms@
    }

    /// The room of each user who is in one.
    pub closed spec fn user_room(&self) -> Map<i64, Seq<char>> {
        self.user_rooms@.map_values(|s: String| s@)
    }

    /// The rooms whose game has started, with the handle of the game.
    pub closed spec fn started(&self) -> Seq<(Seq<char>, N)> {
        self.start_game@.map_values(|e: (String, N)| (e.0@, e.1))
    }

    pub closed spec fn letters(&self) -> Seq<char> {
        self.letters@
    }

    pub closed spec fn max_rooms(&self) -> usize {
        self.max_room_num
    }

    pub closed spec fn redis_uri(&self) -> Seq<char> {
        self.redis_uri@
    }

    /// No two rooms share an id, every room has four seats, and no room is started twice.
    pub closed spec fn wf(&self) -> bool {
        &&& forall|i: int, j: int|
            0 <= i < j < self.act_rooms@.len() ==> #[trigger] self.act_rooms@[i].room_id@
                != #[trigger] self.act_rooms@[j].room_id@
        &&& forall|i: int| 0 <= i < self.act_rooms@.len() ==> #[trigger] self.act_rooms@[i].players@.len() == 4
        &&& forall|i: int, j: int|
            0 <= i < j < self.start_game@.len() ==> #[trigger] self.start_game@[i].0@
                != #[trigger] self.start_game@[j].0@
    }

    /// Some room has id `id`.
    pub open spec fn has_room(&self, id: Seq<char>) -> bool {
        exists|i: int| 0 <= i < self.rooms().len() && #[trigger] self.rooms()[i].room_id@ == id
    }

    /// The index of the room with id `id`.
    pub open spec fn room_ix(&self, id: Seq<char>) -> int {
        choose|i: int| 0 <= i < self.rooms().len() && #[trigger] self.rooms()[i].room_id@ == id
    }

    /// The game of the room with id `id` has started.
    pub open spec fn has_start(&self, id: Seq<char>) -> bool {
        exists|i: int| 0 <= i < self.started().len() && #[trigger] self.started()[i].0 == id
    }

    /// The index of the started game of the room with id `id`.
    pub open spec fn start_ix(&self, id: Seq<char>) -> int {
        choose|i: int| 0 <= i < self.started().len() && #[trigger] self.started()[i].0 == id
    }

    /// Nothing but the rooms differs from `other`.
    pub open spec fn same_but_rooms(&self, other: &Self) -> bool {
        &&& self.user_room() == other.user_room()
        &&& self.started() == other.started()
        &&& self.letters() == other.letters()
        &&& self.max_rooms() == other.max_rooms()
        &&& self.redis_uri() == other.redis_uri()
    }

    /// Nothing differs from `other`.
    pub open spec fn unchanged(&self, other: &Self) -> bool {
        &&& self.same_but_rooms(other)
        &&& self.rooms() == other.rooms()
    }

    /// Room `i` is the only room that differs from `other`, and only in its seats, now
    /// `players`, and in who is ready, now `readys`.
    pub open spec fn room_changed(
        &self,
        other: &Self,
        i: int,
        players: Seq<i64>,
        readys: Map<i64, bool>,
    ) -> bool {
        &&& self.rooms().len() == other.rooms().len()
        &&& forall|j: int|
            0 <= j < self.rooms().len() && j != i ==> #[trigger] self.rooms()[j] == other.rooms()[j]
        &&& self.rooms()[i].room_id@ == other.rooms()[i].room_id@
        &&& self.rooms()[i].room_type == other.rooms()[i].room_type
        &&& self.rooms()[i].room_state == other.rooms()[i].room_state
        &&& self.rooms()[i].max_player == other.rooms()[i].max_player
        &&& self.rooms()[i].players@ == players
        &&& self.rooms()[i].readys@ == readys
    }

    pub fn new(max_room_num: usize, redis_uri: String) -> (r: GameRoomMng<N>)
        ensures
            r.wf(),
            r.rooms().len() == 0,
            r.user_room() == Map::<i64, Seq<char>>::empty(),
            r.started().len() == 0,
            r.letters() == room_letters(),
            r.max_rooms() == max_room_num,
            r.redis_uri() == redis_uri@,
    {
        let letters: Vec<char> = vec![
            'Q', 'A', 'Z', 'W', 'S', 'X', 'E', 'D', 'C', 'R', 'F', 'V', 'T', 'G', 'B', '1', '2',
            '3', '4', '5', '6', '7', '8', '9', '0',
        ];
        let r = GameRoomMng {
            redis_uri: redis_uri,
            letters: letters,
            act_rooms: Vec::new(),
            user_rooms: HashMap::new(),
            start_game: Vec::new(),
            max_room_num: max_room_num,
        };
        assert(r.user_room() =~= Map::<i64, Seq<char>>::empty());
        assert(r.letters() =~= room_letters());
        r
    }

    /// The index of the room with id `room_id`, if there is one.
    fn find_room(&self, room_id: &String) -> (r: Option<usize>)
        requires
            self.wf(),
        ensures
            r is None <==> !self.has_room(room_id@),
            r matches Some(i) ==> i == self.room_ix(room_id@) && i < self.rooms().len(),
    {
        let n = self.act_rooms.len();
        for i in 0..n
            invariant
                n == self.act_rooms.len(),
                self.wf(),
                forall|j: int| 0 <= j < i ==> #[trigger] self.act_rooms@[j].room_id@ != room_id@,
        {
            if self.act_rooms[i].room_id == *room_id {
                proof {
                    assert(self.rooms()[i as int].room_id@ == room_id@);
                    let c = self.room_ix(room_id@);
                    if c != i {
                        if c < i {
                            assert(self.act_rooms@[c].room_id@ != self.act_rooms@[i as int].room_id@);
                        } else {
                            assert(self.act_rooms@[i as int].room_id@ != self.act_rooms@[c].room_id@);
                        }
                    }
                }
                return Some(i);
            }
        }
        None
    }

    /// The index of the started game of the room with id `room_id`, if there is one.
    fn find_start(&self, room_id: &String) -> (r: Option<usize>)
        requires
            self.wf(),
        ensures
            r is None <==> !self.has_start(room_id@),
            r matches Some(i) ==> i == self.start_ix(room_id@) && i < self.started().len(),
    {
        let n = self.start_game.len();
        for i in 0..n
            invariant
                n == self.start_game.len(),
                self.wf(),
                forall|j: int| 0 <= j < i ==> #[trigger] self.start_game@[j].0@ != room_id@,
        {
            if self.start_game[i].0 == *room_id {
                proof {
                    assert(self.started()[i as int].0 == room_id@);
                    let c = self.start_ix(room_id@);
                    if c != i {
                        if c < i {
                            assert(self.start_game@[c].0@ != self.start_game@[i as int].0@);
                        } else {
                            assert(self.start_game@[i as int].0@ != self.start_game@[c].0@);
                        }
                    }
                }
                return Some(i);
            }
        }
        proof {
            if self.has_start(room_id@) {
                let c = self.start_ix(room_id@);
                assert(self.start_game@[c].0@ == room_id@);
            }
        }
        None
    }

    /// A room id of six letters drawn by chance from the letters of the server.
    pub fn random_room_id(&self) -> (r: String)
        ensures
            r@.len() == if self.letters().len() > 0 {
                6nat
            } else {
                0nat
            },
            forall|k: int| 0 <= k < r@.len() ==> self.letters().contains(#[trigger] r@[k]),
    {
        let mut room_id = String::new();
        let mut rng = random::thread_rng();
        for _i in 0..6usize
            invariant
                room_id@.len() == if self.letters@.len() > 0 {
                    _i as int
                } else {
                    0
                },
                forall|k: int| 0 <= k < room_id@.len() ==> self.letters@.contains(#[trigger] room_id@[k]),
        {
            if let Some(c) = random::choose_one(self.letters.as_slice(), &mut rng) {
                push_char(&mut room_id, c);
            }
        }
        room_id
    }

    /// Whether all seats of the room with id `room_id` are ready, if there is such a room.
    pub fn all_ready(&self, room_id: &String) -> (r: Option<bool>)
        requires
            self.wf(),
        ensures
            r is None <==> !self.has_room(room_id@),
            r matches Some(b) ==> b == (self.rooms()[self.room_ix(room_id@)].readys@.len()
                == self.rooms()[self.room_ix(room_id@)].max_player),
    {
        if let Some(i) = self.find_room(room_id) {
            return Some(self.act_rooms[i].readys.len() == self.act_rooms[i].max_player);
        }
        None
    }

    /// The seats of the room with id `room_id`, if there is such a room.
    pub fn get_room_user_id(&self, room_id: &String) -> (r: Option<Vec<i64>>)
        requires
            self.wf(),
        ensures
            r is None <==> !self.has_room(room_id@),
            r matches Some(v) ==> v@ == self.rooms()[self.room_ix(room_id@)].players@,
    {
        if let Some(i) = self.find_room(room_id) {
            return Some(self.act_rooms[i].players.clone());
        }
        None
    }

    /// The room of the user, if the user is in one.
    pub fn get_user_room_id(&self, user_id: i64) -> (r: Option<String>)
        ensures
            r is None <==> !self.user_room().contains_key(user_id),
            r matches Some(s) ==> s@ == self.user_room()[user_id],
    {
        if let Some(room_id) = self.user_rooms.get(&user_id) {
            return Some(room_id.clone());
        }
        None
    }

    /// Whether the game of the room with id `room_id` has started.
    pub fn room_has_start(&self, room_id: &String) -> (r: bool)
        requires
            self.wf(),
        ensures
            r == self.has_start(room_id@),
    {
        self.find_start(room_id).is_some()
    }

    /// The seats of the room with id `room_id` and who is ready, if there is such a room.
    pub fn get_room_snapshot(&self, room_id: &String) -> (r: Option<RoomSnapshot>)
        requires
            self.wf(),
            message::snapshot_size(4, 4, vstd::utf8::encode_utf8(room_id@).len() as int)
                <= usize::MAX,
        ensures
            r is None <==> !self.has_room(room_id@),
            r matches Some(m) ==> {
                let room = self.rooms()[self.room_ix(room_id@)];
                &&& m.header.msg_type == MsgType::RoomSnapshot.spec_value()
                &&& m.header.len == message::snapshot_size(
                    4,
                    4,
                    vstd::utf8::encode_utf8(room_id@).len() as int,
                ) as i32
                &&& m.user_pos@ == room.players@
                &&& m.user_ready_status@ == ready_marks(room.players@, room.readys@)
                &&& m.room_id@ == vstd::utf8::encode_utf8(room_id@)
            },
    {
        if let Some(ix) = self.find_room(room_id) {
            let room = &self.act_rooms[ix];
            let mut readys: Vec<u8> = vec![0u8, 0u8, 0u8, 0u8];
            for i in 0..4usize
                invariant
                    room.players@.len() == 4,
                    readys@.len() == 4,
                    forall|k: int|
                        0 <= k < 4 ==> #[trigger] readys@[k] == if k < i {
                            ready_marks(room.players@, room.readys@)[k]
                        } else {
                            0u8
                        },
            {
                let user_id = room.players[i];
                if user_id != -1 {
                    if room.readys.contains_key(&user_id) {
                        readys.set(i, 1u8);
                    }
                }
            }
            assert(readys@ =~= ready_marks(room.players@, room.readys@));
            let bytes = room_id.as_str().as_bytes();
            let mut id_bytes: Vec<u8> = Vec::new();
            let n = bytes.len();
            for k in 0..n
                invariant
                    n == bytes@.len(),
                    id_bytes@ == bytes@.take(k as int),
            {
                id_bytes.push(bytes[k]);
                assert(id_bytes@ =~= bytes@.take(k + 1));
            }
            assert(id_bytes@ =~= bytes@);
            let mut msg = RoomSnapshot {
                header: Header::new(MsgType::RoomSnapshot),
                user_pos: room.players.clone(),
                user_ready_status: readys,
                room_id: id_bytes,
            };
            msg.header.len = msg.size() as i32;
            return Some(msg);
        }
        None
    }

    /// The active rooms, for display.
    pub fn active_rooms(&self) -> (r: &Vec<GameRoom>)
        ensures
            r@ == self.rooms(),
    {
        &self.act_rooms
    }

    /// Opens a room with id `room_id` for the user, who takes its first seat. A user who is
    /// already in a room gets that room back and a failure; so does anyone when there are
    /// more rooms than allowed (then with an empty id). When a room with that id exists
    /// already nothing happens and the result is `None`: the caller draws another id.
    pub fn create_room(&mut self, user_id: i64, room_id: String) -> (r: Option<(String, Code)>)
        requires
            old(self).wf(),
        ensures
            final(self).wf(),
            ({
                let id = room_id@;
                let n = old(self).rooms().len();
                if old(self).user_room().contains_key(user_id) {
                    &&& r matches Some((s, c)) && c == Code::CreateFail && s@ == old(
                        self,
                    ).user_room()[user_id]
                    &&& final(self).unchanged(old(self))
                } else if n > old(self).max_rooms() {
                    &&& r matches Some((s, c)) && c == Code::CreateFail && s@ == Seq::<
                        char,
                    >::empty()
                    &&& final(self).unchanged(old(self))
                } else if old(self).has_room(id) {
                    &&& r is None
                    &&& final(self).unchanged(old(self))
                } else {
                    let room = final(self).rooms()[n as int];
                    &&& r matches Some((s, c)) && c == Code::CreateOk && s@ == id
                    &&& final(self).rooms().len() == n + 1
                    &&& forall|j: int| 0 <= j < n ==> #[trigger] final(self).rooms()[j] == old(self).rooms()[j]
                    &&& room.room_id@ == id
                    &&& room.room_type == RoomType::MAJIANG.spec_value()
                    &&& room.room_state == 0
                    &&& room.max_player == 4
                    &&& room.players@ == seq![user_id, -1i64, -1i64, -1i64]
                    &&& room.readys@ == Map::<i64, bool>::empty()
                    &&& final(self).user_room() == old(self).user_room().insert(user_id, id)
                    &&& final(self).started() == old(self).started()
                    &&& final(self).letters() == old(self).letters()
                    &&& final(self).max_rooms() == old(self).max_rooms()
                    &&& final(self).redis_uri() == old(self).redis_uri()
                }
            }),
    {
        let err = String::new();
        if let Some(in_room) = self.user_rooms.get(&user_id) {
            return Some((in_room.clone(), Code::CreateFail));
        }
        if self.act_rooms.len() > self.max_room_num {
            return Some((err, Code::CreateFail));
        }
        if self.find_room(&room_id).is_some() {
            return None;
        }
        let room = GameRoom {
            room_id: room_id.clone(),
            room_type: RoomType::MAJIANG.value(),
            room_state: 0,
            max_player: 4,
            players: vec![user_id, -1, -1, -1],
            readys: HashMap::new(),
        };
        let ghost before = self.user_rooms@;
        self.act_rooms.push(room);
        self.user_rooms.insert(user_id, room_id.clone());
        proof {
            assert(self.user_room() =~= old(self).user_room().insert(user_id, room_id@));
            assert forall|i: int, j: int|
                0 <= i < j < self.act_rooms@.len() implies #[trigger] self.act_rooms@[i].room_id@
                != #[trigger] self.act_rooms@[j].room_id@ by {
                if j == self.act_rooms@.len() - 1 {
                    assert(old(self).rooms()[i].room_id@ != room_id@);
                }
            }
        }
        Some((room_id, Code::CreateOk))
    }

    /// Seats the user in the first free seat of the room with id `room_id`.
    pub fn join_room(&mut self, user_id: i64, room_id: &String) -> (r: (String, Code))
        requires
            old(self).wf(),
        ensures
            final(self).wf(),
            ({
                let id = room_id@;
                let i = old(self).room_ix(id);
                let seats = old(self).rooms()[i].players@;
                if old(self).user_room().contains_key(user_id) {
                    &&& r.1 == Code::AlreadyInRoom
                    &&& r.0@ == Seq::<char>::empty()
                    &&& final(self).unchanged(old(self))
                } else if !old(self).has_room(id) {
                    &&& r.1 == Code::RoomInexist
                    &&& r.0@ == Seq::<char>::empty()
                    &&& final(self).unchanged(old(self))
                } else if !(exists|k: int| #[trigger] first_at(seats, -1i64, k)) {
                    &&& r.1 == Code::RoomFull
                    &&& r.0@ == Seq::<char>::empty()
                    &&& final(self).unchanged(old(self))
                } else {
                    let k = choose|k: int| #[trigger] first_at(seats, -1i64, k);
                    &&& r.1 == Code::JoinOk
                    &&& r.0@ == id
                    &&& final(self).room_changed(
                        old(self),
                        i,
                        seats.update(k, user_id),
                        old(self).rooms()[i].readys@,
                    )
                    &&& final(self).user_room() == old(self).user_room().insert(user_id, id)
                    &&& final(self).started() == old(self).started()
                    &&& final(self).letters() == old(self).letters()
                    &&& final(self).max_rooms() == old(self).max_rooms()
                    &&& final(self).redis_uri() == old(self).redis_uri()
                }
            }),
    {
        let err = String::new();
        if self.user_rooms.contains_key(&user_id) {
            return (err, Code::AlreadyInRoom);
        }
        if let Some(i) = self.find_room(room_id) {
            if let Some(pos) = first_index(&self.act_rooms[i].players, -1) {
                proof {
                    lemma_first_at_unique(self.act_rooms@[i as int].players@, -1i64, pos as int);
                }
                let mut room = self.act_rooms.remove(i);
                room.players.set(pos, user_id);
                self.act_rooms.insert(i, room);
                self.user_rooms.insert(user_id, room_id.clone());
                proof {
                    assert(self.user_room() =~= old(self).user_room().insert(user_id, room_id@));
                }
                return (room_id.clone(), Code::JoinOk);
            }
            return (err, Code::RoomFull);
        }
        (err, Code::RoomInexist)
    }

    /// Marks the user ready in its room, if that is the room with id `room_id`.
    pub fn ready_room(&mut self, user_id: i64, room_id: &String) -> (r: (String, Code))
        requires
            old(self).wf(),
        ensures
            final(self).wf(),
            ({
                let id = room_id@;
                let i = old(self).room_ix(id);
                let u = old(self).user_room();
                if !u.contains_key(user_id) {
                    &&& r.1 == Code::NotInRoom
                    &&& r.0@ == Seq::<char>::empty()
                    &&& final(self).unchanged(old(self))
                } else if u[user_id] != id {
                    &&& r.1 == Code::WrongRoom
                    &&& r.0@ == Seq::<char>::empty()
                    &&& final(self).unchanged(old(self))
                } else if old(self).has_room(id) {
                    &&& r.1 == Code::ReadyOk
                    &&& r.0@ == id
                    &&& final(self).room_changed(
                        old(self),
                        i,
                        old(self).rooms()[i].players@,
                        old(self).rooms()[i].readys@.insert(user_id, true),
                    )
                    &&& final(self).same_but_rooms(old(self))
                } else {
                    &&& r.1 == Code::RoomInexist
                    &&& r.0@ == Seq::<char>::empty()
                    &&& final(self).rooms() == old(self).rooms()
                    &&& final(self).user_room() == u.remove(user_id)
                    &&& final(self).started() == old(self).started()
                    &&& final(self).letters() == old(self).letters()
                    &&& final(self).max_rooms() == old(self).max_rooms()
                    &&& final(self).redis_uri() == old(self).redis_uri()
                }
            }),
    {
        let err = String::new();
        if let Some(in_room) = self.user_rooms.get(&user_id) {
            if *in_room != *room_id {
                return (err, Code::WrongRoom);
            }
            if let Some(i) = self.find_room(room_id) {
                let mut room = self.act_rooms.remove(i);
                room.readys.insert(user_id, true);
                self.act_rooms.insert(i, room);
                return (room_id.clone(), Code::ReadyOk);
            }
            self.user_rooms.remove(&user_id);
            proof {
                assert(self.user_room() =~= old(self).user_room().remove(user_id));
            }
            return (err, Code::RoomInexist);
        }
        (err, Code::NotInRoom)
    }

    /// Takes back the readiness of the user in its room, if that is the room with id
    /// `room_id`.
    pub fn cancel_ready(&mut self, user_id: i64, room_id: &String) -> (r: (String, Code))
        requires
            old(self).wf(),
        ensures
            final(self).wf(),
            ({
                let id = room_id@;
                let i = old(self).room_ix(id);
                let u = old(self).user_room();
                if !u.contains_key(user_id) {
                    &&& r.1 == Code::NotInRoom
                    &&& r.0@ == Seq::<char>::empty()
                    &&& final(self).unchanged(old(self))
                } else if u[user_id] != id {
                    &&& r.1 == Code::WrongRoom
                    &&& r.0@ == Seq::<char>::empty()
                    &&& final(self).unchanged(old(self))
                } else if old(self).has_room(id) {
                    &&& r.1 == Code::CancelReadyOk
                    &&& r.0@ == id
                    &&& final(self).room_changed(
                        old(self),
                        i,
                        old(self).rooms()[i].players@,
                        old(self).rooms()[i].readys@.remove(user_id),
                    )
                    &&& final(self).same_but_rooms(old(self))
                } else {
                    &&& r.1 == Code::RoomInexist
                    &&& r.0@ == Seq::<char>::empty()
                    &&& final(self).rooms() == old(self).rooms()
                    &&& final(self).user_room() == u.remove(user_id)
                    &&& final(self).started() == old(self).started()
                    &&& final(self).letters() == old(self).letters()
                    &&& final(self).max_rooms() == old(self).max_rooms()
                    &&& final(self).redis_uri() == old(self).redis_uri()
                }
            }),
    {
        let err = String::new();
        if let Some(in_room) = self.user_rooms.get(&user_id) {
            if *in_room != *room_id {
                return (err, Code::WrongRoom);
            }
            if let Some(i) = self.find_room(room_id) {
                let mut room = self.act_rooms.remove(i);
                room.readys.remove(&user_id);
                self.act_rooms.insert(i, room);
                return (room_id.clone(), Code::CancelReadyOk);
            }
            self.user_rooms.remove(&user_id);
            proof {
                assert(self.user_room() =~= old(self).user_room().remove(user_id));
            }
            return (err, Code::RoomInexist);
        }
        (err, Code::NotInRoom)
    }

    /// Frees the seat of the user in its room and takes back its readiness, if that is the
    /// room with id `room_id`. The user still counts as in the room, and the answer is the
    /// code of readiness.
    pub fn leave_room(&mut self, user_id: i64, room_id: &String) -> (r: (String, Code))
        requires
            old(self).wf(),
        ensures
            final(self).wf(),
            ({
                let id = room_id@;
                let i = old(self).room_ix(id);
                let u = old(self).user_room();
                let seats = old(self).rooms()[i].players@;
                if !u.contains_key(user_id) {
                    &&& r.1 == Code::NotInRoom
                    &&& r.0@ == Seq::<char>::empty()
                    &&& final(self).unchanged(old(self))
                } else if u[user_id] != id {
                    &&& r.1 == Code::WrongRoom
                    &&& r.0@ == Seq::<char>::empty()
                    &&& final(self).unchanged(old(self))
                } else if old(self).has_room(id) {
                    &&& r.1 == Code::ReadyOk
                    &&& r.0@ == id
                    &&& final(self).room_changed(
                        old(self),
                        i,
                        if exists|k: int| #[trigger] first_at(seats, user_id, k) {
                            seats.update(choose|k: int| #[trigger] first_at(seats, user_id, k), -1i64)
                        } else {
                            seats
                        },
                        old(self).rooms()[i].readys@.remove(user_id),
                    )
                    &&& final(self).same_but_rooms(old(self))
                } else {
                    &&& r.1 == Code::RoomInexist
                    &&& r.0@ == Seq::<char>::empty()
                    &&& final(self).rooms() == old(self).rooms()
                    &&& final(self).user_room() == u.remove(user_id)
                    &&& final(self).started() == old(self).started()
                    &&& final(self).letters() == old(self).letters()
                    &&& final(self).max_rooms() == old(self).max_rooms()
                    &&& final(self).redis_uri() == old(self).redis_uri()
                }
            }),
    {
        let err = String::new();
        if let Some(in_room) = self.user_rooms.get(&user_id) {
            if *in_room != *room_id {
                return (err, Code::WrongRoom);
            }
            if let Some(i) = self.find_room(room_id) {
                let mut room = self.act_rooms.remove(i);
                room.readys.remove(&user_id);
                if let Some(k) = first_index(&room.players, user_id) {
                    proof {
                        lemma_first_at_unique(room.players@, user_id, k as int);
                    }
                    room.players.set(k, -1);
                }
                let empty = room.players.len() == 0;
                self.act_rooms.insert(i, room);
                if empty {
                    self.act_rooms.remove(i);
                    self.user_rooms.remove(&user_id);
                }
                return (room_id.clone(), Code::ReadyOk);
            }
            self.user_rooms.remove(&user_id);
            proof {
                assert(self.user_room() =~= old(self).user_room().remove(user_id));
            }
            return (err, Code::RoomInexist);
        }
        (err, Code::NotInRoom)
    }

    /// Records the handle of the game of the room with id `room_id` once all its seats are
    /// ready; an earlier handle of that room is replaced.
    pub fn set_room_notifier(&mut self, room_id: &String, sender: N)
        requires
            old(self).wf(),
        ensures
            final(self).wf(),
            final(self).rooms() == old(self).rooms(),
            final(self).user_room() == old(self).user_room(),
            final(self).letters() == old(self).letters(),
            final(self).max_rooms() == old(self).max_rooms(),
            final(self).redis_uri() == old(self).redis_uri(),
            ({
                let id = room_id@;
                let room = old(self).rooms()[old(self).room_ix(id)];
                if old(self).has_room(id) && room.readys@.len() == room.max_player {
                    final(self).started() == if old(self).has_start(id) {
                        old(self).started().update(old(self).start_ix(id), (id, sender))
                    } else {
                        old(self).started().push((id, sender))
                    }
                } else {
                    final(self).started() == old(self).started()
                }
            }),
    {
        if let Some(i) = self.find_room(room_id) {
            if self.act_rooms[i].readys.len() == self.act_rooms[i].max_player {
                if let Some(k) = self.find_start(room_id) {
                    self.start_game.set(k, (room_id.clone(), sender));
                    proof {
                        assert(self.started() =~= old(self).started().update(k as int, (room_id@, sender)));
                        assert forall|a: int, b: int|
                            0 <= a < b < self.start_game@.len() implies #[trigger] self.start_game@[a].0@
                            != #[trigger] self.start_game@[b].0@ by {
                            assert(old(self).start_game@[a].0@ != old(self).start_game@[b].0@);
                        }
                    }
                } else {
                    self.start_game.push((room_id.clone(), sender));
                    proof {
                        assert(self.started() =~= old(self).started().push((room_id@, sender)));
                        assert forall|a: int, b: int|
                            0 <= a < b < self.start_game@.len() implies #[trigger] self.start_game@[a].0@
                            != #[trigger] self.start_game@[b].0@ by {
                            if b == self.start_game@.len() - 1 {
                                assert(old(self).started()[a].0 != room_id@);
                            }
                        }
                    }
                }
            }
        }
    }

    /// Ends the game of the room with id `room_id`: nobody there is ready any more, and the
    /// handle of its game is dropped.
    pub fn room_game_over(&mut self, room_id: &String)
        requires
            old(self).wf(),
        ensures
            final(self).wf(),
            final(self).user_room() == old(self).user_room(),
            final(self).letters() == old(self).letters(),
            final(self).max_rooms() == old(self).max_rooms(),
            final(self).redis_uri() == old(self).redis_uri(),
            ({
                let id = room_id@;
                let i = old(self).room_ix(id);
                if old(self).has_room(id) {
                    &&& final(self).room_changed(
                        old(self),
                        i,
                        old(self).rooms()[i].players@,
                        Map::<i64, bool>::empty(),
                    )
                    &&& final(self).started() == if old(self).has_start(id) {
                        old(self).started().remove(old(self).start_ix(id))
                    } else {
                        old(self).started()
                    }
                } else {
                    &&& final(self).rooms() == old(self).rooms()
                    &&& final(self).started() == old(self).started()
                }
            }),
    {
        if let Some(i) = self.find_room(room_id) {
            let mut room = self.act_rooms.remove(i);
            room.readys.clear();
            self.act_rooms.insert(i, room);
            if let Some(k) = self.find_start(room_id) {
                let ghost before = self.start_game@;
                self.start_game.remove(k);
                proof {
                    assert(self.started() =~= old(self).started().remove(k as int));
                    assert forall|a: int, b: int|
                        0 <= a < b < self.start_game@.len() implies #[trigger] self.start_game@[a].0@
                        != #[trigger] self.start_game@[b].0@ by {
                        let a0 = if a < k { a } else { a + 1 };
                        let b0 = if b < k { b } else { b + 1 };
                        assert(self.start_game@[a] == before[a0]);
                        assert(self.start_game@[b] == before[b0]);
                        assert(before[a0].0@ != before[b0].0@);
                    }
                }
            }
        }
    }

    /// The handle of the game of the room with id `room_id`, if its game has started.
    pub fn get_room_notifier(&mut self, room_id: &String) -> (r: Option<N>) where N: Clone
        requires
            old(self).wf(),
        ensures
            *final(self) == *old(self),
            r is None <==> !old(self).has_start(room_id@),
            r matches Some(s) ==> vstd::pervasive::cloned(
                old(self).started()[old(self).start_ix(room_id@)].1,
                s,
            ),
    {
        if let Some(k) = self.find_start(room_id) {
            return Some(self.start_game[k].1.clone());
        }
        None
    }
}

/// The first index at which `s` holds `x`, if any.
pub fn first_index(s: &Vec<i64>, x: i64) -> (r: Option<usize>)
    ensures
        r matches Some(k) ==> first_at(s@, x, k as int),
        r is None ==> forall|k: int| 0 <= k < s@.len() ==> s@[k] != x,
{
    let n = s.len();
    for i in 0..n
        invariant
            n == s.len(),
            forall|j: int| 0 <= j < i ==> s@[j] != x,
    {
        if s[i] == x {
            return Some(i);
        }
    }
    None
}

/// The first index of a value is the one that `choose` names.
proof fn lemma_first_at_unique(s: Seq<i64>, x: i64, k: int)
    requires
        first_at(s, x, k),
    ensures
        (choose|c: int| #[trigger] first_at(s, x, c)) == k,
{
    let c = choose|c: int| #[trigger] first_at(s, x, c);
    if c < k {
        assert(s[c] != x);
    } else if c > k {
        assert(s[k] != x);
    }
}

} // verus!
