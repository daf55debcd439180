use vstd::prelude::*;

use std::collections::HashMap;

use crate::message::{MsgType, OpType};

verus! {

broadcast use vstd::std_specs::hash::group_hash_axioms;

/// Where the front end sends a request of a user whose room is not known.
#[derive(Clone, Copy, Debug, PartialEq, Eq, Structural)]
pub enum Route {
    /// To a topic with room for a new room.
    FreeTopic,
    /// To the topic of the room that the request names.
    RoomTopic,
    /// Nowhere: the front end does not handle it.
    Unhandled,
}

/// A request to create a room goes to a free topic, any other room request to the topic of
/// its room; the front end handles no other message of a user whose room is not known.
pub fn route_request(msg_type: i8, op_type: i8) -> (r: Route)
    ensures
        msg_type != MsgType::RoomOp.spec_value() ==> r == Route::Unhandled,
        msg_type == MsgType::RoomOp.spec_value() && op_type == OpType::CreateRoom.spec_value()
            ==> r == Route::FreeTopic,
        msg_type == MsgType::RoomOp.spec_value() && op_type != OpType::CreateRoom.spec_value()
            ==> r == Route::RoomTopic,
{
    if msg_type != MsgType::RoomOp.value() {
        return Route::Unhandled;
    }
    if op_type == OpType::CreateRoom.value() {
        Route::FreeTopic
    } else {
        Route::RoomTopic
    }
}

/// The topic on which the answers to the requests sent to `topic` come back.
pub fn response_topic(topic: &String) -> (r: String)
    ensures
        r@ == topic@ + seq!['_', 'r', 's', 'p'],
{
    let mut s = topic.clone();
    proof {
        reveal_strlit("_rsp");
    }
    s.append("_rsp");
    s
}

/// The user id that tags a message passed inside the server.
pub fn parse_authorized_user_id(msg: &Vec<u8>) -> (r: i64)
    requires
        msg.len() >= 8,
    ensures
        r == (crate::session::le_value(msg@.take(8)) as u64) as i64,
{
    crate::session::read_user_id(msg)
}

/// What the front end remembers of the rooms: the topic of each room, the room of each
/// user, and when the room of a user was last confirmed.
pub struct TopicMng {
    redis_uri: String,
    topic_list_key: String,
    room_topic: Vec<(String, String)>,
    user_room: HashMap<i64, String>,
    user_room_update_time: Vec<(String, i64, i64)>,
}

impl TopicMng {
    /// The topic of each room that is known, by room id.
    pub closed spec fn topics(&self) -> Seq<(Seq<char>, Seq<char>)> {
        self.room_topic@.map_values(|e: (String, String)| (e.0@, e.1@))
    }

    /// The room of each user that is known.
    pub closed spec fn rooms(&self) -> Map<i64, Seq<char>> {
        self.user_room@.map_values(|s: String| s@)
    }

    /// The last confirmation of a user in a room: room id, user id, time.
    pub closed spec fn confirmed(&self) -> Seq<(Seq<char>, i64, i64)> {
        self.user_room_update_time@.map_values(|e: (String, i64, i64)| (e.0@, e.1, e.2))
    }

    pub closed spec fn store_uri(&self) -> Seq<char> {
        self.redis_uri@
    }

    pub closed spec fn free_list_key(&self) -> Seq<char> {
        self.topic_list_key@
    }

    /// No room has two topics, and no user has two confirmations in one room.
    pub closed spec fn wf(&self) -> bool {
        &&& forall|i: int, j: int|
            0 <= i < j < self.room_topic@.len() ==> #[trigger] self.room_topic@[i].0@
                != #[trigger] self.room_topic@[j].0@
        &&& forall|i: int, j: int|
            0 <= i < j < self.user_room_update_time@.len() ==> {
                let a = #[trigger] self.user_room_update_time@[i];
                let b = #[trigger] self.user_room_update_time@[j];
                a.0@ != b.0@ || a.1 != b.1
            }
    }

    /// The topic of the room with id `id` is known.
    pub open spec fn knows_topic(&self, id: Seq<char>) -> bool {
        exists|i: int| 0 <= i < self.topics().len() && #[trigger] self.topics()[i].0 == id
    }

    /// The known topic of the room with id `id`.
    pub open spec fn topic_of(&self, id: Seq<char>) -> Seq<char> {
        self.topics()[choose|i: int| 0 <= i < self.topics().len() && #[trigger] self.topics()[i].0 == id].1
    }

    /// The user was confirmed in the room with id `id`.
    pub open spec fn is_confirmed(&self, id: Seq<char>, user_id: i64) -> bool {
        exists|i: int|
            0 <= i < self.confirmed().len() && #[trigger] self.confirmed()[i].0 == id
                && self.confirmed()[i].1 == user_id
    }

    pub fn new(redis_uri: String, topic_list_key: String) -> (r: TopicMng)
        ensures
            r.wf(),
            r.topics().len() == 0,
            r.rooms() == Map::<i64, Seq<char>>::empty(),
            r.confirmed().len() == 0,
            r.store_uri() == redis_uri@,
            r.free_list_key() == topic_list_key@,
    {
        let r = TopicMng {
            redis_uri: redis_uri,
            topic_list_key: topic_list_key,
            room_topic: Vec::new(),
            user_room: HashMap::new(),
            user_room_update_time: Vec::new(),
        };
        assert(r.rooms() =~= Map::<i64, Seq<char>>::empty());
        r
    }

    /// The address of the store that the front end asks.
    pub fn redis_uri(&self) -> (r: &String)
        ensures
            r@ == self.store_uri(),
    {
        &self.redis_uri
    }

    /// The key under which the store ranks the free topics.
    pub fn topic_list_key(&self) -> (r: &String)
        ensures
            r@ == self.free_list_key(),
    {
        &self.topic_list_key
    }

    fn find_topic(&self, room_id: &String) -> (r: Option<usize>)
        requires
            self.wf(),
        ensures
            r is None <==> !self.knows_topic(room_id@),
            r matches Some(i) ==> i < self.topics().len() && self.topics()[i as int].0 == room_id@
                && self.topic_of(room_id@) == self.topics()[i as int].1,
    {
        let n = self.room_topic.len();
        for i in 0..n
            invariant
                n == self.room_topic.len(),
                self.wf(),
                forall|j: int| 0 <= j < i ==> #[trigger] self.room_topic@[j].0@ != room_id@,
        {
            if self.room_topic[i].0 == *room_id {
                proof {
                    assert(self.topics()[i as int].0 == room_id@);
                    let c = choose|c: int| 0 <= c < self.topics().len() && #[trigger] self.topics()[c].0 == room_id@;
                    if c < i {
                        assert(self.room_topic@[c].0@ != room_id@);
                    } else if c > i {
                        assert(self.room_topic@[i as int].0@ != self.room_topic@[c].0@);
                    }
                }
                return Some(i);
            }
        }
        proof {
            if self.knows_topic(room_id@) {
                let c = choose|c: int| 0 <= c < self.topics().len() && #[trigger] self.topics()[c].0 == room_id@;
                assert(self.room_topic@[c].0@ == room_id@);
            }
        }
        None
    }

    /// The topic of the room with id `room_id`, if it is known.
    pub fn cached_room_topic(&self, room_id: &String) -> (r: Option<String>)
        requires
            self.wf(),
        ensures
            r is None <==> !self.knows_topic(room_id@),
            r matches Some(t) ==> t@ == self.topic_of(room_id@),
    {
        if let Some(i) = self.find_topic(room_id) {
            return Some(self.room_topic[i].1.clone());
        }
        None
    }

    /// Remembers `topic` as the topic of the room with id `room_id`.
    pub fn remember_room_topic(&mut self, room_id: &String, topic: &String)
        requires
            old(self).wf(),
        ensures
            final(self).wf(),
            final(self).knows_topic(room_id@),
            final(self).topic_of(room_id@) == topic@,
            forall|id: Seq<char>|
                id != room_id@ ==> (#[trigger] final(self).knows_topic(id) == old(self).knows_topic(id)
                    && (old(self).knows_topic(id) ==> final(self).topic_of(id) == old(self).topic_of(id))),
            final(self).rooms() == old(self).rooms(),
            final(self).confirmed() == old(self).confirmed(),
            final(self).store_uri() == old(self).store_uri(),
            final(self).free_list_key() == old(self).free_list_key(),
    {
        let ghost before = self.topics();
        if let Some(i) = self.find_topic(room_id) {
            self.room_topic.set(i, (room_id.clone(), topic.clone()));
            proof {
                assert(self.topics() =~= before.update(i as int, (room_id@, topic@)));
                assert forall|a: int, b: int|
                    0 <= a < b < self.room_topic@.len() implies #[trigger] self.room_topic@[a].0@
                    != #[trigger] self.room_topic@[b].0@ by {
                    assert(old(self).room_topic@[a].0@ != old(self).room_topic@[b].0@);
                }
                assert(self.topics()[i as int].0 == room_id@);
                assert forall|x: Seq<char>| x != room_id@ implies (#[trigger] self.knows_topic(x)
                    == old(self).knows_topic(x) && (old(self).knows_topic(x) ==> self.topic_of(x)
                    == old(self).topic_of(x))) by {
                    lemma_topic_frame(*old(self), *self, room_id@, i as int, x);
                }
            }
        } else {
            self.room_topic.push((room_id.clone(), topic.clone()));
            proof {
                assert(self.topics() =~= before.push((room_id@, topic@)));
                assert forall|a: int, b: int|
                    0 <= a < b < self.room_topic@.len() implies #[trigger] self.room_topic@[a].0@
                    != #[trigger] self.room_topic@[b].0@ by {
                    if b == self.room_topic@.len() - 1 {
                        assert(old(self).topics()[a].0 != room_id@);
                    }
                }
                assert(self.topics()[before.len() as int].0 == room_id@);
                assert forall|x: Seq<char>| x != room_id@ implies (#[trigger] self.knows_topic(x)
                    == old(self).knows_topic(x) && (old(self).knows_topic(x) ==> self.topic_of(x)
                    == old(self).topic_of(x))) by {
                    lemma_topic_frame(*old(self), *self, room_id@, before.len() as int, x);
                }
            }
        }
    }

    /// The room of the user, if it is known and the user was confirmed in it; a known room
    /// without a confirmation is forgotten.
    pub fn cached_user_room(&mut self, user_id: i64) -> (r: Option<String>)
        requires
            old(self).wf(),
        ensures
            final(self).wf(),
            final(self).topics() == old(self).topics(),
            final(self).confirmed() == old(self).confirmed(),
            final(self).store_uri() == old(self).store_uri(),
            final(self).free_list_key() == old(self).free_list_key(),
            ({
                let rooms = old(self).rooms();
                if rooms.contains_key(user_id) && old(self).is_confirmed(rooms[user_id], user_id) {
                    &&& r matches Some(s) && s@ == rooms[user_id]
                    &&& final(self).rooms() == rooms
                } else if rooms.contains_key(user_id) {
                    &&& r is None
                    &&& final(self).rooms() == rooms.remove(user_id)
                } else {
                    &&& r is None
                    &&& final(self).rooms() == rooms
                }
            }),
    {
        let mut found: Option<String> = None;
        if let Some(room_id) = self.user_room.get(&user_id) {
            found = Some(room_id.clone());
        }
        if let Some(room_id) = found {
            if self.find_confirmation(&room_id, user_id).is_some() {
                return Some(room_id);
            }
            self.user_room.remove(&user_id);
            proof {
                assert(self.rooms() =~= old(self).rooms().remove(user_id));
            }
        }
        None
    }

    fn find_confirmation(&self, room_id: &String, user_id: i64) -> (r: Option<usize>)
        requires
            self.wf(),
        ensures
            r is None <==> !self.is_confirmed(room_id@, user_id),
            r matches Some(i) ==> i < self.confirmed().len() && self.confirmed()[i as int].0
                == room_id@ && self.confirmed()[i as int].1 == user_id,
    {
        let n = self.user_room_update_time.len();
        for i in 0..n
            invariant
                n == self.user_room_update_time.len(),
                forall|j: int|
                    0 <= j < i ==> (#[trigger] self.user_room_update_time@[j]).0@ != room_id@
                        || self.user_room_update_time@[j].1 != user_id,
        {
            if self.user_room_update_time[i].1 == user_id && self.user_room_update_time[i].0
                == *room_id {
                proof {
                    assert(self.confirmed()[i as int].0 == room_id@);
                }
                return Some(i);
            }
        }
        proof {
            if self.is_confirmed(room_id@, user_id) {
                let c = choose|c: int|
                    0 <= c < self.confirmed().len() && #[trigger] self.confirmed()[c].0 == room_id@
                        && self.confirmed()[c].1 == user_id;
                assert(self.user_room_update_time@[c].0@ == room_id@);
            }
        }
        None
    }

    /// Remembers the room of the user, confirmed now (at time zero).
    pub fn remember_user_room(&mut self, user_id: i64, room_id: &String)
        requires
            old(self).wf(),
        ensures
            final(self).wf(),
            final(self).rooms() == old(self).rooms().insert(user_id, room_id@),
            final(self).is_confirmed(room_id@, user_id),
            forall|id: Seq<char>, u: i64|
                old(self).is_confirmed(id, u) ==> #[trigger] final(self).is_confirmed(id, u),
            final(self).topics() == old(self).topics(),
            final(self).store_uri() == old(self).store_uri(),
            final(self).free_list_key() == old(self).free_list_key(),
    {
        self.user_room.insert(user_id, room_id.clone());
        proof {
            assert(self.rooms() =~= old(self).rooms().insert(user_id, room_id@));
        }
        let ghost before = self.confirmed();
        if let Some(i) = self.find_confirmation(room_id, user_id) {
            self.user_room_update_time.set(i, (room_id.clone(), user_id, 0));
            proof {
                assert(self.confirmed() =~= before.update(i as int, (room_id@, user_id, 0i64)));
                assert(self.confirmed()[i as int].0 == room_id@);
                assert forall|id: Seq<char>, u: i64| old(self).is_confirmed(id, u) implies #[trigger] self.is_confirmed(id, u) by {
                    let c = choose|c: int|
                        0 <= c < before.len() && #[trigger] before[c].0 == id && before[c].1 == u;
                    assert(self.confirmed()[c].0 == id);
                }
                assert forall|a: int, b: int|
                    0 <= a < b < self.user_room_update_time@.len() implies ({
                        let x = #[trigger] self.user_room_update_time@[a];
                        let y = #[trigger] self.user_room_update_time@[b];
                        x.0@ != y.0@ || x.1 != y.1
                    }) by {
                    let x0 = old(self).user_room_update_time@[a];
                    let y0 = old(self).user_room_update_time@[b];
                    assert(x0.0@ != y0.0@ || x0.1 != y0.1);
                }
            }
        } else {
            self.user_room_update_time.push((room_id.clone(), user_id, 0));
            proof {
                let n = before.len();
                assert(self.confirmed() =~= before.push((room_id@, user_id, 0i64)));
                assert(self.confirmed()[n as int].0 == room_id@);
                assert forall|id: Seq<char>, u: i64| old(self).is_confirmed(id, u) implies #[trigger] self.is_confirmed(id, u) by {
                    let c = choose|c: int|
                        0 <= c < before.len() && #[trigger] before[c].0 == id && before[c].1 == u;
                    assert(self.confirmed()[c].0 == id);
                }
                assert forall|a: int, b: int|
                    0 <= a < b < self.user_room_update_time@.len() implies ({
                        let x = #[trigger] self.user_room_update_time@[a];
                        let y = #[trigger] self.user_room_update_time@[b];
                        x.0@ != y.0@ || x.1 != y.1
                    }) by {
                    if b == n {
                        assert(before[a].0 != room_id@ || before[a].1 != user_id);
                    } else {
                        let x0 = old(self).user_room_update_time@[a];
                        let y0 = old(self).user_room_update_time@[b];
                        assert(x0.0@ != y0.0@ || x0.1 != y0.1);
                    }
                }
            }
        }
    }
}

/// After the topic at index `i` became the one of room `id`, the room `x`, another room,
/// keeps its topic.
proof fn lemma_topic_frame(before: TopicMng, after: TopicMng, id: Seq<char>, i: int, x: Seq<char>)
    requires
        before.wf(),
        after.wf(),
        x != id,
        0 <= i < after.topics().len(),
        after.topics()[i].0 == id,
        after.topics().len() >= before.topics().len(),
        forall|j: int|
            0 <= j < after.topics().len() && j != i ==> j < before.topics().len()
                && #[trigger] after.topics()[j] == before.topics()[j],
        i < before.topics().len() ==> before.topics()[i].0 == id,
    ensures
        after.knows_topic(x) == before.knows_topic(x),
        before.knows_topic(x) ==> after.topic_of(x) == before.topic_of(x),
{
    if before.knows_topic(x) {
        let c = choose|c: int| 0 <= c < before.topics().len() && #[trigger] before.topics()[c].0 == x;
        assert(c != i);
        assert(after.topics()[c] == before.topics()[c]);
        assert(after.topics()[c].0 == x);
        let d = choose|d: int| 0 <= d < after.topics().len() && #[trigger] after.topics()[d].0 == x;
        if d != c {
            assert(d != i);
            assert(after.topics()[d] == before.topics()[d]);
            if d < c {
                assert(before.room_topic@[d].0@ != before.room_topic@[c].0@);
            } else {
                assert(before.room_topic@[c].0@ != before.room_topic@[d].0@);
            }
        }
    }
    if after.knows_topic(x) {
        let d = choose|d: int| 0 <= d < after.topics().len() && #[trigger] after.topics()[d].0 == x;
        assert(d != i);
        assert(before.topics()[d].0 == x);
    }
}

} // verus!
