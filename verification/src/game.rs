use vstd::prelude::*;

use crate::message;
use crate::message::{GameOperation, GameRoundUpdate, Header, MsgType, RoundInfoType};
use crate::operation;
use crate::operation::{Action, MajiangOperation, OpModel};
use crate::random;
use crate::state;
use crate::state::GameState;

verus! {

/// A player at the table.
#[derive(Clone, Copy, Debug, PartialEq, Eq, Structural)]
pub struct Player {
    pub id: i64,
    pub pos: usize,
    pub score: i32,
}

/// An operation that a player may still answer a pop with.
pub struct PendingOp {
    pub player: usize,
    pub op: MajiangOperation,
}

/// The value of a pending operation.
pub open spec fn pending_view(p: PendingOp) -> (usize, OpModel) {
    (p.player, p.op@)
}

pub open spec fn pendings_view(s: Seq<PendingOp>) -> Seq<(usize, OpModel)> {
    s.map_values(|p: PendingOp| pending_view(p))
}

/// The test "the action has priority `k`".
pub open spec fn has_priority(k: u8) -> spec_fn((usize, OpModel)) -> bool {
    |e: (usize, OpModel)| e.1.op.spec_priority() == k
}

/// The pending operations ordered by priority, lowest first, keeping the order of equal ones.
pub open spec fn by_priority(s: Seq<(usize, OpModel)>) -> Seq<(usize, OpModel)> {
    s.filter(has_priority(0)) + s.filter(has_priority(1)) + s.filter(has_priority(2)) + s.filter(
        has_priority(3),
    ) + s.filter(has_priority(4)) + s.filter(has_priority(5))
}

/// The test "is not an operation of player `pos`".
pub open spec fn not_of_player(pos: usize) -> spec_fn((usize, OpModel)) -> bool {
    |e: (usize, OpModel)| e.0 != pos
}

/// The 6-byte room field: the bytes of the room id, then zeros.
pub open spec fn room_buf(bytes: Seq<u8>) -> Seq<u8> {
    Seq::new(6, |i: int| if i < bytes.len() { bytes[i] } else { 0u8 })
}

/// `i` is the first seat of the player with id `id`.
pub open spec fn is_first_seat(players: Seq<Player>, id: i64, i: int) -> bool {
    &&& 0 <= i < players.len()
    &&& players[i].id == id
    &&& forall|j: int| 0 <= j < i ==> players[j].id != id
}

/// The score change of the seat `ix` at the end of a round: with no winner the banker pays
/// three times the base and the others gain it; else the winner gains three times the base
/// and the others pay it.
pub open spec fn seat_score(ix: int, banker: int, win_player: int, base: int) -> int {
    if win_player >= 4 && ix == banker {
        -base * 3
    } else if win_player >= 4 {
        base
    } else if ix == win_player {
        base * 3
    } else {
        -base
    }
}

/// The score change of the player with id `id` (zero if no seat has it).
pub open spec fn user_score(players: Seq<Player>, id: i64, banker: int, win_player: int, base: int) -> int {
    if exists|i: int| is_first_seat(players, id, i) {
        seat_score(choose|i: int| is_first_seat(players, id, i), banker, win_player, base)
    } else {
        0
    }
}

/// A base score whose triple fits in 32 bits.
pub open spec fn base_in_range(base: i32) -> bool {
    -715827882 <= base <= 715827882
}

/// One round at a table of four.
pub struct Game {
    pub players: Vec<Player>,
    pub state: GameState,
    pub cur_player_ops: Option<Vec<MajiangOperation>>,
    pub other_ops: Vec<Option<Vec<MajiangOperation>>>,
    pub recv_other_ops: Vec<Option<MajiangOperation>>,
    pub default_base_score: i32,
    pub base_score: i32,
    pub cur_banker: usize,
    pub cur_round: i32,
    pub max_wait_second: u64,
    pub room_id: String,
    pub room_id_buf: [u8; 6],
}

impl Game {
    /// A table of four players before its first deal.
    pub open spec fn fresh(&self) -> bool {
        &&& self.players.len() == 4
        &&& self.state.player_state.len() == 0
        &&& self.state.hide_card.len() == 0
        &&& self.state.cur_card_ix == 0
        &&& self.state.cur_player < 4
        &&& self.state.cur_pop_card < 252
    }

    pub fn new(players: Vec<Player>, max_wait_second: u64, room_id: String) -> (r: Game)
        requires
            players.len() < usize::MAX,
            vstd::utf8::encode_utf8(room_id@).len() <= 6,
        ensures
            r.players@ == players@,
            r.state.win_player == players.len() + 1,
            r.state.cur_step == 0,
            r.state.cur_state == state::StateType::DealCard,
            r.state.win_method == Action::Hu,
            r.state.player_state@.len() == 0,
            r.state.hide_card@.len() == 0,
            r.state.cards@.len() == 0,
            r.state.cur_card_ix == 0,
            r.state.cur_player == 0,
            r.state.cur_pop_card == 0,
            r.other_ops@.len() == 0,
            r.recv_other_ops@.len() == 0,
            r.cur_player_ops is None,
            r.max_wait_second == max_wait_second,
            r.default_base_score == 5,
            r.base_score == 5,
            r.cur_banker == 0,
            r.cur_round == 1,
            r.room_id@ == room_id@,
            r.room_id_buf@ == room_buf(vstd::utf8::encode_utf8(room_id@)),
            players.len() == 4 ==> r.fresh(),
    {
        let num = players.len();
        let mut buf: [u8; 6] = [0u8, 0u8, 0u8, 0u8, 0u8, 0u8];
        let bytes = room_id.as_str().as_bytes();
        let n = bytes.len();
        for ix in 0..n
            invariant
                n == bytes@.len(),
                n <= 6,
                bytes@ == vstd::utf8::encode_utf8(room_id@),
                forall|k: int| 0 <= k < 6 ==> buf@[k] == (if k < ix { bytes@[k] } else { 0u8 }),
        {
            buf[ix] = bytes[ix];
        }
        assert(buf@ =~= room_buf(bytes@));
        Game {
            players: players,
            state: GameState::new(num),
            other_ops: Vec::new(),
            recv_other_ops: Vec::new(),
            cur_player_ops: None,
            max_wait_second: max_wait_second,
            default_base_score: 5,
            base_score: 5,
            cur_banker: 0,
            cur_round: 1,
            room_id: room_id,
            room_id_buf: buf,
        }
    }

    /// Lays out the cards, shuffles the wall and deals the opening hands.
    pub fn init(&mut self)
        requires
            old(self).state.cur_card_ix + 52 <= old(self).state.hide_card.len() + 112,
        ensures
            final(self).players@ == old(self).players@,
            final(self).base_score == old(self).base_score,
            final(self).cur_banker == old(self).cur_banker,
            final(self).cur_round == old(self).cur_round,
            final(self).state.cards@ == old(self).state.cards@ + crate::model::standard_faces(),
            final(self).state.hide_card@.to_multiset() == (old(self).state.hide_card@
                + state::full_set_ids()).to_multiset(),
            final(self).state.hide_card@.len() == old(self).state.hide_card@.len() + 112,
            final(self).state.cur_card_ix == old(self).state.cur_card_ix + 52,
            final(self).state.player_state.len() == old(self).state.player_state.len() + 4,
            forall|q: int|
                0 <= q < final(self).state.player_state.len() ==> #[trigger] final(self).state.player_state@[q].hand() == state::dealt_hand(
                    old(self).state.player_state@,
                    final(self).state.hide_card@,
                    old(self).state.cur_card_ix as int,
                    q,
                ),
            old(self).fresh() ==> final(self).seated(),
            final(self).state.cur_step == old(self).state.cur_step,
            final(self).state.cur_player == old(self).state.cur_player,
            final(self).state.cur_state == old(self).state.cur_state,
            final(self).state.win_player == old(self).state.win_player,
            final(self).state.win_method == old(self).state.win_method,
            final(self).state.cur_pop_card == old(self).state.cur_pop_card,
            final(self).room_id_buf == old(self).room_id_buf,
            final(self).room_id@ == old(self).room_id@,
            final(self).max_wait_second == old(self).max_wait_second,
            final(self).default_base_score == old(self).default_base_score,
            final(self).other_ops@ == old(self).other_ops@,
            final(self).cur_player_ops == old(self).cur_player_ops,
            final(self).recv_other_ops@ == old(self).recv_other_ops@,
    {
        broadcast use vstd::seq_lib::group_to_multiset_ensures;

        self.state.init();
        proof {
            if old(self).fresh() {
                assert(old(self).state.hide_card@ + state::full_set_ids() =~= state::full_set_ids());
                assert forall|k: int|
                    0 <= k < self.state.hide_card.len() implies #[trigger] self.state.hide_card@[k]
                    < 112 by {
                    let c = self.state.hide_card@[k];
                    assert(self.state.hide_card@.contains(c));
                    assert(self.state.hide_card@.to_multiset().count(c) > 0);
                    assert(state::full_set_ids().to_multiset().count(c) > 0);
                    assert(state::full_set_ids().contains(c));
                    let j = choose|j: int| 0 <= j < 112 && state::full_set_ids()[j] == c;
                }
            }
        }
        self.state.deal_card();
        proof {
            if old(self).fresh() {
                assert forall|q: int, c: u8|
                    0 <= q < self.state.player_state.len() && #[trigger] self.state.player_state@[q].hand().contains(c)
                        implies c < 252 by {
                    let hide = self.state.hide_card@;
                    let sub = hide.subrange(13 * q, 13 * q + 13);
                    assert(sub.to_set().contains(c));
                    assert(sub.contains(c));
                    let i = choose|i: int| 0 <= i < sub.len() && sub[i] == c;
                    assert(hide[13 * q + i] == c);
                }
            }
        }
        self.state.print_state();
    }

    /// Prepares the next round: new players, a fresh table, and either the next banker at
    /// the default base score or the same banker at a base score one higher.
    pub fn reset(&mut self, next_banker: bool, players: Vec<Player>, cur_round: i32)
        requires
            players.len() < usize::MAX,
            next_banker ==> players.len() > 0 && old(self).cur_banker < usize::MAX,
            !next_banker ==> old(self).base_score < i32::MAX,
        ensures
            final(self).players@ == players@,
            final(self).state.win_player == players.len() + 1,
            final(self).state.cur_step == 0,
            final(self).state.cur_state == state::StateType::DealCard,
            final(self).state.win_method == Action::Hu,
            final(self).state.cur_pop_card == 0,
            final(self).state.player_state@.len() == 0,
            final(self).state.hide_card@.len() == 0,
            final(self).state.cards@.len() == 0,
            final(self).state.cur_card_ix == 0,
            final(self).state.cur_player == 0,
            final(self).other_ops@.len() == 0,
            final(self).cur_player_ops is None,
            final(self).recv_other_ops@ == old(self).recv_other_ops@,
            final(self).default_base_score == old(self).default_base_score,
            final(self).base_score == if next_banker {
                old(self).default_base_score as int
            } else {
                old(self).base_score + 1
            },
            final(self).cur_banker == if next_banker {
                (old(self).cur_banker + 1) % players.len() as int
            } else {
                old(self).cur_banker as int
            },
            final(self).cur_round == cur_round,
            final(self).room_id_buf == old(self).room_id_buf,
            final(self).max_wait_second == old(self).max_wait_second,
            final(self).room_id@ == old(self).room_id@,
            players.len() == 4 ==> final(self).fresh(),
    {
        self.players = players;
        self.state = GameState::new(self.players.len());
        self.other_ops = Vec::new();
        self.cur_player_ops = None;
        if next_banker {
            self.base_score = self.default_base_score;
            self.cur_banker = (self.cur_banker + 1) % self.players.len();
        } else {
            self.base_score += 1;
        }
        self.cur_round = cur_round;
    }

    /// The id of the winner, if someone won.
    pub fn get_win_user_id(&self) -> (r: Option<i64>)
        requires
            self.state.win_player < 4 ==> self.state.win_player < self.players.len(),
        ensures
            self.state.win_player < 4 ==> r == Some(self.players@[self.state.win_player as int].id),
            self.state.win_player >= 4 ==> r is None,
    {
        if self.state.win_player < 4 {
            return Some(self.players[self.state.win_player].id);
        }
        None
    }

    pub fn get_cur_banker_pos(&self) -> (r: usize)
        ensures
            r == self.cur_banker,
    {
        self.cur_banker
    }

    /// The score change of a player at the end of the round.
    pub fn get_user_score(&self, user_id: &i64) -> (r: i32)
        requires
            base_in_range(self.base_score),
        ensures
            r == user_score(
                self.players@,
                *user_id,
                self.cur_banker as int,
                self.state.win_player as int,
                self.base_score as int,
            ),
    {
        let n = self.players.len();
        for ix in 0..n
            invariant
                n == self.players.len(),
                base_in_range(self.base_score),
                forall|j: int| 0 <= j < ix ==> self.players@[j].id != *user_id,
        {
            let player = self.players[ix];
            if *user_id == player.id {
                proof {
                    let c = choose|i: int| is_first_seat(self.players@, *user_id, i);
                    assert(is_first_seat(self.players@, *user_id, ix as int));
                    if c < ix {
                    } else if c > ix {
                        assert(self.players@[ix as int].id != *user_id);
                    }
                }
                if self.state.win_player >= 4 && ix == self.cur_banker {
                    return -self.base_score * 3;
                }
                if self.state.win_player >= 4 && ix != self.cur_banker {
                    return self.base_score;
                }
                if self.state.win_player < 4 && ix == self.state.win_player {
                    return self.base_score * 3;
                }
                return -self.base_score;
            }
        }
        0
    }

    /// The seat of the player with id `user_id`; seat 0 when nobody has it.
    pub fn get_user_pos(&self, user_id: i64) -> (r: usize)
        ensures
            (exists|i: int| is_first_seat(self.players@, user_id, i)) ==> is_first_seat(
                self.players@,
                user_id,
                r as int,
            ),
            !(exists|i: int| is_first_seat(self.players@, user_id, i)) ==> r == 0,
    {
        let n = self.players.len();
        for ix in 0..n
            invariant
                n == self.players.len(),
                forall|j: int| 0 <= j < ix ==> self.players@[j].id != user_id,
        {
            if self.players[ix].id == user_id {
                assert(is_first_seat(self.players@, user_id, ix as int));
                return ix;
            }
        }
        proof {
            if exists|i: int| is_first_seat(self.players@, user_id, i) {
                let i = choose|i: int| is_first_seat(self.players@, user_id, i);
                assert(self.players@[i].id == user_id);
            }
        }
        0
    }

    /// The user id that tags a message passed inside the server.
    pub fn parse_authorized_info(&self, data: &Vec<u8>) -> (r: i64)
        requires
            data.len() >= 8,
        ensures
            r == (crate::session::le_value(data@.take(8)) as u64) as i64,
    {
        crate::session::read_user_id(data)
    }

    /// A message of a player is taken only for the current round and step.
    pub fn check_user_op_valid(&self, user_id: i64, msg: &GameOperation) -> (r: bool)
        ensures
            r == (msg.game_info.cur_game_round == self.cur_round && msg.game_info.cur_game_step
                == self.state.cur_step),
    {
        if msg.game_info.cur_game_round != self.cur_round {
            return false;
        }
        if msg.game_info.cur_game_step != self.state.cur_step {
            return false;
        }
        true
    }
}

/// The operations offered to each of the first four seats, seat by seat.
pub open spec fn offered(other_ops: Seq<Option<Vec<MajiangOperation>>>, n: int) -> Seq<(usize, OpModel)>
    decreases n,
{
    if n <= 0 {
        Seq::empty()
    } else {
        offered(other_ops, n - 1) + match other_ops[n - 1] {
            Some(v) => operation::ops_view(v@).map_values(|o: OpModel| ((n - 1) as usize, o)),
            None => Seq::empty(),
        }
    }
}

/// `k` is the first index of an operation of the highest priority.
pub open spec fn is_best(ops: Seq<OpModel>, k: int) -> bool {
    &&& 0 <= k < ops.len()
    &&& forall|j: int| 0 <= j < ops.len() ==> #[trigger] ops[j].op.spec_priority() <= ops[k].op.spec_priority()
    &&& forall|j: int| 0 <= j < k ==> #[trigger] ops[j].op.spec_priority() < ops[k].op.spec_priority()
}

/// Some operation has a priority above zero.
pub open spec fn has_ranked_op(ops: Option<Vec<MajiangOperation>>) -> bool {
    ops matches Some(v) && exists|k: int| 0 <= k < v@.len() && #[trigger] v@[k].op.spec_priority() > 0
}

/// The stable ordering by priority, computed one priority at a time.
fn order_by_priority(items: &Vec<PendingOp>) -> (r: Vec<PendingOp>)
    ensures
        pendings_view(r@) == by_priority(pendings_view(items@)),
{
    let mut out: Vec<PendingOp> = Vec::new();
    let ghost s = pendings_view(items@);
    for k in 0..6u8
        invariant
            s == pendings_view(items@),
            pendings_view(out@) == (if k == 0 {
                Seq::<(usize, OpModel)>::empty()
            } else if k == 1 {
                s.filter(has_priority(0))
            } else if k == 2 {
                s.filter(has_priority(0)) + s.filter(has_priority(1))
            } else if k == 3 {
                s.filter(has_priority(0)) + s.filter(has_priority(1)) + s.filter(has_priority(2))
            } else if k == 4 {
                s.filter(has_priority(0)) + s.filter(has_priority(1)) + s.filter(has_priority(2))
                    + s.filter(has_priority(3))
            } else if k == 5 {
                s.filter(has_priority(0)) + s.filter(has_priority(1)) + s.filter(has_priority(2))
                    + s.filter(has_priority(3)) + s.filter(has_priority(4))
            } else {
                by_priority(s)
            }),
    {
        let ghost start = pendings_view(out@);
        let n = items.len();
        for i in 0..n
            invariant
                n == items.len(),
                s == pendings_view(items@),
                pendings_view(out@) == start + s.take(i as int).filter(has_priority(k)),
        {
            proof {
                let p = s.take(i as int);
                assert(s.take(i + 1) =~= p.push(s[i as int]));
                p.lemma_filter_push(s[i as int], has_priority(k));
            }
            if items[i].op.op.priority() == k {
                let ghost before = out@;
                out.push(PendingOp { player: items[i].player, op: items[i].op.duplicate() });
                assert(pendings_view(out@) =~= pendings_view(before).push(s[i as int]));
            }
        }
        assert(s.take(n as int) =~= s);
    }
    out
}

impl Game {
    /// The pop that a player makes when nobody answers in time: the first card that has no
    /// partner and no neighbor, else a card picked by chance; nothing for an empty hand.
    pub fn mock_recv_player_pop(&mut self, player: usize) -> (r: Option<MajiangOperation>)
        requires
            player < old(self).state.player_state.len(),
        ensures
            ({
                let cards = state::ascending(old(self).state.player_state@[player as int].hand());
                &&& r is None <==> cards.len() == 0
                &&& r matches Some(o) ==> o.op == Action::Pop && o.on_hand@ == seq![o.target]
                    && cards.contains(o.target) && ((exists|c: u8| operation::is_first_isolated(cards, c))
                    ==> operation::is_first_isolated(cards, o.target))
            }),
            final(self).players@ == old(self).players@,
            final(self).state.same_state(&old(self).state),
            final(self).state.cur_pop_card == old(self).state.cur_pop_card,
    {
        let player_state = self.state.get_player_state(player);
        let cards = player_state.on_hand_card_id();
        if let Some(card) = MajiangOperation::select_advised_pop_card(&cards) {
            proof {
                assert(operation::is_first_isolated(cards@, card));
                assert forall|c: u8| operation::is_first_isolated(cards@, c) implies c == card by {
                    let i = choose|i: int|
                        0 <= i < cards@.len() && cards@[i] == card && operation::is_isolated(cards@, card) && forall|j: int|
                            0 <= j < i ==> !operation::is_isolated(cards@, #[trigger] cards@[j]);
                    let i2 = choose|i2: int|
                        0 <= i2 < cards@.len() && cards@[i2] == c && operation::is_isolated(cards@, c) && forall|j: int|
                            0 <= j < i2 ==> !operation::is_isolated(cards@, #[trigger] cards@[j]);
                    if i < i2 {
                        assert(!operation::is_isolated(cards@, cards@[i]));
                    } else if i2 < i {
                        assert(!operation::is_isolated(cards@, cards@[i2]));
                    }
                }
                assert(cards@.contains(cards@[0]) || cards@.len() == 0);
            }
            return MajiangOperation::pop_card(card);
        }
        let mut rng = random::thread_rng();
        if let Some(ix) = random::choose_one(cards.as_slice(), &mut rng) {
            proof {
                assert forall|c: u8| !operation::is_first_isolated(cards@, c) by {
                    if operation::is_first_isolated(cards@, c) {
                        let i = choose|i: int|
                            0 <= i < cards@.len() && cards@[i] == c && operation::is_isolated(cards@, c) && forall|j: int|
                                0 <= j < i ==> !operation::is_isolated(cards@, #[trigger] cards@[j]);
                        assert(!operation::is_isolated(cards@, cards@[i]));
                    }
                }
            }
            MajiangOperation::pop_card(ix)
        } else {
            None
        }
    }

    /// Takes, for each of the first four seats offered operations, the first of them.
    pub fn mock_recv_other_player_op(&mut self)
        requires
            old(self).other_ops.len() >= 4,
            old(self).recv_other_ops.len() >= 4,
            forall|i: int|
                0 <= i < 4 ==> (#[trigger] old(self).other_ops@[i] matches Some(v) ==> v.len() > 0),
        ensures
            final(self).recv_other_ops.len() == old(self).recv_other_ops.len(),
            forall|i: int|
                0 <= i < old(self).recv_other_ops.len() && !(i < 4 && old(self).other_ops@[i] is Some)
                    ==> #[trigger] final(self).recv_other_ops@[i] == old(self).recv_other_ops@[i],
            forall|i: int|
                0 <= i < 4 ==> (#[trigger] old(self).other_ops@[i] matches Some(v) ==> (final(self).recv_other_ops@[i] matches Some(o) && o@ == v@[0]@)),
            final(self).other_ops@ == old(self).other_ops@,
            final(self).players@ == old(self).players@,
            final(self).state.same_state(&old(self).state),
    {
        for i in 0..4usize
            invariant
                self.other_ops@ == old(self).other_ops@,
                self.other_ops.len() >= 4,
                self.players@ == old(self).players@,
                self.state.same_state(&old(self).state),
                self.recv_other_ops.len() == old(self).recv_other_ops.len(),
                old(self).recv_other_ops.len() >= 4,
                old(self).other_ops.len() >= 4,
                forall|q: int|
                    0 <= q < 4 ==> (#[trigger] old(self).other_ops@[q] matches Some(v) ==> v.len() > 0),
                forall|q: int|
                    0 <= q < old(self).recv_other_ops.len() && !(q < i && old(self).other_ops@[q] is Some)
                        ==> #[trigger] self.recv_other_ops@[q] == old(self).recv_other_ops@[q],
                forall|q: int|
                    0 <= q < i ==> (#[trigger] old(self).other_ops@[q] matches Some(v) ==> (
                    self.recv_other_ops@[q] matches Some(o) && o@ == v@[0]@)),
        {
            if let Some(op) = &self.other_ops[i] {
                let first = op[0].duplicate();
                self.recv_other_ops[i] = Some(first);
            }
        }
    }

    /// The operation taken for the current player when it chose none in time: its offered
    /// operation of the highest priority (the first of them), else a pop.
    pub fn mock_recv_cur_player_op(&mut self) -> (r: MajiangOperation)
        requires
            old(self).state.cur_player < old(self).state.player_state.len(),
            !has_ranked_op(old(self).cur_player_ops) ==> state::ascending(
                old(self).state.player_state@[old(self).state.cur_player as int].hand(),
            ).len() > 0,
        ensures
            has_ranked_op(old(self).cur_player_ops) ==> (old(self).cur_player_ops matches Some(v)
                && exists|k: int| is_best(operation::ops_view(v@), k) && r@ == v@[k]@),
            !has_ranked_op(old(self).cur_player_ops) ==> ({
                let cards = state::ascending(
                    old(self).state.player_state@[old(self).state.cur_player as int].hand(),
                );
                &&& r.op == Action::Pop
                &&& r.on_hand@ == seq![r.target]
                &&& cards.contains(r.target)
                &&& (exists|c: u8| operation::is_first_isolated(cards, c))
                    ==> operation::is_first_isolated(cards, r.target)
            }),
            final(self).players@ == old(self).players@,
            final(self).state.same_state(&old(self).state),
    {
        let mut cur_priority: u8 = 0;
        let mut cur_ix: usize = 0;
        if let Some(ops) = &self.cur_player_ops {
            let n = ops.len();
            for ix in 0..n
                invariant
                    n == ops.len(),
                    cur_priority == 0 ==> forall|j: int| 0 <= j < ix ==> #[trigger] ops@[j].op.spec_priority() == 0,
                    cur_priority > 0 ==> cur_ix < ix && ops@[cur_ix as int].op.spec_priority() == cur_priority
                        && (forall|j: int| 0 <= j < ix ==> #[trigger] ops@[j].op.spec_priority() <= cur_priority)
                        && (forall|j: int| 0 <= j < cur_ix ==> #[trigger] ops@[j].op.spec_priority() < cur_priority),
            {
                if ops[ix].op.priority() > cur_priority {
                    cur_ix = ix;
                    cur_priority = ops[ix].op.priority();
                }
            }
        }
        if cur_priority != 0 {
            if let Some(ops) = &self.cur_player_ops {
                let r = ops[cur_ix].duplicate();
                proof {
                    assert(is_best(operation::ops_view(ops@), cur_ix as int));
                }
                return r;
            }
        }
        proof {
            if let Some(v) = old(self).cur_player_ops {
                assert forall|k: int| 0 <= k < v@.len() implies #[trigger] v@[k].op.spec_priority() <= 0 by {}
            }
        }
        let player = self.state.cur_player();
        let op = self.mock_recv_player_pop(player);
        op.unwrap()
    }

    /// The operations offered to the first four seats, ordered by priority (lowest first,
    /// equal ones in seat order).
    pub fn collect_possible_ops(&self) -> (r: Vec<PendingOp>)
        requires
            self.other_ops.len() >= 4,
        ensures
            pendings_view(r@) == by_priority(offered(self.other_ops@, 4)),
    {
        let mut flat: Vec<PendingOp> = Vec::new();
        for i in 0..4usize
            invariant
                self.other_ops.len() >= 4,
                pendings_view(flat@) == offered(self.other_ops@, i as int),
        {
            let ghost start = pendings_view(flat@);
            if let Some(player_ops) = &self.other_ops[i] {
                let ghost entries = operation::ops_view(player_ops@).map_values(
                    |o: OpModel| (i, o),
                );
                let m = player_ops.len();
                for k in 0..m
                    invariant
                        m == player_ops.len(),
                        entries == operation::ops_view(player_ops@).map_values(|o: OpModel| (i, o)),
                        pendings_view(flat@) == start + entries.take(k as int),
                {
                    let ghost before = flat@;
                    flat.push(PendingOp { player: i, op: player_ops[k].duplicate() });
                    assert(pendings_view(flat@) =~= pendings_view(before).push(entries[k as int]));
                    assert(entries.take(k + 1) =~= entries.take(k as int).push(entries[k as int]));
                }
                assert(entries.take(m as int) =~= entries);
                assert(pendings_view(flat@) =~= offered(self.other_ops@, i + 1));
            } else {
                assert(pendings_view(flat@) =~= offered(self.other_ops@, i + 1));
            }
        }
        order_by_priority(&flat)
    }
}

/// Takes the choice of seat `pos`: its other pending operations are dropped, the choice is
/// added, and the list is ordered by priority again. Returns whether the first pending
/// operation is now the one of `pos`.
pub fn merge_choice(possible: &mut Vec<PendingOp>, pos: usize, op: MajiangOperation) -> (r: bool)
    ensures
        pendings_view(final(possible)@) == by_priority(
            pendings_view(old(possible)@).filter(not_of_player(pos)).push((pos, op@)),
        ),
        r == (pendings_view(final(possible)@)[0].0 == pos),
{
    let mut kept: Vec<PendingOp> = Vec::new();
    let ghost s = pendings_view(possible@);
    let n = possible.len();
    for i in 0..n
        invariant
            n == possible.len(),
            s == pendings_view(possible@),
            pendings_view(kept@) == s.take(i as int).filter(not_of_player(pos)),
    {
        proof {
            let p = s.take(i as int);
            assert(s.take(i + 1) =~= p.push(s[i as int]));
            p.lemma_filter_push(s[i as int], not_of_player(pos));
        }
        if possible[i].player != pos {
            let ghost before = kept@;
            kept.push(PendingOp { player: possible[i].player, op: possible[i].op.duplicate() });
            assert(pendings_view(kept@) =~= pendings_view(before).push(s[i as int]));
        }
    }
    assert(s.take(n as int) =~= s);
    let ghost before = kept@;
    kept.push(PendingOp { player: pos, op: op });
    assert(pendings_view(kept@) =~= pendings_view(before).push((pos, op@)));
    *possible = order_by_priority(&kept);
    proof {
        lemma_by_priority_nonempty(pendings_view(kept@));
    }
    possible[0].player == pos
}

/// The pending operation that is taken: the first one, if any.
pub fn first_choice(possible: &Vec<PendingOp>) -> (r: Option<(usize, MajiangOperation)>)
    ensures
        possible@.len() == 0 ==> r is None,
        possible@.len() > 0 ==> (r matches Some((p, o)) && p == possible@[0].player && o@
            == possible@[0].op@),
{
    if possible.len() > 0 {
        Some((possible[0].player, possible[0].op.duplicate()))
    } else {
        None
    }
}

/// The operation that a message of a player stands for, if its action number is known.
pub fn op_from_message(msg: &GameOperation) -> (r: Option<MajiangOperation>)
    ensures
        r matches Some(o) ==> o.op.spec_code() == msg.op_type && o.on_hand@ == msg.provide_cards@
            && o.target == msg.target,
        r is None <==> !(1 <= msg.op_type <= 12),
{
    match Action::from_code(msg.op_type) {
        Some(a) => Some(MajiangOperation { op: a, on_hand: msg.provide_cards.clone(), target: msg.target }),
        None => None,
    }
}

proof fn lemma_by_priority_nonempty(s: Seq<(usize, OpModel)>)
    requires
        s.len() > 0,
    ensures
        by_priority(s).len() == s.len(),
{
    broadcast use vstd::seq_lib::group_filter_ensures;

    lemma_by_priority_len(s);
}

/// Ordering by priority keeps every operation.
pub proof fn lemma_by_priority_len(s: Seq<(usize, OpModel)>)
    ensures
        by_priority(s).len() == s.len(),
    decreases s.len(),
{
    if s.len() == 0 {
        reveal(Seq::filter);
    } else {
        let dl = s.drop_last();
        let x = s.last();
        assert(s =~= dl.push(x));
        lemma_by_priority_len(dl);
        dl.lemma_filter_len_push(has_priority(0), x);
        dl.lemma_filter_len_push(has_priority(1), x);
        dl.lemma_filter_len_push(has_priority(2), x);
        dl.lemma_filter_len_push(has_priority(3), x);
        dl.lemma_filter_len_push(has_priority(4), x);
        dl.lemma_filter_len_push(has_priority(5), x);
        assert(x.1.op.spec_priority() <= 5);
    }
}


/// Ordering by priority neither loses nor invents an operation: the ordered list holds the
/// same operations, each as often.
pub proof fn lemma_by_priority_perm(s: Seq<(usize, OpModel)>)
    ensures
        by_priority(s).to_multiset() == s.to_multiset(),
    decreases s.len(),
{
    broadcast use {
        vstd::seq_lib::lemma_multiset_commutative,
        vstd::multiset::group_multiset_axioms,
        vstd::seq_lib::group_to_multiset_ensures,
    };

    if s.len() == 0 {
        lemma_by_priority_len(s);
        assert(by_priority(s) =~= Seq::<(usize, OpModel)>::empty());
    } else {
        let dl = s.drop_last();
        let x = s.last();
        assert(s =~= dl.push(x));
        lemma_by_priority_perm(dl);
        dl.lemma_filter_push(x, has_priority(0));
        dl.lemma_filter_push(x, has_priority(1));
        dl.lemma_filter_push(x, has_priority(2));
        dl.lemma_filter_push(x, has_priority(3));
        dl.lemma_filter_push(x, has_priority(4));
        dl.lemma_filter_push(x, has_priority(5));
        assert(x.1.op.spec_priority() <= 5);
        let b = by_priority(s).to_multiset();
        let bd = by_priority(dl).to_multiset();
        assert(b =~= bd.insert(x));
    }
}

/// The seat that `get_user_pos` finds is the one that `seat_of` names.
pub proof fn lemma_seat_of(players: Seq<Player>, id: i64, r: int)
    requires
        (exists|i: int| is_first_seat(players, id, i)) ==> is_first_seat(players, id, r),
        !(exists|i: int| is_first_seat(players, id, i)) ==> r == 0,
    ensures
        r == (if exists|i: int| is_first_seat(players, id, i) {
            choose|i: int| is_first_seat(players, id, i)
        } else {
            0
        }),
{
    if exists|i: int| is_first_seat(players, id, i) {
        let c = choose|i: int| is_first_seat(players, id, i);
        if c < r {
            assert(players[c].id != id);
        } else if c > r {
            assert(players[r].id != id);
        }
    }
}

/// At a table of players with distinct ids, the score change of each player is the change
/// of its seat.
pub proof fn lemma_user_score_of_seat(players: Seq<Player>, i: int, banker: int, win_player: int, base: int)
    requires
        0 <= i < players.len(),
        distinct_ids(players),
    ensures
        user_score(players, players[i].id, banker, win_player, base) == seat_score(
            i,
            banker,
            win_player,
            base,
        ),
{
    assert(is_first_seat(players, players[i].id, i));
    let c = choose|c: int| is_first_seat(players, players[i].id, c);
    if c < i {
        assert(players[c].id != players[i].id);
    } else if c > i {
        assert(players[i].id != players[c].id);
    }
}

/// The scores of a round, for players with distinct ids: when some seat won, the winner
/// gains three times the base and every other seat loses the base, whichever seat is banker;
/// with no winner the banker loses three times the base and every other seat gains it; an id
/// that holds no seat changes by nothing.
pub proof fn lemma_round_scores(players: Seq<Player>, banker: int, win_player: int, base: int, i: int)
    requires
        distinct_ids(players),
        0 <= i < players.len(),
        win_player >= 0,
    ensures
        win_player < 4 && i == win_player ==> user_score(players, players[i].id, banker, win_player, base)
            == 3 * base,
        win_player < 4 && i != win_player ==> user_score(players, players[i].id, banker, win_player, base)
            == -base,
        win_player >= 4 && i == banker ==> user_score(players, players[i].id, banker, win_player, base)
            == -3 * base,
        win_player >= 4 && i != banker ==> user_score(players, players[i].id, banker, win_player, base)
            == base,
        forall|id: i64|
            (forall|j: int| 0 <= j < players.len() ==> #[trigger] players[j].id != id) ==> user_score(
                players,
                id,
                banker,
                win_player,
                base,
            ) == 0,
{
    lemma_user_score_of_seat(players, i, banker, win_player, base);
}

/// Over a round the score changes of four players with distinct ids add up to zero.
pub proof fn lemma_round_zero_sum(players: Seq<Player>, banker: int, win_player: int, base: int)
    requires
        players.len() == 4,
        0 <= banker < 4,
        win_player >= 0,
        forall|i: int, j: int| 0 <= i < j < 4 ==> players[i].id != players[j].id,
    ensures
        user_score(players, players[0].id, banker, win_player, base) + user_score(
            players,
            players[1].id,
            banker,
            win_player,
            base,
        ) + user_score(players, players[2].id, banker, win_player, base) + user_score(
            players,
            players[3].id,
            banker,
            win_player,
            base,
        ) == 0,
{
    assert(distinct_ids(players));
    lemma_user_score_of_seat(players, 0, banker, win_player, base);
    lemma_user_score_of_seat(players, 1, banker, win_player, base);
    lemma_user_score_of_seat(players, 2, banker, win_player, base);
    lemma_user_score_of_seat(players, 3, banker, win_player, base);
    assert(user_score(players, players[0].id, banker, win_player, base) == seat_score(0, banker, win_player, base));
    assert(user_score(players, players[1].id, banker, win_player, base) == seat_score(1, banker, win_player, base));
    assert(user_score(players, players[2].id, banker, win_player, base) == seat_score(2, banker, win_player, base));
    assert(user_score(players, players[3].id, banker, win_player, base) == seat_score(3, banker, win_player, base));
}


/// The players at the start of a game: seated in the given order, with 100 points each.
pub open spec fn starting_players(ids: Seq<i64>) -> Seq<Player> {
    Seq::new(ids.len(), |i: int| Player { id: ids[i], pos: i as usize, score: 100 })
}

/// The scores of the players, seat by seat.
pub open spec fn scores_of(players: Seq<Player>) -> Seq<i32> {
    players.map_values(|p: Player| p.score)
}

/// The player with its score changed by `d`.
pub open spec fn with_change(p: Player, d: int) -> Player {
    Player { score: (p.score + d) as i32, ..p }
}

/// The sum of the scores of the players.
pub open spec fn total_score(players: Seq<Player>) -> int
    decreases players.len(),
{
    if players.len() == 0 {
        0
    } else {
        total_score(players.drop_last()) + players.last().score
    }
}

/// No two players share an id.
pub open spec fn distinct_ids(players: Seq<Player>) -> bool {
    forall|i: int, j: int| 0 <= i < j < players.len() ==> players[i].id != players[j].id
}

/// The length on the wire of a round update with four scores and four changes.
pub const ROUND_UPDATE_SIZE: usize = 67;

/// A game at one table: rounds are played until the score of a player falls to the end
/// score.
pub struct StartGame {
    pub players: Vec<Player>,
    pub end_score: i32,
    pub cur_round: i32,
    pub max_wait_second: u64,
    pub room_id: String,
    /// Set once a round was won: from then on every round passes the bank on.
    pub next_banker: bool,
}

impl StartGame {
    /// The change of the score of the player at seat `i` over `round`.
    pub open spec fn change_of(&self, round: &Game, i: int) -> int {
        user_score(
            round.players@,
            self.players@[i].id,
            round.cur_banker as int,
            round.state.win_player as int,
            round.base_score as int,
        )
    }

    pub fn new(room_id: String, players: Vec<i64>) -> (r: StartGame)
        ensures
            r.players@ == starting_players(players@),
            r.end_score == 0,
            r.cur_round == 1,
            r.max_wait_second == 1,
            r.room_id@ == room_id@,
            !r.next_banker,
    {
        let mut player_state: Vec<Player> = Vec::new();
        let n = players.len();
        for ix in 0..n
            invariant
                n == players.len(),
                player_state@ == starting_players(players@).take(ix as int),
        {
            let ghost before = player_state@;
            player_state.push(Player { id: players[ix], pos: ix, score: 100 });
            assert(starting_players(players@)[ix as int] == Player { id: players@[ix as int], pos: ix, score: 100 });
            assert(player_state@ =~= starting_players(players@).take(ix + 1));
        }
        assert(player_state@ =~= starting_players(players@));
        StartGame {
            players: player_state,
            end_score: 0,
            cur_round: 1,
            max_wait_second: 1,
            room_id: room_id,
            next_banker: false,
        }
    }

    pub fn get_player_score(&self) -> (r: Vec<i32>)
        ensures
            r@ == scores_of(self.players@),
    {
        let mut score: Vec<i32> = Vec::new();
        let n = self.players.len();
        for i in 0..n
            invariant
                n == self.players.len(),
                score@ == scores_of(self.players@).take(i as int),
        {
            score.push(self.players[i].score);
            assert(score@ =~= scores_of(self.players@).take(i + 1));
        }
        assert(score@ =~= scores_of(self.players@));
        score
    }

    /// The game is over once some player has no more than the end score.
    pub fn over(&self) -> (r: bool)
        ensures
            r == exists|i: int| 0 <= i < self.players.len() && #[trigger] self.players@[i].score <= self.end_score,
    {
        let n = self.players.len();
        for i in 0..n
            invariant
                n == self.players.len(),
                forall|j: int| 0 <= j < i ==> #[trigger] self.players@[j].score > self.end_score,
        {
            if self.players[i].score <= self.end_score {
                return true;
            }
        }
        false
    }

    /// The first round of the game, with the players in their seats.
    pub fn new_round(&self) -> (r: Game)
        requires
            self.players.len() < usize::MAX,
            vstd::utf8::encode_utf8(self.room_id@).len() <= 6,
        ensures
            r.players@ == self.players@,
            r.max_wait_second == self.max_wait_second,
            r.room_id@ == self.room_id@,
            r.cur_banker == 0,
            r.cur_round == 1,
            r.base_score == 5,
            r.default_base_score == 5,
            self.players.len() == 4 ==> r.fresh(),
    {
        Game::new(self.players.clone(), self.max_wait_second, self.room_id.clone())
    }

    /// The message that opens a round: the scores, with no change yet.
    pub fn round_start(&self, round: &Game) -> (r: GameRoundUpdate)
        requires
            round.cur_banker < self.players.len(),
        ensures
            r.header.msg_type == MsgType::GameRoundUpdate.spec_value(),
            r.header.len == ROUND_UPDATE_SIZE,
            r.round_info_type == RoundInfoType::RoundStart.spec_value(),
            r.cur_round == self.cur_round,
            r.cur_banker_pos == round.cur_banker as u8,
            r.cur_banker_user_id == self.players@[round.cur_banker as int].id,
            r.user_cur_score@ == scores_of(self.players@),
            r.user_score_change@ == seq![0i32, 0i32, 0i32, 0i32],
    {
        let banker = round.get_cur_banker_pos();
        GameRoundUpdate {
            header: Header {
                msg_type: MsgType::GameRoundUpdate.value(),
                len: ROUND_UPDATE_SIZE as i32,
            },
            round_info_type: RoundInfoType::RoundStart.value(),
            cur_round: self.cur_round,
            cur_banker_pos: banker as u8,
            cur_banker_user_id: self.players[banker].id,
            user_cur_score: self.get_player_score(),
            user_score_change: vec![0i32, 0i32, 0i32, 0i32],
        }
    }

    /// Ends a round: the bank passes on from now if the round was won, each player's score
    /// changes by what the round gives it, and the message tells the scores and changes.
    /// With four players of distinct ids seated in the round as here, the total of the
    /// scores stays the same.
    pub fn settle_round(&mut self, round: &Game) -> (r: GameRoundUpdate)
        requires
            round.cur_banker < old(self).players.len(),
            base_in_range(round.base_score),
            round.state.win_player < 4 ==> round.state.win_player < round.players.len(),
            forall|i: int|
                0 <= i < old(self).players.len() ==> i32::MIN <= #[trigger] old(self).players@[i].score
                    + old(self).change_of(round, i) <= i32::MAX,
        ensures
            final(self).next_banker == (old(self).next_banker || round.state.win_player < 4),
            final(self).end_score == old(self).end_score,
            final(self).cur_round == old(self).cur_round,
            final(self).max_wait_second == old(self).max_wait_second,
            final(self).room_id@ == old(self).room_id@,
            final(self).players.len() == old(self).players.len(),
            forall|i: int|
                0 <= i < old(self).players.len() ==> #[trigger] final(self).players@[i] == with_change(
                    old(self).players@[i],
                    old(self).change_of(round, i),
                ),
            r.header.msg_type == MsgType::GameRoundUpdate.spec_value(),
            r.header.len == ROUND_UPDATE_SIZE,
            r.round_info_type == RoundInfoType::RoundOver.spec_value(),
            r.cur_round == old(self).cur_round,
            r.cur_banker_pos == round.cur_banker as u8,
            r.cur_banker_user_id == old(self).players@[round.cur_banker as int].id,
            r.user_cur_score@ == scores_of(final(self).players@),
            r.user_score_change@.len() == old(self).players.len(),
            forall|i: int|
                0 <= i < old(self).players.len() ==> #[trigger] r.user_score_change@[i]
                    == old(self).change_of(round, i),
            ({
                let ps = old(self).players@;
                ps.len() == 4 && distinct_ids(ps) && round.cur_banker < 4 && (forall|i: int|
                    0 <= i < 4 ==> #[trigger] round.players@[i].id == ps[i].id)
                    && round.players.len() == 4 ==> total_score(final(self).players@)
                    == total_score(ps)
            }),
    {
        if let Some(_) = round.get_win_user_id() {
            self.next_banker = true;
        }
        let ghost before = self.players@;
        let ghost nb = self.next_banker;
        let mut score_change: Vec<i32> = Vec::new();
        let n = self.players.len();
        for i in 0..n
            invariant
                n == self.players.len(),
                self.next_banker == nb,
                self.end_score == old(self).end_score,
                self.cur_round == old(self).cur_round,
                self.max_wait_second == old(self).max_wait_second,
                self.room_id@ == old(self).room_id@,
                n == before.len(),
                base_in_range(round.base_score),
                self.players@.len() == before.len(),
                forall|j: int|
                    0 <= j < n ==> i32::MIN <= #[trigger] before[j].score + user_score(
                        round.players@,
                        before[j].id,
                        round.cur_banker as int,
                        round.state.win_player as int,
                        round.base_score as int,
                    ) <= i32::MAX,
                score_change@.len() == i,
                forall|j: int|
                    0 <= j < i ==> #[trigger] score_change@[j] == user_score(
                        round.players@,
                        before[j].id,
                        round.cur_banker as int,
                        round.state.win_player as int,
                        round.base_score as int,
                    ),
                forall|j: int|
                    0 <= j < n ==> #[trigger] self.players@[j] == (if j < i {
                        with_change(
                            before[j],
                            user_score(
                                round.players@,
                                before[j].id,
                                round.cur_banker as int,
                                round.state.win_player as int,
                                round.base_score as int,
                            ),
                        )
                    } else {
                        before[j]
                    }),
        {
            let player = self.players[i];
            let score = round.get_user_score(&player.id);
            self.players.set(i, Player { score: player.score + score, ..player });
            score_change.push(score);
        }
        let banker = round.get_cur_banker_pos();
        proof {
            let ps = before;
            if ps.len() == 4 && distinct_ids(ps) && round.cur_banker < 4 && (forall|i: int|
                0 <= i < 4 ==> #[trigger] round.players@[i].id == ps[i].id) && round.players.len() == 4 {
                let rp = round.players@;
                assert(distinct_ids(rp));
                lemma_round_zero_sum(
                    rp,
                    round.cur_banker as int,
                    round.state.win_player as int,
                    round.base_score as int,
                );
                lemma_total_four(ps);
                lemma_total_four(self.players@);
                assert(rp[0].id == ps[0].id && rp[1].id == ps[1].id && rp[2].id == ps[2].id && rp[3].id == ps[3].id);
            }
        }
        GameRoundUpdate {
            header: Header {
                msg_type: MsgType::GameRoundUpdate.value(),
                len: ROUND_UPDATE_SIZE as i32,
            },
            round_info_type: RoundInfoType::RoundOver.value(),
            cur_round: self.cur_round,
            cur_banker_pos: banker as u8,
            cur_banker_user_id: self.players[banker].id,
            user_cur_score: self.get_player_score(),
            user_score_change: score_change,
        }
    }

    /// Prepares `round` for the next round with the players as they stand now, and counts
    /// the round.
    pub fn next_round(&mut self, round: &mut Game)
        requires
            old(self).players.len() < usize::MAX,
            old(self).next_banker ==> old(self).players.len() > 0 && old(round).cur_banker
                < usize::MAX,
            !old(self).next_banker ==> old(round).base_score < i32::MAX,
            old(self).cur_round < i32::MAX,
        ensures
            final(self).cur_round == old(self).cur_round + 1,
            final(self).players@ == old(self).players@,
            final(self).next_banker == old(self).next_banker,
            final(self).end_score == old(self).end_score,
            final(self).room_id@ == old(self).room_id@,
            final(round).players@ == old(self).players@,
            final(round).cur_round == old(self).cur_round,
            final(round).base_score == if old(self).next_banker {
                old(round).default_base_score as int
            } else {
                old(round).base_score + 1
            },
            final(round).cur_banker == if old(self).next_banker {
                (old(round).cur_banker + 1) % old(self).players.len() as int
            } else {
                old(round).cur_banker as int
            },
            final(round).default_base_score == old(round).default_base_score,
            final(round).room_id@ == old(round).room_id@,
            old(self).players.len() == 4 ==> final(round).fresh(),
    {
        round.reset(self.next_banker, self.players.clone(), self.cur_round);
        self.cur_round += 1;
    }
}

/// The total of four scores is their sum.
proof fn lemma_total_four(ps: Seq<Player>)
    requires
        ps.len() == 4,
    ensures
        total_score(ps) == ps[0].score + ps[1].score + ps[2].score + ps[3].score,
{
    let p3 = ps.drop_last();
    let p2 = p3.drop_last();
    let p1 = p2.drop_last();
    let p0 = p1.drop_last();
    assert(p0.len() == 0);
    assert(total_score(p0) == 0);
    assert(p1.last() == ps[0]);
    assert(p2.last() == ps[1]);
    assert(p3.last() == ps[2]);
    assert(total_score(p1) == ps[0].score);
    assert(total_score(p2) == ps[0].score + ps[1].score);
    assert(total_score(p3) == ps[0].score + ps[1].score + ps[2].score);
}

} // verus!
