use vstd::prelude::*;

use crate::game::Game;
use crate::melds;
use crate::message;
use crate::message::{
    GameBasicInfo, GameOperation, GameOperationPack, GameUpdate, Header, MsgType, HEADER_SIZE,
};
use crate::operation;
use crate::operation::{Action, MajiangOperation, OpModel};
use crate::state;

verus! {

/// A message that the table sends to one user.
pub enum Outbound {
    Update(i64, GameUpdate),
    Offer(i64, GameOperationPack),
}

/// The length on the wire of an update that tells of a move and gives no cards.
pub const BARE_UPDATE_SIZE: usize = 42;

/// The length on the wire announced for the update that deals an opening hand.
pub const BEGIN_UPDATE_SIZE: usize = 55;

/// What the table does after the current player chose.
pub enum TurnStep {
    /// The card was popped: the messages tell the table of it and offer the answers; the
    /// table now waits for the answers.
    WaitOthers(Vec<Outbound>),
    /// The player won on its own: the messages tell the table, and the round is over.
    RoundOver(Vec<Outbound>),
    /// Nothing was done: the table waits for the current player again.
    KeepWaiting,
}

/// What the table does with the answer taken to a popped card.
pub enum AnswerStep {
    /// A player took the card and now has the turn, without drawing.
    SameTurn(Vec<Outbound>),
    /// A player won on the card, and the round is over.
    RoundOver(Vec<Outbound>),
    /// Nobody took the card: the next seat draws.
    NextTurn,
}

impl Game {
    /// What the player at seat `p` can answer the popped card with.
    pub open spec fn rsp_of(&self, p: int) -> Seq<OpModel> {
        state::spec_rsp_ops(
            state::ascending(self.state.player_state@[p].hand()),
            self.state.cur_pop_card,
            p == (self.state.cur_player + 1) % 4,
        )
    }

    /// Seat `p`, if it can answer the popped card.
    pub open spec fn seat_if(&self, p: int) -> Seq<int> {
        if self.rsp_of(p).len() > 0 {
            seq![p]
        } else {
            Seq::empty()
        }
    }

    /// The seats after the current one, in turn order up to `i - 1` places on, that can
    /// answer the popped card.
    pub open spec fn seats_before(&self, i: int) -> Seq<int>
        decreases i,
    {
        if i <= 1 {
            Seq::empty()
        } else {
            self.seats_before(i - 1) + self.seat_if((self.state.cur_player + i - 1) % 4)
        }
    }

    /// The seats, in turn order after the current one, that can answer the popped card.
    pub open spec fn answering_seats(&self) -> Seq<int> {
        self.seats_before(4)
    }

    /// The operations offered after a pop: for each other seat that can answer, what it
    /// can answer with; nothing for the current seat.
    pub open spec fn offers_match(&self) -> bool {
        &&& self.other_ops.len() == 4
        &&& forall|p: int|
            0 <= p < 4 ==> if p != self.state.cur_player && self.rsp_of(p).len() > 0 {
                #[trigger] self.other_ops@[p] matches Some(v) && operation::ops_view(v@)
                    == self.rsp_of(p)
            } else {
                self.other_ops@[p] is None
            }
    }

    /// The table before and after a win of seat `player`.
    pub open spec fn won_by(&self, before: &Game, player: int, how: Action) -> bool {
        &&& self.state.win_player == player
        &&& self.state.cur_player == player
        &&& self.state.cur_state == state::StateType::WinOver
        &&& self.state.cur_step == before.state.cur_step + 1
        &&& self.state.win_method == how
        &&& self.state.player_state@ == before.state.player_state@
        &&& self.state.cards@ == before.state.cards@
        &&& self.state.hide_card@ == before.state.hide_card@
        &&& self.state.cur_card_ix == before.state.cur_card_ix
        &&& self.state.cur_pop_card == before.state.cur_pop_card
    }

    /// The seat that the player with id `user_id` holds; seat 0 when nobody has it.
    pub open spec fn seat_of(&self, user_id: i64) -> int {
        if exists|i: int| crate::game::is_first_seat(self.players@, user_id, i) {
            choose|i: int| crate::game::is_first_seat(self.players@, user_id, i)
        } else {
            0
        }
    }

    /// The table is set for play: four players with four hands, a current player among
    /// them, and every card id on the table low enough for the group search.
    pub open spec fn seated(&self) -> bool {
        &&& self.players.len() == 4
        &&& self.state.player_state.len() == 4
        &&& self.state.cur_player < 4
        &&& self.state.cur_pop_card < 252
        &&& self.state.cur_card_ix <= self.state.hide_card.len()
        &&& state::hands_in_range(self.state.player_state@)
        &&& forall|k: int|
            0 <= k < self.state.hide_card.len() ==> #[trigger] self.state.hide_card@[k] < 252
    }

    /// The fields that a turn leaves alone hold the values that they hold in `other`.
    pub open spec fn same_setting(&self, other: &Game) -> bool {
        &&& self.players@ == other.players@
        &&& self.cur_round == other.cur_round
        &&& self.room_id_buf == other.room_id_buf
        &&& self.room_id@ == other.room_id@
        &&& self.base_score == other.base_score
        &&& self.default_base_score == other.default_base_score
        &&& self.cur_banker == other.cur_banker
        &&& self.max_wait_second == other.max_wait_second
    }

    /// `info` places a message at the current step and round of this table, for the
    /// player at seat `pos`.
    pub open spec fn info_is(&self, info: GameBasicInfo, pos: int) -> bool {
        &&& info.cur_game_step == self.state.cur_step
        &&& info.cur_game_round == self.cur_round
        &&& info.user_pos == pos
        &&& info.user_id == self.players@[pos].id
        &&& info.room_id == self.room_id_buf
    }

    /// `m` tells the player at seat `to` of a move of the player at seat `pos`: the kind
    /// `code`, the card `target`, the cards `cards`, under the length `len`.
    pub open spec fn is_update(
        &self,
        m: Outbound,
        to: int,
        pos: int,
        len: int,
        code: i8,
        target: u8,
        cards: Seq<u8>,
    ) -> bool {
        &&& m matches Outbound::Update(uid, u)
        &&& uid == self.players@[to].id
        &&& u.header.msg_type == MsgType::GameUpdate.spec_value()
        &&& u.header.len == len as i32
        &&& self.info_is(u.game_info, pos)
        &&& u.op_type == code
        &&& u.target == target
        &&& u.provide_cards@ == cards
    }

    /// `o` offers operation `op` to the player at seat `pos`.
    pub open spec fn is_op_msg(&self, o: GameOperation, pos: int, op: OpModel) -> bool {
        &&& o.header.msg_type == MsgType::GameOp.spec_value()
        &&& o.header.len == message::op_msg_size(op.on_hand.len() as int)
        &&& self.info_is(o.game_info, pos)
        &&& o.op_type == op.op.spec_code()
        &&& o.target == op.target
        &&& o.provide_cards@ == op.on_hand
    }

    /// `m` offers the operations `ops`, in this order, to the player at seat `pos`.
    pub open spec fn is_offer(&self, m: Outbound, pos: int, ops: Seq<OpModel>) -> bool {
        &&& m matches Outbound::Offer(uid, pack)
        &&& uid == self.players@[pos].id
        &&& pack.header.msg_type == MsgType::GameOpPack.spec_value()
        &&& pack.header.len == HEADER_SIZE + 8 + message::ops_msg_size(pack.operations@)
        &&& pack.operations@.len() == ops.len()
        &&& forall|k: int|
            0 <= k < ops.len() ==> self.is_op_msg(#[trigger] pack.operations@[k], pos, ops[k])
    }

    /// `m` tells every one of the four seats, in seat order, of the move `op` of the
    /// current player.
    pub open spec fn is_broadcast(&self, m: Seq<Outbound>, op: OpModel) -> bool {
        &&& m.len() >= 4
        &&& forall|i: int|
            0 <= i < 4 ==> self.is_update(
                #[trigger] m[i],
                i,
                self.state.cur_player as int,
                message::op_msg_size(op.on_hand.len() as int),
                op.op.spec_code(),
                op.target,
                op.on_hand,
            )
    }

    fn basic_info(&self, pos: usize) -> (r: GameBasicInfo)
        requires
            pos < self.players.len(),
            pos < 256,
        ensures
            self.info_is(r, pos as int),
    {
        GameBasicInfo::new(
            self.cur_round,
            self.state.cur_step,
            pos as u8,
            self.players[pos].id,
            self.room_id_buf,
        )
    }

    /// The message that offers `ops` to the player at seat `player`.
    pub fn notify_operation(&self, player: usize, ops: &Vec<MajiangOperation>) -> (r: Outbound)
        requires
            player < self.players.len(),
            player < 256,
            HEADER_SIZE + 8 + offers_len(operation::ops_view(ops@)) <= i32::MAX,
        ensures
            self.is_offer(r, player as int, operation::ops_view(ops@)),
    {
        let ghost all = operation::ops_view(ops@);
        let mut operations: Vec<GameOperation> = Vec::new();
        let mut data_len: usize = HEADER_SIZE + 8;
        let user_id = self.players[player].id;
        let n = ops.len();
        for i in 0..n
            invariant
                n == ops.len(),
                all == operation::ops_view(ops@),
                all.len() == n,
                player < self.players.len(),
                player < 256,
                user_id == self.players@[player as int].id,
                HEADER_SIZE + 8 + offers_len(all) <= i32::MAX,
                operations.len() == i,
                message::ops_msg_size(operations@) == offers_len(all.take(i as int)),
                data_len == HEADER_SIZE + 8 + message::ops_msg_size(operations@),
                forall|k: int|
                    0 <= k < i ==> self.is_op_msg(#[trigger] operations@[k], player as int, ops@[k]@),
        {
            proof {
                lemma_offers_len_prefix(all, i + 1);
                assert(all.take(i + 1).drop_last() =~= all.take(i as int));
                assert(all[i as int] == ops@[i as int]@);
            }
            let op = &ops[i];
            let op_len = HEADER_SIZE + message::GAME_INFO_SIZE + 1 + 1 + 8 + op.on_hand.len();
            data_len = data_len + op_len;
            let op_data = GameOperation {
                header: Header { msg_type: MsgType::GameOp.value(), len: op_len as i32 },
                game_info: self.basic_info(player),
                op_type: op.op.code(),
                target: op.target,
                provide_cards: op.on_hand.clone(),
            };
            let ghost before = operations@;
            operations.push(op_data);
            assert(operations@.drop_last() =~= before);
        }
        proof {
            assert(all.take(n as int) =~= all);
        }
        let op_list = GameOperationPack {
            header: Header { msg_type: MsgType::GameOpPack.value(), len: data_len as i32 },
            operations: operations,
        };
        Outbound::Offer(user_id, op_list)
    }

    /// The message that tells the player at seat `player` of the move `op` of the current
    /// player.
    pub fn notify_game_update(&self, player: usize, op: &MajiangOperation) -> (r: Outbound)
        requires
            player < self.players.len(),
            self.state.cur_player < self.players.len(),
            self.state.cur_player < 256,
            message::op_msg_size(op.on_hand.len() as int) <= usize::MAX,
        ensures
            self.is_update(
                r,
                player as int,
                self.state.cur_player as int,
                message::op_msg_size(op.on_hand.len() as int),
                op.op.spec_code(),
                op.target,
                op.on_hand@,
            ),
    {
        let data_len = HEADER_SIZE + message::GAME_INFO_SIZE + 1 + 1 + 8 + op.on_hand.len();
        let update = GameUpdate {
            header: Header { msg_type: MsgType::GameUpdate.value(), len: data_len as i32 },
            game_info: self.basic_info(self.state.cur_player),
            op_type: op.op.code(),
            target: op.target,
            provide_cards: op.on_hand.clone(),
        };
        Outbound::Update(self.players[player].id, update)
    }

    /// The messages that tell every seat of the move `op` of the current player.
    pub fn broadcast_game_update(&self, op: &MajiangOperation) -> (r: Vec<Outbound>)
        requires
            self.players.len() == 4,
            self.state.cur_player < 4,
            message::op_msg_size(op.on_hand.len() as int) <= usize::MAX,
        ensures
            r.len() == 4,
            self.is_broadcast(r@, op@),
    {
        let mut out: Vec<Outbound> = Vec::new();
        for i in 0..4usize
            invariant
                self.players.len() == 4,
                self.state.cur_player < 4,
                message::op_msg_size(op.on_hand.len() as int) <= usize::MAX,
                out.len() == i,
                forall|k: int|
                    0 <= k < i ==> self.is_update(
                        #[trigger] out@[k],
                        k,
                        self.state.cur_player as int,
                        message::op_msg_size(op.on_hand.len() as int),
                        op.op.spec_code(),
                        op.target,
                        op.on_hand@,
                    ),
        {
            out.push(self.notify_game_update(i, op));
        }
        out
    }

    /// The messages that open a round: each player learns its opening hand.
    pub fn begin_round(&self) -> (r: Vec<Outbound>)
        requires
            self.seated(),
        ensures
            r.len() == 4,
            forall|i: int|
                0 <= i < 4 ==> self.is_update(
                    #[trigger] r@[i],
                    i,
                    i,
                    BEGIN_UPDATE_SIZE as int,
                    Action::DealBeginCard.spec_code(),
                    0,
                    state::ascending(self.state.player_state@[i].hand()),
                ),
    {
        let mut out: Vec<Outbound> = Vec::new();
        for i in 0..4usize
            invariant
                self.seated(),
                out.len() == i,
                forall|k: int|
                    0 <= k < i ==> self.is_update(
                        #[trigger] out@[k],
                        k,
                        k,
                        BEGIN_UPDATE_SIZE as int,
                        Action::DealBeginCard.spec_code(),
                        0,
                        state::ascending(self.state.player_state@[k].hand()),
                    ),
        {
            let user_id = self.players[i].id;
            let deal_begin_card = GameUpdate {
                header: Header {
                    msg_type: MsgType::GameUpdate.value(),
                    len: BEGIN_UPDATE_SIZE as i32,
                },
                game_info: self.basic_info(i),
                op_type: Action::DealBeginCard.code(),
                target: 0,
                provide_cards: self.state.player_state[i].on_hand_card_id(),
            };
            out.push(Outbound::Update(user_id, deal_begin_card));
        }
        out
    }

    /// Draws the next card for the current player and tells the table: that player learns
    /// the card and its hand before the draw, the others only that it drew. When the hand
    /// now wins on its own, the player is offered the zimo.
    pub fn deal_turn(&mut self) -> (r: Vec<Outbound>)
        requires
            old(self).seated(),
            !old(self).state.spec_over(),
            old(self).state.cur_step < i64::MAX,
        ensures
            final(self).seated(),
            final(self).same_setting(old(self)),
            final(self).other_ops@ == old(self).other_ops@,
            final(self).recv_other_ops@ == old(self).recv_other_ops@,
            ({
                let cur = old(self).state.cur_player as int;
                let card = old(self).state.hide_card@[old(self).state.cur_card_ix as int];
                let before = state::ascending(old(self).state.player_state@[cur].hand());
                let after = state::ascending(final(self).state.player_state@[cur].hand());
                &&& final(self).state.same_table(&old(self).state)
                &&& final(self).state.cur_step == old(self).state.cur_step + 1
                &&& final(self).state.cur_state == state::StateType::WaitPop
                &&& final(self).state.cur_player == old(self).state.cur_player
                &&& final(self).state.cur_card_ix == old(self).state.cur_card_ix + 1
                &&& forall|q: int|
                    0 <= q < 4 && q != cur ==> #[trigger] final(self).state.player_state@[q]
                        == old(self).state.player_state@[q]
                &&& final(self).state.player_state@[cur].hand() == old(
                    self,
                ).state.player_state@[cur].hand().insert(card)
                &&& final(self).state.player_state@[cur].groups() == old(
                    self,
                ).state.player_state@[cur].groups()
                &&& final(self).state.player_state@[cur].recv_now() == Some(card)
                &&& final(self).is_update(
                    r@[0],
                    cur,
                    cur,
                    message::op_msg_size(before.len() as int),
                    Action::DealNextCard.spec_code(),
                    card,
                    before,
                )
                &&& forall|i: int|
                    1 <= i < 4 ==> final(self).is_update(
                        #[trigger] r@[i],
                        (cur + i) % 4,
                        cur,
                        BARE_UPDATE_SIZE as int,
                        Action::DealNextCard.spec_code(),
                        0,
                        Seq::empty(),
                    )
                &&& if melds::is_winning(melds::kinds(after)) {
                    let zimo = seq![
                        OpModel {
                            op: Action::ZiMo,
                            on_hand: after,
                            target: final(self).state.cur_pop_card,
                        },
                    ];
                    &&& final(self).cur_player_ops matches Some(v) && operation::ops_view(v@)
                        == zimo
                    &&& r.len() == 5
                    &&& final(self).is_offer(r@[4], cur, zimo)
                } else {
                    &&& final(self).cur_player_ops is None
                    &&& r.len() == 4
                }
            }),
    {
        let cur = self.state.cur_player();
        let on_hand_cards = self.state.player_state[cur].on_hand_card_id();
        proof {
            lemma_ascending_len(self.state.player_state@[cur as int].hand());
        }
        let next_card = self.state.deal_next_card();
        proof {
            assert forall|q: int, c: u8|
                0 <= q < self.state.player_state.len() && #[trigger] self.state.player_state@[q].hand().contains(c)
                    implies c < 252 by {
                if q != cur {
                    assert(old(self).state.player_state@[q].hand().contains(c));
                } else if c != next_card {
                    assert(old(self).state.player_state@[q].hand().contains(c));
                }
            }
        }
        let cur_user_id = self.players[cur].id;
        let ghost before = on_hand_cards@;
        let data_len = HEADER_SIZE + message::GAME_INFO_SIZE + 1 + 1 + 8 + on_hand_cards.len();
        let mut out: Vec<Outbound> = Vec::new();
        let next_card_msg = GameUpdate {
            header: Header { msg_type: MsgType::GameUpdate.value(), len: data_len as i32 },
            game_info: self.basic_info(cur),
            op_type: Action::DealNextCard.code(),
            target: next_card,
            provide_cards: on_hand_cards,
        };
        out.push(Outbound::Update(cur_user_id, next_card_msg));
        for i in 1..4usize
            invariant
                self.seated(),
                cur == self.state.cur_player,
                out.len() == i,
                self.is_update(
                    out@[0],
                    cur as int,
                    cur as int,
                    message::op_msg_size(before.len() as int),
                    Action::DealNextCard.spec_code(),
                    next_card,
                    before,
                ),
                forall|k: int|
                    1 <= k < i ==> self.is_update(
                        #[trigger] out@[k],
                        (cur + k) % 4,
                        cur as int,
                        BARE_UPDATE_SIZE as int,
                        Action::DealNextCard.spec_code(),
                        0,
                        Seq::empty(),
                    ),
        {
            let player = (cur + i) % 4;
            let other_msg = GameUpdate {
                header: Header {
                    msg_type: MsgType::GameUpdate.value(),
                    len: BARE_UPDATE_SIZE as i32,
                },
                game_info: self.basic_info(cur),
                op_type: Action::DealNextCard.code(),
                target: 0,
                provide_cards: Vec::new(),
            };
            out.push(Outbound::Update(self.players[player].id, other_msg));
        }
        if let Some(ops) = self.state.get_cur_player_ops() {
            proof {
                lemma_ascending_len(self.state.player_state@[cur as int].hand());
                assert(operation::ops_view(ops@).len() == ops@.len());
                assert(ops@[0]@ == operation::ops_view(ops@)[0]);
                lemma_offers_len_bound(operation::ops_view(ops@), 256);
            }
            out.push(self.notify_operation(cur, &ops));
            self.cur_player_ops = Some(ops);
        } else {
            self.cur_player_ops = None;
        }
        out
    }

    /// `after` is `before`, followed by an offer to seat `p` of its answers if it has any.
    pub open spec fn offer_step(&self, before: Seq<Outbound>, after: Seq<Outbound>, p: int) -> bool {
        if self.rsp_of(p).len() > 0 {
            &&& after == before.push(after.last())
            &&& self.is_offer(after.last(), p, self.rsp_of(p))
        } else {
            after == before
        }
    }

    /// The pop made and told: the first four messages tell every seat of it, the others
    /// offer the answering seats, in turn order, their answers.
    pub open spec fn pop_told(&self, m: Seq<Outbound>, op: OpModel) -> bool {
        let seats = self.answering_seats();
        &&& m.len() == 4 + seats.len()
        &&& self.is_broadcast(m, op)
        &&& forall|k: int|
            0 <= k < seats.len() ==> self.is_offer(#[trigger] m[4 + k], seats[k], self.rsp_of(seats[k]))
    }

    /// Records for seat `p` its answers to the popped card, if it has any.
    fn collect_answers(&self, p: usize, offers: &mut Vec<Option<Vec<MajiangOperation>>>)
        requires
            self.seated(),
            p < 4,
            old(offers).len() == 4,
        ensures
            final(offers).len() == 4,
            forall|q: int| 0 <= q < 4 && q != p ==> #[trigger] final(offers)@[q] == old(offers)@[q],
            if self.rsp_of(p as int).len() > 0 {
                final(offers)@[p as int] matches Some(v) && operation::ops_view(v@) == self.rsp_of(p as int)
            } else {
                final(offers)@[p as int] == old(offers)@[p as int]
            },
    {
        if let Some(ops) = self.state.get_player_rsp_for_pop_card(p) {
            offers.set(p, Some(ops));
        }
    }

    /// Adds to `msgs` the offer to seat `p` of its answers, if it has any.
    fn offer_answers(&self, p: usize, msgs: &mut Vec<Outbound>)
        requires
            self.seated(),
            self.offers_match(),
            p < 4,
            p != self.state.cur_player,
        ensures
            self.offer_step(old(msgs)@, final(msgs)@, p as int),
    {
        if let Some(ops) = &self.other_ops[p] {
            proof {
                lemma_ascending_len(self.state.player_state@[p as int].hand());
                lemma_rsp_bounded(
                    state::ascending(self.state.player_state@[p as int].hand()),
                    self.state.cur_pop_card,
                    p == (self.state.cur_player + 1) % 4,
                );
                assert(operation::ops_view(ops@).len() == ops@.len());
                lemma_offers_len_bound(operation::ops_view(ops@), 256);
            }
            let ghost before = msgs@;
            msgs.push(self.notify_operation(p, ops));
            assert(msgs@ =~= before.push(msgs@.last()));
        }
    }

    /// Pops the card of `op` from the hand of the current player, records the answers of
    /// the other seats, tells the table of the pop, and offers each other seat its answers.
    #[verifier::spinoff_prover]
    #[verifier::rlimit(30)]
    fn pop_turn(&mut self, op: &MajiangOperation) -> (m: Vec<Outbound>)
        requires
            old(self).seated(),
            old(self).state.cur_step < i64::MAX,
            message::op_msg_size(op.on_hand.len() as int) <= usize::MAX,
        ensures
            final(self).seated(),
            final(self).same_setting(old(self)),
            final(self).cur_player_ops == old(self).cur_player_ops,
            final(self).recv_other_ops@ == old(self).recv_other_ops@,
            final(self).state.popped(&old(self).state, op.target),
            final(self).offers_match(),
            final(self).pop_told(m@, op@),
    {
        let cur = self.state.cur_player();
        self.state.do_pop_card(cur, op);
        proof {
            assert forall|q: int, c: u8|
                0 <= q < self.state.player_state.len() && #[trigger] self.state.player_state@[q].hand().contains(c)
                    implies c < 252 by {
                assert(old(self).state.player_state@[q].hand().contains(c));
            }
            if old(self).state.player_state@[cur as int].hand().contains(op.target) {
                assert(old(self).state.player_state@[cur as int].hand().contains(op.target));
            }
        }
        let p1 = (cur + 1) % 4;
        let p2 = (cur + 2) % 4;
        let p3 = (cur + 3) % 4;
        let mut other_ops: Vec<Option<Vec<MajiangOperation>>> = vec![None, None, None, None];
        self.collect_answers(p1, &mut other_ops);
        self.collect_answers(p2, &mut other_ops);
        self.collect_answers(p3, &mut other_ops);
        proof {
            assert forall|p: int| 0 <= p < 4 implies (if p != cur && self.rsp_of(p).len() > 0 {
                #[trigger] other_ops@[p] matches Some(v) && operation::ops_view(v@) == self.rsp_of(p)
            } else {
                other_ops@[p] is None
            }) by {
                assert(p == cur || p == p1 || p == p2 || p == p3);
            }
        }
        self.other_ops = other_ops;
        let mut msgs = self.broadcast_game_update(op);
        let ghost m0 = msgs@;
        self.offer_answers(p1, &mut msgs);
        let ghost m1 = msgs@;
        self.offer_answers(p2, &mut msgs);
        let ghost m2 = msgs@;
        self.offer_answers(p3, &mut msgs);
        proof {
            lemma_offer_msgs(*self, m0, m1, m2, msgs@, op@);
        }
        msgs
    }

    /// Carries out the choice `op` of the current player. A pop takes the card from its
    /// hand, tells the table, and offers each other seat its answers; a zimo ends the round
    /// with a win of the player; any other choice changes nothing.
    pub fn cur_player_choice(&mut self, op: MajiangOperation) -> (r: TurnStep)
        requires
            old(self).seated(),
            old(self).state.cur_step < i64::MAX,
            message::op_msg_size(op.on_hand.len() as int) <= usize::MAX,
        ensures
            final(self).seated(),
            final(self).same_setting(old(self)),
            final(self).cur_player_ops == old(self).cur_player_ops,
            final(self).recv_other_ops@ == old(self).recv_other_ops@,
            op.op == Action::Pop ==> ({
                &&& final(self).state.popped(&old(self).state, op.target)
                &&& final(self).offers_match()
                &&& r matches TurnStep::WaitOthers(m) && final(self).pop_told(m@, op@)
            }),
            op.op == Action::ZiMo ==> ({
                &&& final(self).won_by(old(self), old(self).state.cur_player as int, Action::ZiMo)
                &&& final(self).other_ops@ == old(self).other_ops@
                &&& r matches TurnStep::RoundOver(m) && m.len() == 4 && final(self).is_broadcast(
                    m@,
                    op@,
                )
            }),
            op.op != Action::Pop && op.op != Action::ZiMo ==> ({
                &&& final(self).state.same_state(&old(self).state)
                &&& final(self).other_ops@ == old(self).other_ops@
                &&& r is KeepWaiting
            }),
    {
        if op.op == Action::Pop {
            let msgs = self.pop_turn(&op);
            TurnStep::WaitOthers(msgs)
        } else if op.op == Action::ZiMo {
            let cur = self.state.cur_player();
            self.state.execute_win_op(cur, &op);
            let msgs = self.broadcast_game_update(&op);
            TurnStep::RoundOver(msgs)
        } else {
            TurnStep::KeepWaiting
        }
    }

    /// Carries out the answer taken to the popped card: a hu ends the round with a win of
    /// the answering seat; any other operation is carried out and gives that seat the turn;
    /// with no answer the turn passes to the next seat.
    pub fn answer_step(&mut self, answer: Option<(usize, MajiangOperation)>) -> (r: AnswerStep)
        requires
            old(self).seated(),
            old(self).state.cur_step < i64::MAX,
            answer matches Some((p, o)) ==> p < 4 && message::op_msg_size(o.on_hand.len() as int)
                <= usize::MAX,
        ensures
            final(self).seated(),
            final(self).same_setting(old(self)),
            final(self).other_ops@ == old(self).other_ops@,
            final(self).recv_other_ops@ == old(self).recv_other_ops@,
            answer is None ==> ({
                &&& final(self).state.cur_player == (old(self).state.cur_player + 1) % 4
                &&& final(self).state.same_table(&old(self).state)
                &&& final(self).state.player_state@ == old(self).state.player_state@
                &&& final(self).state.cur_step == old(self).state.cur_step
                &&& final(self).state.cur_state == old(self).state.cur_state
                &&& final(self).state.cur_card_ix == old(self).state.cur_card_ix
                &&& final(self).cur_player_ops == old(self).cur_player_ops
                &&& r is NextTurn
            }),
            answer matches Some((p, o)) ==> (o.op == Action::Hu ==> ({
                &&& final(self).won_by(old(self), p as int, Action::Hu)
                &&& final(self).cur_player_ops == old(self).cur_player_ops
                &&& r matches AnswerStep::RoundOver(m) && m.len() == 4 && final(self).is_broadcast(
                    m@,
                    o@,
                )
            })),
            answer matches Some((p, o)) ==> (o.op != Action::Hu ==> ({
                &&& final(self).state.operated(&old(self).state, p as int, o)
                &&& final(self).cur_player_ops is None
                &&& r matches AnswerStep::SameTurn(m) && m.len() == 4 && final(self).is_broadcast(
                    m@,
                    o@,
                )
            })),
    {
        if let Some((player, op)) = answer {
            if op.op == Action::Hu {
                self.state.execute_win_op(player, &op);
                let msgs = self.broadcast_game_update(&op);
                AnswerStep::RoundOver(msgs)
            } else {
                self.state.do_operation(player, &op);
                proof {
                    assert forall|q: int, c: u8|
                        0 <= q < self.state.player_state.len()
                            && #[trigger] self.state.player_state@[q].hand().contains(c)
                            implies c < 252 by {
                        assert(old(self).state.player_state@[q].hand().contains(c));
                    }
                }
                self.cur_player_ops = None;
                let msgs = self.broadcast_game_update(&op);
                AnswerStep::SameTurn(msgs)
            }
        } else {
            self.state.next_player();
            AnswerStep::NextTurn
        }
    }

    /// The operation that a message stands for while the table waits for the current
    /// player: none when the message is not for this round and step, or names no known
    /// action.
    pub fn cur_player_message(&self, user_id: i64, msg: &GameOperation) -> (r: Option<
        MajiangOperation,
    >)
        ensures
            r is Some <==> (msg.game_info.cur_game_round == self.cur_round
                && msg.game_info.cur_game_step == self.state.cur_step && 1 <= msg.op_type <= 12),
            r matches Some(o) ==> o.op.spec_code() == msg.op_type && o.on_hand@ == msg.provide_cards@
                && o.target == msg.target,
    {
        if self.check_user_op_valid(user_id, msg) {
            return crate::game::op_from_message(msg);
        }
        None
    }

    /// Takes a message of a player while the table waits for answers to a pop. A message
    /// for this round and step that names a known action replaces the pending operations
    /// of the sender's seat by the one it names; the result tells whether that choice now
    /// comes first, which ends the wait. Any other message changes nothing.
    pub fn other_player_message(
        &self,
        possible: &mut Vec<crate::game::PendingOp>,
        user_id: i64,
        msg: &GameOperation,
    ) -> (r: bool)
        ensures
            ({
                let pos = self.seat_of(user_id);
                let taken = msg.game_info.cur_game_round == self.cur_round
                    && msg.game_info.cur_game_step == self.state.cur_step && 1 <= msg.op_type
                    <= 12;
                &&& taken ==> forall|a: Action|
                    a.spec_code() == msg.op_type ==> crate::game::pendings_view(final(possible)@)
                        == crate::game::by_priority(
                        crate::game::pendings_view(old(possible)@).filter(
                            crate::game::not_of_player(pos as usize),
                        ).push(
                            (
                                pos as usize,
                                OpModel { op: a, on_hand: msg.provide_cards@, target: msg.target },
                            ),
                        ),
                    )
                &&& taken ==> r == (crate::game::pendings_view(final(possible)@)[0].0 == pos)
                &&& !taken ==> final(possible)@ == old(possible)@ && !r
            }),
    {
        let pos = self.get_user_pos(user_id);
        proof {
            crate::game::lemma_seat_of(self.players@, user_id, pos as int);
        }
        if self.check_user_op_valid(user_id, msg) {
            if let Some(op) = crate::game::op_from_message(msg) {
                return crate::game::merge_choice(possible, pos, op);
            }
        }
        false
    }
}

/// The length on the wire of the messages that offer `ops`, one message each.
pub open spec fn offers_len(ops: Seq<OpModel>) -> int
    decreases ops.len(),
{
    if ops.len() == 0 {
        0
    } else {
        offers_len(ops.drop_last()) + message::op_msg_size(ops.last().on_hand.len() as int)
    }
}

/// The offers of a prefix take no more room than the offers of the whole list.
proof fn lemma_offers_len_prefix(ops: Seq<OpModel>, i: int)
    requires
        0 <= i <= ops.len(),
    ensures
        0 <= offers_len(ops.take(i)) <= offers_len(ops),
    decreases ops.len() - i,
{
    if i < ops.len() {
        lemma_offers_len_prefix(ops, i + 1);
        lemma_offers_len_nonneg(ops.take(i));
        assert(ops.take(i + 1).drop_last() =~= ops.take(i));
        assert(offers_len(ops.take(i + 1)) == offers_len(ops.take(i)) + message::op_msg_size(
            ops[i].on_hand.len() as int,
        ));
    } else {
        assert(ops.take(i) =~= ops);
        lemma_offers_len_nonneg(ops);
    }
}

/// Offers take no negative room.
proof fn lemma_offers_len_nonneg(ops: Seq<OpModel>)
    ensures
        offers_len(ops) >= 0,
    decreases ops.len(),
{
    if ops.len() > 0 {
        lemma_offers_len_nonneg(ops.drop_last());
    }
}

/// Offers whose operations name at most `m` cards each take at most `42 + m` bytes each.
proof fn lemma_offers_len_bound(ops: Seq<OpModel>, m: int)
    requires
        forall|k: int| 0 <= k < ops.len() ==> #[trigger] ops[k].on_hand.len() <= m,
    ensures
        0 <= offers_len(ops) <= (42 + m) * ops.len(),
    decreases ops.len(),
{
    if ops.len() > 0 {
        let dl = ops.drop_last();
        assert forall|k: int| 0 <= k < dl.len() implies #[trigger] dl[k].on_hand.len() <= m by {
            assert(dl[k] == ops[k]);
        }
        lemma_offers_len_bound(dl, m);
        assert((42 + m) * dl.len() + 42 + m == (42 + m) * ops.len()) by (nonlinear_arith)
            requires
                dl.len() + 1 == ops.len(),
        ;
    }
}

/// A hand holds at most 256 distinct card ids.
pub proof fn lemma_ascending_len(h: Set<u8>)
    ensures
        state::ascending(h).len() <= 256,
{
    broadcast use vstd::seq_lib::group_filter_ensures;


}

/// Three offer steps, one for each seat after the current one, make the offers of a pop.
proof fn lemma_offer_msgs(
    g: Game,
    m0: Seq<Outbound>,
    m1: Seq<Outbound>,
    m2: Seq<Outbound>,
    m3: Seq<Outbound>,
    op: OpModel,
)
    requires
        g.state.cur_player < 4,
        m0.len() == 4,
        g.is_broadcast(m0, op),
        g.offer_step(m0, m1, (g.state.cur_player + 1) % 4),
        g.offer_step(m1, m2, (g.state.cur_player + 2) % 4),
        g.offer_step(m2, m3, (g.state.cur_player + 3) % 4),
    ensures
        g.pop_told(m3, op),
{
    let c = g.state.cur_player as int;
    let p1 = (c + 1) % 4;
    let p2 = (c + 2) % 4;
    let p3 = (c + 3) % 4;
    let seats = g.answering_seats();
    assert(g.seats_before(1) =~= Seq::<int>::empty());
    assert(g.seats_before(2) =~= g.seat_if(p1));
    assert(g.seats_before(3) =~= g.seat_if(p1) + g.seat_if(p2));
    assert(seats =~= g.seat_if(p1) + g.seat_if(p2) + g.seat_if(p3));
    assert(m3.len() == 4 + seats.len());
    assert forall|i: int| 0 <= i < 4 implies #[trigger] m3[i] == m0[i] by {
        if g.rsp_of(p1).len() > 0 {
            assert(m1[i] == m0[i]);
        }
        if g.rsp_of(p2).len() > 0 {
            assert(m2[i] == m1[i]);
        }
        if g.rsp_of(p3).len() > 0 {
            assert(m3[i] == m2[i]);
        }
    }
    assert forall|k: int|
        0 <= k < seats.len() implies g.is_offer(#[trigger] m3[4 + k], seats[k], g.rsp_of(seats[k])) by {
        let n1 = g.seat_if(p1).len();
        let n2 = g.seat_if(p2).len();
        if k < n1 {
            assert(seats[k] == p1);
            if g.rsp_of(p2).len() > 0 {
                assert(m2[4 + k] == m1[4 + k]);
            }
            if g.rsp_of(p3).len() > 0 {
                assert(m3[4 + k] == m2[4 + k]);
            }
        } else if k < n1 + n2 {
            assert(seats[k] == p2);
            if g.rsp_of(p3).len() > 0 {
                assert(m3[4 + k] == m2[4 + k]);
            }
        } else {
            assert(seats[k] == p3);
        }
    }
}

/// A player can answer a popped card in at most six ways, each naming at most 256 cards.
pub proof fn lemma_rsp_bounded(hand: Seq<u8>, pop: u8, next: bool)
    requires
        hand.len() <= 256,
    ensures
        state::spec_rsp_ops(hand, pop, next).len() <= 6,
        forall|k: int|
            0 <= k < state::spec_rsp_ops(hand, pop, next).len() ==> #[trigger] state::spec_rsp_ops(
                hand,
                pop,
                next,
            )[k].on_hand.len() <= 256,
{
    let c0 = operation::opt_seq(operation::chi_candidate(hand, pop, 0));
    let c1 = operation::opt_seq(operation::chi_candidate(hand, pop, 1));
    let c2 = operation::opt_seq(operation::chi_candidate(hand, pop, 2));
    let chi = if next {
        operation::spec_chi_ops(hand, pop)
    } else {
        Seq::empty()
    };
    let peng = operation::opt_seq(operation::spec_peng_op(hand, pop));
    let gang = operation::opt_seq(operation::spec_gang_op(hand, pop));
    let hu = if melds::is_winning(melds::kinds(melds::dedup(hand.push(pop)))) {
        seq![OpModel { op: Action::Hu, on_hand: hand, target: pop }]
    } else {
        Seq::empty()
    };
    assert(chi.len() <= 3);
    assert forall|k: int| 0 <= k < chi.len() implies #[trigger] chi[k].on_hand.len() <= 256 by {
        if k < c0.len() {
        } else if k < c0.len() + c1.len() {
            assert(chi[k] == c1[k - c0.len()]);
        } else {
            assert(chi[k] == c2[k - c0.len() - c1.len()]);
        }
    }
    let all = chi + peng + gang + hu;
    assert(all =~= state::spec_rsp_ops(hand, pop, next));
    assert forall|k: int| 0 <= k < all.len() implies #[trigger] all[k].on_hand.len() <= 256 by {
        if k < chi.len() {
            assert(all[k] == chi[k]);
        } else if k < chi.len() + peng.len() {
            assert(all[k] == peng[k - chi.len()]);
        } else if k < chi.len() + peng.len() + gang.len() {
            assert(all[k] == gang[k - chi.len() - peng.len()]);
        } else {
            assert(all[k] == hu[k - chi.len() - peng.len() - gang.len()]);
        }
    }
}

} // verus!
