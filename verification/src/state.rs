use vstd::prelude::*;

use std::collections::HashMap;

use crate::hand;
use crate::hand::sort_cards;
use crate::melds;
use crate::model;
use crate::model::Majiang;
use crate::operation;
use crate::operation::{Action, MajiangOperation};
use crate::random;
use crate::winning;

verus! {

broadcast use {vstd::std_specs::hash::group_hash_axioms, Seq::lemma_push_to_set_commute};

/// What a player holds: the cards in hand, the groups laid open, and the card just drawn.
pub struct MajiangPlayerState {
    on_hand: HashMap<u8, u8>,
    group_cards: Option<Vec<Vec<u8>>>,
    pub on_recv_now: Option<u8>,
}

/// The cards of an operation that leave the hand when it is carried out.
pub open spec fn used_cards(op: MajiangOperation) -> Seq<u8> {
    match op.op {
        Action::Chi | Action::Peng | Action::Gang => op.on_hand@,
        _ => Seq::empty(),
    }
}

/// The card ids below `n`, in order.
pub open spec fn id_range(n: int) -> Seq<u8> {
    Seq::new(n as nat, |i: int| i as u8)
}

/// The test "is in `h`".
pub open spec fn in_set(h: Set<u8>) -> spec_fn(u8) -> bool {
    |c: u8| h.contains(c)
}

/// The cards of `h` in ascending order.
pub open spec fn ascending(h: Set<u8>) -> Seq<u8> {
    id_range(256).filter(in_set(h))
}

impl MajiangPlayerState {
    /// The cards in hand.
    pub closed spec fn hand(&self) -> Set<u8> {
        self.on_hand@.dom()
    }

    /// The card just drawn, if it is still in play.
    pub closed spec fn recv_now(&self) -> Option<u8> {
        self.on_recv_now
    }

    /// The groups laid open, if any was laid yet.
    pub closed spec fn groups(&self) -> Option<Seq<Seq<u8>>> {
        match self.group_cards {
            Some(v) => Some(hand::seqs_view(v@)),
            None => None,
        }
    }

    /// The groups laid open, none when no group was laid yet.
    pub open spec fn group_list(&self) -> Seq<Seq<u8>> {
        match self.groups() {
            Some(g) => g,
            None => Seq::empty(),
        }
    }

    pub fn new() -> (r: MajiangPlayerState)
        ensures
            r.hand() == Set::<u8>::empty(),
            r.groups() is None,
            r.recv_now() is None,
    {
        let r = MajiangPlayerState { on_hand: HashMap::new(), group_cards: None, on_recv_now: None };
        assert(r.hand() =~= Set::<u8>::empty());
        r
    }

    pub fn add_card(&mut self, cards: &[u8])
        ensures
            final(self).hand() == old(self).hand().union(cards@.to_set()),
            final(self).groups() == old(self).groups(),
            final(self).recv_now() == (if cards@.len() == 1 {
                Some(cards@[0])
            } else {
                old(self).recv_now()
            }),
    {
        let n = cards.len();
        for i in 0..n
            invariant
                n == cards@.len(),
                self.hand() == old(self).hand().union(cards@.take(i as int).to_set()),
                self.groups() == old(self).groups(),
                self.recv_now() == old(self).recv_now(),
        {
            let card = cards[i];
            self.on_hand.insert(card, 1);
            proof {
                assert(cards@.take(i + 1) =~= cards@.take(i as int).push(card));
                assert(cards@.take(i + 1).to_set() =~= cards@.take(i as int).to_set().insert(card));
                assert(self.hand() =~= old(self).hand().union(cards@.take(i + 1).to_set()));
            }
        }
        assert(cards@.take(n as int) =~= cards@);
        if cards.len() == 1 {
            self.on_recv_now = Some(cards[0]);
        }
    }

    pub fn has_card(&mut self, card: u8) -> (r: bool)
        ensures
            r == old(self).hand().contains(card),
            *final(self) == *old(self),
    {
        self.on_hand.contains_key(&card)
    }

    pub fn pop_card(&mut self, card_id: u8)
        ensures
            final(self).hand() == old(self).hand().remove(card_id),
            final(self).groups() == old(self).groups(),
            final(self).recv_now() is None,
    {
        self.on_hand.remove(&card_id);
        self.on_recv_now = None;
        assert(self.hand() =~= old(self).hand().remove(card_id));
    }

    /// Lays open the group of an operation: a chi, peng or gang takes its cards out of the
    /// hand; the group is those cards and the target, in ascending order.
    pub fn execute_op(&mut self, op: &MajiangOperation)
        ensures
            final(self).hand() == old(self).hand().difference(used_cards(*op).to_set()),
            final(self).recv_now() == old(self).recv_now(),
            final(self).groups() is Some,
            final(self).group_list().len() == old(self).group_list().len() + 1,
            final(self).group_list().drop_last() == old(self).group_list(),
            winning::is_sorted_perm(
                final(self).group_list().last(),
                used_cards(*op).push(op.target),
            ),
    {
        let mut group: Vec<u8> = Vec::new();
        match op.op {
            Action::Chi | Action::Peng | Action::Gang => {
                let n = op.on_hand.len();
                for i in 0..n
                    invariant
                        n == op.on_hand.len(),
                        group@ == op.on_hand@.take(i as int),
                        self.hand() == old(self).hand().difference(
                            op.on_hand@.take(i as int).to_set(),
                        ),
                        self.groups() == old(self).groups(),
                        self.recv_now() == old(self).recv_now(),
                {
                    let card = op.on_hand[i];
                    self.on_hand.remove(&card);
                    group.push(card);
                    proof {
                        assert(op.on_hand@.take(i + 1) =~= op.on_hand@.take(i as int).push(card));
                        assert(op.on_hand@.take(i + 1).to_set() =~= op.on_hand@.take(
                            i as int,
                        ).to_set().insert(card));
                        assert(self.hand() =~= old(self).hand().difference(
                            op.on_hand@.take(i + 1).to_set(),
                        ));
                    }
                }
                assert(op.on_hand@.take(n as int) =~= op.on_hand@);
            },
            _ => {
                assert(self.hand() =~= old(self).hand().difference(used_cards(*op).to_set()));
            },
        }
        group.push(op.target);
        let ghost unsorted = group@;
        assert(unsorted == used_cards(*op).push(op.target));
        sort_cards(&mut group);
        let ghost old_list = self.group_list();
        let ghost g = group@;
        match self.group_cards {
            Some(ref mut group_cards) => {
                group_cards.push(group);
            },
            None => {
                self.group_cards = Some(vec![group]);
            },
        }
        assert(self.group_list() =~= old_list.push(g));
    }

    /// The cards in hand, in ascending order.
    pub fn on_hand_card_id(&self) -> (r: Vec<u8>)
        ensures
            r@ == ascending(self.hand()),
            r@.to_set() == self.hand(),
            r@.no_duplicates(),
            melds::sorted(r@),
    {
        let mut cards: Vec<u8> = Vec::new();
        let mut v: u16 = 0;
        while v < 256
            invariant
                0 <= v <= 256,
                forall|x: u8| #[trigger] cards@.contains(x) <==> (x < v && self.hand().contains(x)),
                forall|a: int, b: int| 0 <= a < b < cards@.len() ==> cards@[a] < cards@[b],
                forall|a: int| 0 <= a < cards@.len() ==> cards@[a] < v,
                cards@ == id_range(v as int).filter(in_set(self.hand())),
            decreases 256 - v,
        {
            let c = v as u8;
            let ghost before = cards@;
            proof {
                assert(id_range(v + 1) =~= id_range(v as int).push(c));
                id_range(v as int).lemma_filter_push(c, in_set(self.hand()));
            }
            if self.on_hand.contains_key(&c) {
                cards.push(c);
            }
            proof {
                assert forall|x: u8| #[trigger] cards@.contains(x) <==> (x < v + 1 && self.hand().contains(x)) by {
                    if cards@.len() > before.len() {
                        assert(cards@ == before.push(c));
                        if x == c {
                            assert(cards@[before.len() as int] == c);
                        }
                        if cards@.contains(x) && x != c {
                            let k = choose|k: int| 0 <= k < cards@.len() && cards@[k] == x;
                            assert(before[k] == x);
                        }
                        if before.contains(x) {
                            let k = choose|k: int| 0 <= k < before.len() && before[k] == x;
                            assert(cards@[k] == x);
                        }
                    }
                }
            }
            v = v + 1;
        }
        assert(cards@.to_set() =~= self.hand());
        assert(id_range(256) =~= id_range(v as int));
        cards
    }

    /// A copy of the groups laid open.
    pub fn group_card_id(&self) -> (r: Option<Vec<Vec<u8>>>)
        ensures
            r matches Some(v) ==> self.groups() == Some(hand::seqs_view(v@)),
            r is None <==> self.groups() is None,
    {
        match &self.group_cards {
            Some(groups) => {
                let mut out: Vec<Vec<u8>> = Vec::new();
                let n = groups.len();
                for i in 0..n
                    invariant
                        n == groups.len(),
                        hand::seqs_view(out@) == hand::seqs_view(groups@).take(i as int),
                {
                    let g = groups[i].clone();
                    assert(g@ == groups@[i as int]@);
                    let ghost before = out@;
                    out.push(g);
                    assert(out@ == before.push(g));
                    assert(hand::seqs_view(out@) =~= hand::seqs_view(before).push(g@));
                    assert(hand::seqs_view(out@) =~= hand::seqs_view(groups@).take(i + 1));
                }
                assert(hand::seqs_view(groups@).take(n as int) =~= hand::seqs_view(groups@));
                Some(out)
            },
            None => None,
        }
    }

    /// The winning operation that the player can claim on its own: none is offered.
    pub fn get_win_op(&self) -> (r: Option<MajiangOperation>)
        ensures
            r is None,
    {
        None
    }
}

/// The phase of a round.
#[derive(Clone, Copy, Debug, PartialEq, Eq, Structural)]
pub enum StateType {
    DealCard,
    WaitPop,
    WaitResponse,
    WinOver,
    OutOfCard,
}

impl StateType {
    pub open spec fn spec_name(self) -> Seq<char> {
        match self {
            StateType::DealCard => seq!['D', 'E', 'A', 'L', '_', 'C', 'A', 'R', 'D'],
            StateType::WaitPop => seq!['W', 'A', 'I', 'T', '_', 'P', 'O', 'P'],
            StateType::WaitResponse => seq![
                'W', 'A', 'I', 'T', '_', 'R', 'E', 'S', 'P', 'O', 'N', 'S', 'E',
            ],
            StateType::WinOver => seq!['W', 'I', 'N', '_', 'O', 'V', 'E', 'R'],
            StateType::OutOfCard => seq!['O', 'U', 'T', '_', 'O', 'F', '_', 'C', 'A', 'R', 'D'],
        }
    }

    pub fn to_string(&self) -> (r: String)
        ensures
            r@ == self.spec_name(),
    {
        match self {
            StateType::DealCard => {
                proof {
                    reveal_strlit("DEAL_CARD");
                }
                String::from_str("DEAL_CARD")
            },
            StateType::WaitPop => {
                proof {
                    reveal_strlit("WAIT_POP");
                }
                String::from_str("WAIT_POP")
            },
            StateType::WaitResponse => {
                proof {
                    reveal_strlit("WAIT_RESPONSE");
                }
                String::from_str("WAIT_RESPONSE")
            },
            StateType::WinOver => {
                proof {
                    reveal_strlit("WIN_OVER");
                }
                String::from_str("WIN_OVER")
            },
            StateType::OutOfCard => {
                proof {
                    reveal_strlit("OUT_OF_CARD");
                }
                String::from_str("OUT_OF_CARD")
            },
        }
    }
}

/// The state of a round at the table.
pub struct GameState {
    pub cur_step: i64,
    pub cur_state: StateType,
    pub cards: Vec<Majiang>,
    pub player_state: Vec<MajiangPlayerState>,
    pub hide_card: Vec<u8>,
    pub win_player: usize,
    pub win_method: Action,
    pub cur_player: usize,
    pub cur_card_ix: usize,
    pub cur_pop_card: u8,
}

/// The card ids of a full set, 0 to 111.
pub open spec fn full_set_ids() -> Seq<u8> {
    id_range(112)
}

/// Every card of every hand has an id low enough for the group search.
pub open spec fn hands_in_range(ps: Seq<MajiangPlayerState>) -> bool {
    forall|q: int, c: u8| 0 <= q < ps.len() && #[trigger] ps[q].hand().contains(c) ==> c < 252
}

/// The hand of player `q` after the four opening hands of 13 cards were dealt from index
/// `ix` of `hide`, on top of the players `before` (new players start empty).
pub open spec fn dealt_hand(before: Seq<MajiangPlayerState>, hide: Seq<u8>, ix: int, q: int) -> Set<u8> {
    let base = if q < before.len() {
        before[q].hand()
    } else {
        Set::empty()
    };
    if q < 4 {
        base.union(hide.subrange(ix + 13 * q, ix + 13 * q + 13).to_set())
    } else {
        base
    }
}

/// The operations that a player can answer a popped card with: chi (only the next player),
/// peng, gang, and hu when the card completes a winning hand.
pub open spec fn spec_rsp_ops(hand: Seq<u8>, pop: u8, next: bool) -> Seq<operation::OpModel> {
    let chi = if next {
        operation::spec_chi_ops(hand, pop)
    } else {
        Seq::empty()
    };
    let hu = if melds::is_winning(melds::kinds(melds::dedup(hand.push(pop)))) {
        seq![operation::OpModel { op: Action::Hu, on_hand: hand, target: pop }]
    } else {
        Seq::empty()
    };
    chi + operation::opt_seq(operation::spec_peng_op(hand, pop)) + operation::opt_seq(
        operation::spec_gang_op(hand, pop),
    ) + hu
}

/// A player can answer a popped card with a hu exactly when its hand together with the
/// popped card is a winning hand; the hu names the whole hand and the popped card, and no
/// other answer is a hu.
pub proof fn lemma_rsp_hu(hand: Seq<u8>, pop: u8, next: bool)
    ensures
        (exists|j: int|
            0 <= j < spec_rsp_ops(hand, pop, next).len() && #[trigger] spec_rsp_ops(
                hand,
                pop,
                next,
            )[j].op == Action::Hu) <==> melds::is_winning(melds::kinds(melds::dedup(hand.push(pop)))),
        forall|j: int|
            0 <= j < spec_rsp_ops(hand, pop, next).len() && #[trigger] spec_rsp_ops(
                hand,
                pop,
                next,
            )[j].op == Action::Hu ==> spec_rsp_ops(hand, pop, next)[j].on_hand == hand
                && spec_rsp_ops(hand, pop, next)[j].target == pop,
{
    let c0 = operation::opt_seq(operation::chi_candidate(hand, pop, 0));
    let c1 = operation::opt_seq(operation::chi_candidate(hand, pop, 1));
    let c2 = operation::opt_seq(operation::chi_candidate(hand, pop, 2));
    let chi = if next {
        operation::spec_chi_ops(hand, pop)
    } else {
        Seq::empty()
    };
    let peng = operation::opt_seq(operation::spec_peng_op(hand, pop));
    let gang = operation::opt_seq(operation::spec_gang_op(hand, pop));
    let win = melds::is_winning(melds::kinds(melds::dedup(hand.push(pop))));
    let hu = if win {
        seq![operation::OpModel { op: Action::Hu, on_hand: hand, target: pop }]
    } else {
        Seq::empty()
    };
    let all = spec_rsp_ops(hand, pop, next);
    assert(all =~= chi + peng + gang + hu);
    assert forall|j: int| 0 <= j < chi.len() implies #[trigger] chi[j].op == Action::Chi by {
        if !model::is_bai_kind(model::kind(pop)) {
            assert(operation::spec_chi_ops(hand, pop) =~= c0 + c1 + c2);
            if j < c0.len() {
            } else if j < c0.len() + c1.len() {
                assert(chi[j] == c1[j - c0.len()]);
            } else {
                assert(chi[j] == c2[j - c0.len() - c1.len()]);
            }
        }
    }
    assert forall|j: int| 0 <= j < all.len() && #[trigger] all[j].op == Action::Hu implies j >= chi.len()
        + peng.len() + gang.len() && all[j] == hu[j - chi.len() - peng.len() - gang.len()] by {
        if j < chi.len() {
            assert(all[j] == chi[j]);
        } else if j < chi.len() + peng.len() {
            assert(all[j] == peng[j - chi.len()]);
        } else if j < chi.len() + peng.len() + gang.len() {
            assert(all[j] == gang[j - chi.len() - peng.len()]);
        }
    }
    if win {
        let j = (chi.len() + peng.len() + gang.len()) as int;
        assert(all[j] == hu[0]);
        assert(all[j].op == Action::Hu);
    }
}

impl GameState {
    /// The fields other than the players, the draw index, the step, the phase and the
    /// current player are those of `other`.
    pub open spec fn same_table(&self, other: &GameState) -> bool {
        &&& self.cards@ == other.cards@
        &&& self.hide_card@ == other.hide_card@
        &&& self.win_player == other.win_player
        &&& self.win_method == other.win_method
        &&& self.cur_pop_card == other.cur_pop_card
    }

    /// Every field holds the value that it holds in `other`.
    pub open spec fn same_state(&self, other: &GameState) -> bool {
        &&& self.same_table(other)
        &&& self.player_state@ == other.player_state@
        &&& self.cur_step == other.cur_step
        &&& self.cur_state == other.cur_state
        &&& self.cur_player == other.cur_player
        &&& self.cur_card_ix == other.cur_card_ix
    }

    /// This state comes from `before` by a pop of card `target` by the current player:
    /// the card leaves the hand and becomes the popped card if the player holds it, and
    /// nothing changes if not.
    pub open spec fn popped(&self, before: &GameState, target: u8) -> bool {
        let cur = before.cur_player as int;
        &&& self.cur_player == before.cur_player
        &&& self.cur_card_ix == before.cur_card_ix
        &&& self.cards@ == before.cards@
        &&& self.hide_card@ == before.hide_card@
        &&& self.win_player == before.win_player
        &&& self.win_method == before.win_method
        &&& self.player_state.len() == before.player_state.len()
        &&& !before.player_state@[cur].hand().contains(target) ==> self.same_state(before)
        &&& before.player_state@[cur].hand().contains(target) ==> {
            &&& self.cur_pop_card == target
            &&& self.cur_step == before.cur_step + 1
            &&& self.cur_state == StateType::WaitResponse
            &&& forall|q: int|
                0 <= q < before.player_state.len() && q != cur ==> #[trigger] self.player_state@[q]
                    == before.player_state@[q]
            &&& self.player_state@[cur].hand() == before.player_state@[cur].hand().remove(target)
            &&& self.player_state@[cur].groups() == before.player_state@[cur].groups()
            &&& self.player_state@[cur].recv_now() is None
        }
    }

    /// This state comes from `before` by the chi, peng or gang `op` of `player`, who then
    /// has the turn.
    pub open spec fn operated(&self, before: &GameState, player: int, op: MajiangOperation) -> bool {
        &&& self.same_table(before)
        &&& self.cur_card_ix == before.cur_card_ix
        &&& self.cur_step == before.cur_step + 1
        &&& self.cur_player == player
        &&& self.cur_state == StateType::WaitPop
        &&& self.player_state.len() == before.player_state.len()
        &&& forall|q: int|
            0 <= q < before.player_state.len() && q != player ==> #[trigger] self.player_state@[q]
                == before.player_state@[q]
        &&& self.player_state@[player].hand() == before.player_state@[player].hand().difference(
            used_cards(op).to_set(),
        )
        &&& self.player_state@[player].group_list().drop_last() == before.player_state@[player].group_list()
        &&& winning::is_sorted_perm(self.player_state@[player].group_list().last(), used_cards(op).push(op.target))
        &&& self.player_state@[player].group_list().len() == before.player_state@[player].group_list().len() + 1
        &&& self.player_state@[player].recv_now() == before.player_state@[player].recv_now()
    }

    /// The round is over: every card was drawn, or someone won.
    pub open spec fn spec_over(&self) -> bool {
        self.cur_card_ix == self.hide_card.len() || self.cur_state == StateType::WinOver
    }

    pub fn new(num: usize) -> (r: GameState)
        requires
            num < usize::MAX,
        ensures
            r.cur_step == 0,
            r.cur_state == StateType::DealCard,
            r.cards@.len() == 0,
            r.player_state@.len() == 0,
            r.hide_card@.len() == 0,
            r.win_player == num + 1,
            r.win_method == Action::Hu,
            r.cur_player == 0,
            r.cur_card_ix == 0,
            r.cur_pop_card == 0,
    {
        GameState {
            cur_step: 0,
            cur_state: StateType::DealCard,
            cards: Vec::new(),
            player_state: Vec::new(),
            hide_card: Vec::new(),
            win_player: num + 1,
            win_method: Action::Hu,
            cur_player: 0,
            cur_card_ix: 0,
            cur_pop_card: 0,
        }
    }

    /// Lays out the faces of a full set and adds its 112 card ids to the wall, shuffled.
    pub fn init(&mut self)
        ensures
            final(self).cards@ == old(self).cards@ + model::standard_faces(),
            final(self).hide_card@.to_multiset() == (old(self).hide_card@
                + full_set_ids()).to_multiset(),
            final(self).hide_card@.len() == old(self).hide_card@.len() + 112,
            final(self).player_state@ == old(self).player_state@,
            final(self).cur_step == old(self).cur_step,
            final(self).cur_state == old(self).cur_state,
            final(self).win_player == old(self).win_player,
            final(self).win_method == old(self).win_method,
            final(self).cur_player == old(self).cur_player,
            final(self).cur_card_ix == old(self).cur_card_ix,
            final(self).cur_pop_card == old(self).cur_pop_card,
    {
        broadcast use vstd::seq_lib::group_to_multiset_ensures;

        let ghost old_cards = self.cards@;
        let ghost old_hide = self.hide_card@;
        for i in 0..112u8
            invariant
                self.cards@ == old_cards + model::standard_faces().take(i as int),
                self.hide_card@ == old_hide + full_set_ids().take(i as int),
                self.player_state@ == old(self).player_state@,
                self.cur_step == old(self).cur_step,
                self.cur_state == old(self).cur_state,
                self.win_player == old(self).win_player,
                self.win_method == old(self).win_method,
                self.cur_player == old(self).cur_player,
                self.cur_card_ix == old(self).cur_card_ix,
                self.cur_pop_card == old(self).cur_pop_card,
        {
            self.cards.push(model::face_of_id(i));
            self.hide_card.push(i);
            assert(model::standard_faces().take(i + 1) =~= model::standard_faces().take(
                i as int,
            ).push(model::face_of(i as int)));
            assert(full_set_ids().take(i + 1) =~= full_set_ids().take(i as int).push(i));
            assert(self.cards@ =~= old_cards + model::standard_faces().take(i + 1));
            assert(self.hide_card@ =~= old_hide + full_set_ids().take(i + 1));
        }
        assert(model::standard_faces().take(112) =~= model::standard_faces());
        assert(full_set_ids().take(112) =~= full_set_ids());
        let mut rng = random::thread_rng();
        random::shuffle_cards(&mut self.hide_card, &mut rng);
        proof {
            vstd::seq_lib::to_multiset_len(self.hide_card@);
            vstd::seq_lib::to_multiset_len(old_hide + full_set_ids());
        }
    }

    /// Gives player `player` the next `num` cards of the wall, if there is such a player.
    fn add_card(&mut self, player: usize, num: usize)
        requires
            player < old(self).player_state.len() ==> old(self).cur_card_ix + num <= old(self).hide_card.len(),
        ensures
            final(self).same_table(old(self)),
            final(self).cur_step == old(self).cur_step,
            final(self).cur_state == old(self).cur_state,
            final(self).cur_player == old(self).cur_player,
            final(self).player_state.len() == old(self).player_state.len(),
            player >= old(self).player_state.len() ==> final(self).player_state@ == old(self).player_state@ && final(self).cur_card_ix == old(self).cur_card_ix,
            player < old(self).player_state.len() ==> {
                &&& final(self).cur_card_ix == old(self).cur_card_ix + num
                &&& forall|q: int|
                    0 <= q < old(self).player_state.len() && q != player ==> final(self).player_state@[q] == old(self).player_state@[q]
                &&& final(self).player_state@[player as int].hand() == old(self).player_state@[player as int].hand().union(
                    old(self).hide_card@.subrange(
                        old(self).cur_card_ix as int,
                        old(self).cur_card_ix + num,
                    ).to_set(),
                )
                &&& final(self).player_state@[player as int].groups() == old(self).player_state@[player as int].groups()
                &&& final(self).player_state@[player as int].recv_now() == if num == 1 {
                    Some(old(self).hide_card@[old(self).cur_card_ix as int])
                } else {
                    old(self).player_state@[player as int].recv_now()
                }
            },
    {
        if player < self.player_state.len() {
            let begin = self.cur_card_ix;
            let end = self.cur_card_ix + num;
            let mut drawn: Vec<u8> = Vec::new();
            for k in begin..end
                invariant
                    begin <= end <= self.hide_card.len(),
                    drawn@ == self.hide_card@.subrange(begin as int, k as int),
            {
                drawn.push(self.hide_card[k]);
                assert(drawn@ =~= self.hide_card@.subrange(begin as int, k + 1));
            }
            self.player_state[player].add_card(drawn.as_slice());
            self.cur_card_ix += num;
        }
    }

    /// Seats four new players and deals each of the first four players 13 cards.
    pub fn deal_card(&mut self)
        requires
            old(self).cur_card_ix + 52 <= old(self).hide_card.len(),
        ensures
            final(self).same_table(old(self)),
            final(self).cur_step == old(self).cur_step,
            final(self).cur_state == old(self).cur_state,
            final(self).cur_player == old(self).cur_player,
            final(self).cur_card_ix == old(self).cur_card_ix + 52,
            final(self).player_state.len() == old(self).player_state.len() + 4,
            forall|q: int|
                0 <= q < final(self).player_state.len() ==> #[trigger] final(self).player_state@[q].hand() == dealt_hand(
                    old(self).player_state@,
                    old(self).hide_card@,
                    old(self).cur_card_ix as int,
                    q,
                ),
            forall|q: int|
                0 <= q < old(self).player_state.len() ==> #[trigger] final(self).player_state@[q].groups() == old(self).player_state@[q].groups() && final(self).player_state@[q].recv_now() == old(self).player_state@[q].recv_now(),
            forall|q: int|
                old(self).player_state.len() <= q < final(self).player_state.len() ==> #[trigger] final(self).player_state@[q].groups() is None && final(self).player_state@[q].recv_now() is None,
    {
        let ghost before = self.player_state@;
        let ghost n = before.len();
        let ghost hide = self.hide_card@;
        let ghost ix = self.cur_card_ix as int;
        for i in 0..4usize
            invariant
                self.same_table(old(self)),
                self.hide_card@ == hide,
                self.cur_step == old(self).cur_step,
                self.cur_state == old(self).cur_state,
                self.cur_player == old(self).cur_player,
                before == old(self).player_state@,
                n == before.len(),
                ix == old(self).cur_card_ix,
                ix + 52 <= hide.len(),
                self.cur_card_ix == ix + 13 * i,
                self.player_state.len() == n + i,
                forall|q: int|
                    0 <= q < n + i ==> #[trigger] self.player_state@[q].hand() == (if q < i {
                        dealt_hand(before, hide, ix, q)
                    } else if q < n {
                        before[q].hand()
                    } else {
                        Set::empty()
                    }),
                forall|q: int|
                    0 <= q < n ==> #[trigger] self.player_state@[q].groups() == before[q].groups()
                        && self.player_state@[q].recv_now() == before[q].recv_now(),
                forall|q: int|
                    n <= q < n + i ==> #[trigger] self.player_state@[q].groups() is None
                        && self.player_state@[q].recv_now() is None,
        {
            let state = MajiangPlayerState::new();
            self.player_state.push(state);
            self.add_card(i, 13);
            proof {
                assert forall|q: int|
                    0 <= q < n + i + 1 implies #[trigger] self.player_state@[q].hand() == (if q < i
                        + 1 {
                        dealt_hand(before, hide, ix, q)
                    } else if q < n {
                        before[q].hand()
                    } else {
                        Set::empty()
                    }) by {
                    if q == i {
                        assert(self.player_state@[q].hand() =~= dealt_hand(before, hide, ix, q));
                    }
                }
            }
        }
    }

    /// Draws the next card of the wall for the current player.
    pub fn deal_next_card(&mut self) -> (r: u8)
        requires
            old(self).cur_card_ix < old(self).hide_card.len(),
            old(self).cur_step < i64::MAX,
        ensures
            r == old(self).hide_card@[old(self).cur_card_ix as int],
            final(self).same_table(old(self)),
            final(self).cur_step == old(self).cur_step + 1,
            final(self).cur_state == StateType::WaitPop,
            final(self).cur_player == old(self).cur_player,
            final(self).player_state.len() == old(self).player_state.len(),
            old(self).cur_player >= old(self).player_state.len() ==> final(self).player_state@
                == old(self).player_state@ && final(self).cur_card_ix == old(self).cur_card_ix,
            old(self).cur_player < old(self).player_state.len() ==> {
                let p = old(self).cur_player as int;
                &&& final(self).cur_card_ix == old(self).cur_card_ix + 1
                &&& forall|q: int|
                    0 <= q < old(self).player_state.len() && q != p ==> final(self).player_state@[q]
                        == old(self).player_state@[q]
                &&& final(self).player_state@[p].hand() == old(self).player_state@[p].hand().insert(r)
                &&& final(self).player_state@[p].groups() == old(self).player_state@[p].groups()
                &&& final(self).player_state@[p].recv_now() == Some(r)
            },
    {
        let card_id = self.hide_card[self.cur_card_ix];
        let ghost ix = self.cur_card_ix as int;
        let player = self.cur_player;
        self.add_card(player, 1);
        assert(old(self).hide_card@.subrange(ix, ix + 1).to_set() =~= set![card_id]) by {
            assert(old(self).hide_card@.subrange(ix, ix + 1) =~= seq![card_id]);
            assert(seq![card_id] =~= Seq::<u8>::empty().push(card_id));
        }
        self.cur_step += 1;
        self.cur_state = StateType::WaitPop;
        card_id
    }

    /// Passes the turn to the next of the four seats.
    pub fn next_player(&mut self)
        requires
            old(self).cur_player < usize::MAX,
        ensures
            final(self).cur_player == (old(self).cur_player + 1) % 4,
            final(self).same_table(old(self)),
            final(self).player_state@ == old(self).player_state@,
            final(self).cur_step == old(self).cur_step,
            final(self).cur_state == old(self).cur_state,
            final(self).cur_card_ix == old(self).cur_card_ix,
    {
        self.cur_player += 1;
        self.cur_player %= 4;
    }

    pub fn cur_player(&self) -> (r: usize)
        ensures
            r == self.cur_player,
    {
        self.cur_player
    }

    /// The winning operation that a player can claim on its own: none is offered.
    pub fn get_player_win_op(&self, player: usize) -> (r: Option<MajiangOperation>)
        requires
            player < self.player_state.len(),
        ensures
            r is None,
    {
        self.player_state[player].get_win_op();
        None
    }

    /// What the current player can do with the card just drawn: win on its own (zimo)
    /// when the hand is a winning hand.
    pub fn get_cur_player_ops(&self) -> (r: Option<Vec<MajiangOperation>>)
        requires
            self.cur_player < self.player_state.len(),
            hands_in_range(self.player_state@),
        ensures
            ({
                let hand = ascending(self.player_state@[self.cur_player as int].hand());
                if melds::is_winning(melds::kinds(hand)) {
                    r matches Some(v) && operation::ops_view(v@) == seq![
                        operation::OpModel {
                            op: Action::ZiMo,
                            on_hand: hand,
                            target: self.cur_pop_card,
                        },
                    ]
                } else {
                    r is None
                }
            }),
    {
        let mut ops: Vec<MajiangOperation> = Vec::new();
        let avl_cards = self.player_state[self.cur_player].on_hand_card_id();
        proof {
            melds::lemma_dedup(avl_cards@);
            assert forall|k: int| 0 <= k < avl_cards@.len() implies #[trigger] avl_cards@[k] < 252 by {
                assert(avl_cards@.to_set().contains(avl_cards@[k]));
            }
        }
        if MajiangOperation::check_win(&avl_cards) {
            ops.push(
                MajiangOperation {
                    op: Action::ZiMo,
                    on_hand: avl_cards.clone(),
                    target: self.cur_pop_card,
                },
            );
        }
        if ops.len() > 0 {
            assert(operation::ops_view(ops@) =~= seq![
                operation::OpModel {
                    op: Action::ZiMo,
                    on_hand: avl_cards@,
                    target: self.cur_pop_card,
                },
            ]);
            return Some(ops);
        }
        None
    }

    /// What player `player` can answer the popped card with.
    pub fn get_player_rsp_for_pop_card(&self, player: usize) -> (r: Option<Vec<MajiangOperation>>)
        requires
            player < self.player_state.len(),
            self.cur_player < usize::MAX,
            self.cur_pop_card < 252,
            forall|c: u8| #[trigger] self.player_state@[player as int].hand().contains(c) ==> c < 252,
        ensures
            ({
                let ops = spec_rsp_ops(
                    ascending(self.player_state@[player as int].hand()),
                    self.cur_pop_card,
                    player == (self.cur_player + 1) % 4,
                );
                &&& r is None <==> ops.len() == 0
                &&& r matches Some(v) ==> operation::ops_view(v@) == ops
            }),
    {
        let mut ops: Vec<MajiangOperation> = Vec::new();
        let cards = self.player_state[player].on_hand_card_id();
        let ghost hand = cards@;
        let ghost pop = self.cur_pop_card;
        let ghost next = player == (self.cur_player + 1) % 4;
        if player == (self.cur_player + 1) % 4 {
            if let Some(chi_ops) = MajiangOperation::get_chi_op(&cards, self.cur_pop_card) {
                ops = chi_ops;
            }
        }
        assert(operation::ops_view(ops@) == (if next {
            operation::spec_chi_ops(hand, pop)
        } else {
            Seq::empty()
        }));
        let ghost s1 = ops@;
        if let Some(peng_op) = MajiangOperation::get_peng_op(&cards, self.cur_pop_card) {
            ops.push(peng_op);
        }
        assert(operation::ops_view(ops@) =~= operation::ops_view(s1) + operation::opt_seq(
            operation::spec_peng_op(hand, pop),
        ));
        let ghost s2 = ops@;
        if let Some(gang_op) = MajiangOperation::get_gang_op(&cards, self.cur_pop_card) {
            ops.push(gang_op);
        }
        assert(operation::ops_view(ops@) =~= operation::ops_view(s2) + operation::opt_seq(
            operation::spec_gang_op(hand, pop),
        ));
        let ghost s3 = ops@;
        let mut avl_cards = cards.clone();
        avl_cards.push(self.cur_pop_card);
        proof {
            assert forall|k: int| 0 <= k < avl_cards@.len() implies #[trigger] avl_cards@[k] < 252 by {
                if k < hand.len() {
                    assert(hand.to_set().contains(avl_cards@[k]));
                }
            }
        }
        if MajiangOperation::check_win(&avl_cards) {
            ops.push(
                MajiangOperation { op: Action::Hu, on_hand: cards.clone(), target: self.cur_pop_card },
            );
        }
        assert(operation::ops_view(ops@) =~= spec_rsp_ops(hand, pop, next));
        if ops.len() > 0 {
            Some(ops)
        } else {
            None
        }
    }

    /// Pops the target card of `op` from the hand of `player`, if the player holds it.
    pub fn do_pop_card(&mut self, player: usize, op: &MajiangOperation)
        requires
            player < old(self).player_state.len(),
            old(self).player_state@[player as int].hand().contains(op.target) ==> old(self).cur_step < i64::MAX,
        ensures
            final(self).cur_player == old(self).cur_player,
            final(self).cur_card_ix == old(self).cur_card_ix,
            final(self).cards@ == old(self).cards@,
            final(self).hide_card@ == old(self).hide_card@,
            final(self).win_player == old(self).win_player,
            final(self).win_method == old(self).win_method,
            final(self).player_state.len() == old(self).player_state.len(),
            !old(self).player_state@[player as int].hand().contains(op.target) ==> final(self).same_state(old(self)),
            old(self).player_state@[player as int].hand().contains(op.target) ==> {
                &&& final(self).cur_pop_card == op.target
                &&& final(self).cur_step == old(self).cur_step + 1
                &&& final(self).cur_state == StateType::WaitResponse
                &&& forall|q: int|
                    0 <= q < old(self).player_state.len() && q != player ==> final(self).player_state@[q] == old(self).player_state@[q]
                &&& final(self).player_state@[player as int].hand() == old(self).player_state@[player as int].hand().remove(op.target)
                &&& final(self).player_state@[player as int].groups() == old(self).player_state@[player as int].groups()
                &&& final(self).player_state@[player as int].recv_now() is None
            },
    {
        let has = self.player_state[player].has_card(op.target);
        assert(self.player_state@ =~= old(self).player_state@);
        if has {
            self.player_state[player].pop_card(op.target);
            self.cur_pop_card = op.target;
            self.cur_step += 1;
            self.cur_state = StateType::WaitResponse;
        }
    }

    /// Carries out a chi, peng or gang of `player`, who then has the turn.
    pub fn do_operation(&mut self, player: usize, op: &MajiangOperation)
        requires
            player < old(self).player_state.len(),
            old(self).cur_step < i64::MAX,
        ensures
            final(self).same_table(old(self)),
            final(self).cur_card_ix == old(self).cur_card_ix,
            final(self).cur_step == old(self).cur_step + 1,
            final(self).cur_player == player,
            final(self).cur_state == StateType::WaitPop,
            final(self).player_state.len() == old(self).player_state.len(),
            forall|q: int|
                0 <= q < old(self).player_state.len() && q != player ==> final(self).player_state@[q]
                    == old(self).player_state@[q],
            final(self).player_state@[player as int].hand() == old(self).player_state@[player as int].hand().difference(used_cards(*op).to_set()),
            final(self).player_state@[player as int].group_list().drop_last() == old(self).player_state@[player as int].group_list(),
            winning::is_sorted_perm(
                final(self).player_state@[player as int].group_list().last(),
                used_cards(*op).push(op.target),
            ),
            final(self).player_state@[player as int].group_list().len() == old(self).player_state@[player as int].group_list().len() + 1,
            final(self).player_state@[player as int].recv_now() == old(self).player_state@[player as int].recv_now(),
    {
        self.cur_step += 1;
        self.cur_player = player;
        self.player_state[player].execute_op(op);
        self.cur_state = StateType::WaitPop;
    }

    /// Ends the round with a win of `player` by the action of `op`.
    pub fn execute_win_op(&mut self, player: usize, op: &MajiangOperation)
        requires
            old(self).cur_step < i64::MAX,
        ensures
            final(self).win_player == player,
            final(self).cur_player == player,
            final(self).cur_state == StateType::WinOver,
            final(self).cur_step == old(self).cur_step + 1,
            final(self).win_method == op.op,
            final(self).player_state@ == old(self).player_state@,
            final(self).cards@ == old(self).cards@,
            final(self).hide_card@ == old(self).hide_card@,
            final(self).cur_card_ix == old(self).cur_card_ix,
            final(self).cur_pop_card == old(self).cur_pop_card,
    {
        self.win_player = player;
        self.cur_player = player;
        self.cur_state = StateType::WinOver;
        self.cur_step += 1;
        self.win_method = op.op;
    }

    pub fn over(&self) -> (r: bool)
        ensures
            r == self.spec_over(),
    {
        if self.cur_card_ix == self.hide_card.len() {
            return true;
        }
        match self.cur_state {
            StateType::WinOver => true,
            _ => false,
        }
    }

    /// Shows nothing: this function returns at once.
    pub fn print_state(&self) {
    }

    pub fn get_player_state(&self, player: usize) -> (r: &MajiangPlayerState)
        requires
            player < self.player_state.len(),
        ensures
            *r == self.player_state@[player as int],
    {
        &self.player_state[player]
    }
}

} // verus!
