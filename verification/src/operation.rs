use vstd::prelude::*;

use crate::melds;
use crate::model;
use crate::model::Majiang;

verus! {

/// What a player does, or what the table does to a player.
#[derive(Clone, Copy, Debug, PartialEq, Eq, Structural)]
pub enum Action {
    Pop,
    Chi,
    Peng,
    Gang,
    Hu,
    ZiMo,
    QiangJin,
    QingYiSe,
    JinQue,
    JinLong,
    DealBeginCard,
    DealNextCard,
}

impl Action {
    /// The number that stands for the action on the wire.
    pub open spec fn spec_code(self) -> i8 {
        match self {
            Action::Pop => 1,
            Action::Chi => 2,
            Action::Peng => 3,
            Action::Gang => 4,
            Action::Hu => 5,
            Action::ZiMo => 6,
            Action::QiangJin => 7,
            Action::QingYiSe => 8,
            Action::JinQue => 9,
            Action::JinLong => 10,
            Action::DealBeginCard => 11,
            Action::DealNextCard => 12,
        }
    }

    pub fn code(&self) -> (r: i8)
        ensures
            r == self.spec_code(),
    {
        match self {
            Action::Pop => 1,
            Action::Chi => 2,
            Action::Peng => 3,
            Action::Gang => 4,
            Action::Hu => 5,
            Action::ZiMo => 6,
            Action::QiangJin => 7,
            Action::QingYiSe => 8,
            Action::JinQue => 9,
            Action::JinLong => 10,
            Action::DealBeginCard => 11,
            Action::DealNextCard => 12,
        }
    }

    /// The action that a wire number stands for, if any.
    pub fn from_code(c: i8) -> (r: Option<Action>)
        ensures
            r is None <==> !(1 <= c <= 12),
            r matches Some(a) ==> a.spec_code() == c,
    {
        match c {
            1 => Some(Action::Pop),
            2 => Some(Action::Chi),
            3 => Some(Action::Peng),
            4 => Some(Action::Gang),
            5 => Some(Action::Hu),
            6 => Some(Action::ZiMo),
            7 => Some(Action::QiangJin),
            8 => Some(Action::QingYiSe),
            9 => Some(Action::JinQue),
            10 => Some(Action::JinLong),
            11 => Some(Action::DealBeginCard),
            12 => Some(Action::DealNextCard),
            _ => None,
        }
    }

    /// Different actions have different wire numbers: a number names at most one action,
    /// so the action that `from_code` finds for the number of an action is that action.
    pub proof fn lemma_code_injective(a: Action, b: Action)
        ensures
            a.spec_code() == b.spec_code() ==> a == b,
    {
    }

    pub open spec fn spec_priority(self) -> u8 {
        match self {
            Action::Chi => 1,
            Action::Peng => 2,
            Action::Gang => 3,
            Action::Hu => 4,
            Action::ZiMo => 5,
            _ => 0,
        }
    }

    pub fn priority(&self) -> (r: u8)
        ensures
            r == self.spec_priority(),
    {
        match self {
            Action::Chi => 1,
            Action::Peng => 2,
            Action::Gang => 3,
            Action::Hu => 4,
            Action::ZiMo => 5,
            _ => 0,
        }
    }
}

/// An operation on a target card, with the cards from the hand that it uses.
pub struct MajiangOperation {
    pub op: Action,
    pub on_hand: Vec<u8>,
    pub target: u8,
}

/// The mathematical value of an operation.
#[verifier::ext_equal]
pub struct OpModel {
    pub op: Action,
    pub on_hand: Seq<u8>,
    pub target: u8,
}

impl View for MajiangOperation {
    type V = OpModel;

    open spec fn view(&self) -> OpModel {
        OpModel { op: self.op, on_hand: self.on_hand@, target: self.target }
    }
}

/// The values of a list of operations.
pub open spec fn ops_view(ops: Seq<MajiangOperation>) -> Seq<OpModel> {
    ops.map_values(|o: MajiangOperation| o@)
}

/// The test "is of kind `k`", as one closure so that filters by it compare equal.
pub open spec fn kind_is(k: int) -> spec_fn(u8) -> bool {
    |c: u8| model::kind(c) == k
}

/// The cards of kind `k`, in the order in which they stand.
pub open spec fn of_kind(cards: Seq<u8>, k: int) -> Seq<u8> {
    cards.filter(kind_is(k))
}

/// The kinds, relative to the target, that each of the three chi shapes asks for.
pub open spec fn chi_offsets(i: int) -> (int, int) {
    if i == 0 {
        (1, 2)
    } else if i == 1 {
        (-1, 1)
    } else {
        (-1, -2)
    }
}

/// Whether chi shape `i` may be formed around a target of kind `k` without crossing a suit.
pub open spec fn chi_allowed_kind(k: int, i: int) -> bool {
    &&& !((i == 0 || i == 1) && model::is_end_kind(k))
    &&& !((i == 1 || i == 2) && model::is_begin_kind(k))
    &&& !(i == 0 && model::is_end_kind(k + 1))
    &&& !(i == 2 && model::is_begin_kind(k - 1))
}

/// Whether chi shape `i` may be formed around target `p` without crossing a suit.
pub open spec fn chi_allowed(p: u8, i: int) -> bool {
    chi_allowed_kind(model::kind(p), i)
}

/// The chi of shape `i` on target `p` that the cards allow, taking the first card of each
/// needed kind.
pub open spec fn chi_candidate(avl: Seq<u8>, p: u8, i: int) -> Option<OpModel> {
    let (a, b) = chi_offsets(i);
    if chi_allowed(p, i) && of_kind(avl, model::kind(p) + a).len() > 0 && of_kind(avl, model::kind(p)
        + b).len() > 0 {
        Some(
            OpModel {
                op: Action::Chi,
                on_hand: seq![of_kind(avl, model::kind(p) + a)[0], of_kind(avl, model::kind(p) + b)[0]],
                target: p,
            },
        )
    } else {
        None
    }
}

pub open spec fn opt_seq<T>(o: Option<T>) -> Seq<T> {
    match o {
        Some(x) => seq![x],
        None => seq![],
    }
}

/// All chi operations on target `p`, shape by shape.
pub open spec fn spec_chi_ops(avl: Seq<u8>, p: u8) -> Seq<OpModel> {
    if model::is_bai_kind(model::kind(p)) {
        seq![]
    } else {
        opt_seq(chi_candidate(avl, p, 0)) + opt_seq(chi_candidate(avl, p, 1)) + opt_seq(
            chi_candidate(avl, p, 2),
        )
    }
}

/// The peng on target `p`: the first two cards of its kind.
pub open spec fn spec_peng_op(avl: Seq<u8>, p: u8) -> Option<OpModel> {
    if of_kind(avl, model::kind(p)).len() >= 2 {
        Some(OpModel { op: Action::Peng, on_hand: of_kind(avl, model::kind(p)).take(2), target: p })
    } else {
        None
    }
}

/// The gang on target `p`: the first three cards of its kind.
pub open spec fn spec_gang_op(avl: Seq<u8>, p: u8) -> Option<OpModel> {
    if of_kind(avl, model::kind(p)).len() >= 3 {
        Some(OpModel { op: Action::Gang, on_hand: of_kind(avl, model::kind(p)).take(3), target: p })
    } else {
        None
    }
}

/// Another card of the same kind as `t` is in `avl`.
pub open spec fn has_same_kind(avl: Seq<u8>, t: u8) -> bool {
    exists|i: int| 0 <= i < avl.len() && avl[i] != t && model::kind(#[trigger] avl[i]) == model::kind(t)
}

/// Kind `ix` lies next to the kind of `t`, as the advice on pops sees it.
pub open spec fn is_neighbor_kind(ix: int, t: u8) -> bool {
    let tk = model::kind(t);
    if model::is_begin_kind(tk) {
        ix == tk + 1
    } else if model::is_end_kind(tk) {
        ix + 1 == tk
    } else {
        ix + 1 == tk || tk + 1 == ix
    }
}

/// Another card of `avl` lies next to `t`.
pub open spec fn has_neighbor(avl: Seq<u8>, t: u8) -> bool {
    !model::is_bai_kind(model::kind(t)) && exists|i: int|
        0 <= i < avl.len() && avl[i] != t && is_neighbor_kind(model::kind(#[trigger] avl[i]), t)
}

/// A card that has no partner of its kind and no neighbor in the hand.
pub open spec fn is_isolated(avl: Seq<u8>, c: u8) -> bool {
    !has_same_kind(avl, c) && !has_neighbor(avl, c)
}

/// `c` is the first card of `avl` that has no partner and no neighbor.
pub open spec fn is_first_isolated(avl: Seq<u8>, c: u8) -> bool {
    exists|i: int|
        0 <= i < avl.len() && avl[i] == c && is_isolated(avl, c) && forall|j: int|
            0 <= j < i ==> !is_isolated(avl, #[trigger] avl[j])
}

/// The text of an operation as the table shows it.
pub open spec fn spec_op_text(op: OpModel, faces: Seq<Majiang>) -> Seq<char> {
    match op.op {
        Action::Chi => seq!['C', 'H', 'I', ':'] + faces[op.on_hand[0] as int].spec_format()
            + seq!['|', '|'] + faces[op.on_hand[1] as int].spec_format(),
        Action::Peng => seq!['P', 'E', 'N', 'G', ':'] + faces[op.on_hand[0] as int].spec_format()
            + seq!['|', '|'] + faces[op.on_hand[0] as int].spec_format(),
        Action::Gang => seq!['G', 'A', 'N', 'G', ':'] + faces[op.on_hand[0] as int].spec_format()
            + seq!['|', '|'] + faces[op.on_hand[0] as int].spec_format() + seq!['|', '|']
            + faces[op.on_hand[0] as int].spec_format(),
        _ => seq![],
    }
}

/// The first card of kind `k` in `avl`.
fn first_of_kind(avl: &Vec<u8>, k: i16) -> (r: Option<u8>)
    ensures
        r == (if of_kind(avl@, k as int).len() > 0 {
            Some(of_kind(avl@, k as int)[0])
        } else {
            None::<u8>
        }),
{
    broadcast use Seq::lemma_filter_push;

    let n = avl.len();
    let mut i: usize = 0;
    while i < n
        invariant
            n == avl.len(),
            0 <= i <= n,
            of_kind(avl@.take(i as int), k as int).len() == 0,
        decreases n - i,
    {
        proof {
            let s = avl@.take(i as int);
            assert(avl@.take(i + 1) =~= s.push(avl@[i as int]));
            s.lemma_filter_push(avl@[i as int], kind_is(k as int));
        }
        if (avl[i] / 4) as i16 == k {
            proof {
                lemma_filter_prefix(avl@, kind_is(k as int), i + 1);
                assert(of_kind(avl@.take(i + 1), k as int) =~= seq![avl@[i as int]]);
            }
            return Some(avl[i]);
        }
        i = i + 1;
    }
    assert(avl@.take(n as int) =~= avl@);
    None
}

/// Filtering a prefix gives a prefix of the filtered sequence.
pub proof fn lemma_filter_prefix(s: Seq<u8>, p: spec_fn(u8) -> bool, i: int)
    requires
        0 <= i <= s.len(),
    ensures
        s.filter(p) == s.take(i).filter(p) + s.skip(i).filter(p),
{
    broadcast use Seq::filter_distributes_over_add;

    assert(s =~= s.take(i) + s.skip(i));
}

/// The first `n` cards of the kind of `card`, stopping as soon as `n` are found.
fn take_of_kind(avl: &Vec<u8>, card: u8, n: usize) -> (r: Vec<u8>)
    requires
        n > 0,
    ensures
        of_kind(avl@, model::kind(card)).len() >= n ==> r@ == of_kind(avl@, model::kind(card)).take(n as int),
        of_kind(avl@, model::kind(card)).len() < n ==> r@ == of_kind(avl@, model::kind(card)),
        r.len() <= n,
{
    broadcast use Seq::lemma_filter_push;

    let ghost k = model::kind(card);
    let len = avl.len();
    let mut cards: Vec<u8> = Vec::new();
    let mut i: usize = 0;
    while i < len && cards.len() < n
        invariant
            len == avl.len(),
            0 <= i <= len,
            cards.len() <= n,
            cards@ == of_kind(avl@.take(i as int), k),
            k == model::kind(card),
        decreases len - i,
    {
        proof {
            let s = avl@.take(i as int);
            assert(avl@.take(i + 1) =~= s.push(avl@[i as int]));
            s.lemma_filter_push(avl@[i as int], kind_is(k));
        }
        if avl[i] / 4 == card / 4 {
            cards.push(avl[i]);
        }
        i = i + 1;
    }
    proof {
        lemma_filter_prefix(avl@, kind_is(k), i as int);
        if i == len {
            assert(avl@.take(len as int) =~= avl@);
            assert(avl@.skip(len as int) =~= Seq::<u8>::empty());
        }
        if cards.len() == n {
            assert(of_kind(avl@, k).take(n as int) =~= cards@);
        }
    }
    cards
}

impl MajiangOperation {
    /// The operation that pops `card` from the hand.
    pub fn pop_card(card: u8) -> (r: Option<MajiangOperation>)
        ensures
            r matches Some(o) && o@ == (OpModel { op: Action::Pop, on_hand: seq![card], target: card }),
    {
        let op = MajiangOperation { op: Action::Pop, on_hand: vec![card], target: card };
        assert(op.on_hand@ =~= seq![card]);
        Some(op)
    }

    /// A field-by-field copy.
    pub fn duplicate(&self) -> (r: MajiangOperation)
        ensures
            r@ == self@,
    {
        MajiangOperation { op: self.op, on_hand: self.on_hand.clone(), target: self.target }
    }

    pub fn get_peng_op(avl_cards: &Vec<u8>, pop_card: u8) -> (r: Option<MajiangOperation>)
        ensures
            r matches Some(o) ==> Some(o@) == spec_peng_op(avl_cards@, pop_card),
            r is None <==> spec_peng_op(avl_cards@, pop_card) is None,
    {
        let cards = take_of_kind(avl_cards, pop_card, 2);
        if cards.len() == 2 {
            Some(MajiangOperation { op: Action::Peng, on_hand: cards, target: pop_card })
        } else {
            None
        }
    }

    pub fn get_gang_op(avl_cards: &Vec<u8>, pop_card: u8) -> (r: Option<MajiangOperation>)
        ensures
            r matches Some(o) ==> Some(o@) == spec_gang_op(avl_cards@, pop_card),
            r is None <==> spec_gang_op(avl_cards@, pop_card) is None,
    {
        let cards = take_of_kind(avl_cards, pop_card, 3);
        if cards.len() == 3 {
            Some(MajiangOperation { op: Action::Gang, on_hand: cards, target: pop_card })
        } else {
            None
        }
    }
}


/// The chi of shape `i` on `pop_card`, if the hand allows it.
fn chi_shape(avl_cards: &Vec<u8>, pop_card: u8, i: u8) -> (r: Option<MajiangOperation>)
    requires
        i < 3,
        pop_card < 252,
    ensures
        r matches Some(o) ==> chi_candidate(avl_cards@, pop_card, i as int) == Some(o@),
        r is None <==> chi_candidate(avl_cards@, pop_card, i as int) is None,
{
    if (i == 0 || i == 1) && Majiang::end_card(pop_card) {
        return None;
    }
    if (i == 1 || i == 2) && Majiang::begin_card(pop_card) {
        return None;
    }
    if i == 0 && Majiang::end_card(pop_card + 4) {
        return None;
    }
    if i == 2 && Majiang::begin_card(pop_card - 4) {
        return None;
    }
    assert(chi_allowed(pop_card, i as int));
    let pop_ix = (pop_card / 4) as i16;
    let (a, b): (i16, i16) = if i == 0 {
        (1, 2)
    } else if i == 1 {
        (-1, 1)
    } else {
        (-1, -2)
    };
    assert(chi_offsets(i as int) == (a as int, b as int));
    let first = first_of_kind(avl_cards, pop_ix + a);
    let second = first_of_kind(avl_cards, pop_ix + b);
    match (first, second) {
        (Some(x), Some(y)) => {
            let op = MajiangOperation { op: Action::Chi, on_hand: vec![x, y], target: pop_card };
            assert(op.on_hand@ =~= seq![x, y]);
            Some(op)
        },
        _ => None,
    }
}

impl MajiangOperation {
    pub fn get_chi_op(avl_cards: &Vec<u8>, pop_card: u8) -> (r: Option<Vec<MajiangOperation>>)
        requires
            pop_card < 252,
        ensures
            r is None <==> spec_chi_ops(avl_cards@, pop_card).len() == 0,
            r matches Some(v) ==> ops_view(v@) == spec_chi_ops(avl_cards@, pop_card),
    {
        if Majiang::is_bai_bang(pop_card) {
            return None;
        }
        let mut ops: Vec<MajiangOperation> = Vec::new();
        let mut i: u8 = 0;
        while i < 3
            invariant
                0 <= i <= 3,
                pop_card < 252,
                !model::is_bai_kind(model::kind(pop_card)),
                ops_view(ops@) == (if i == 0 {
                    Seq::<OpModel>::empty()
                } else if i == 1 {
                    opt_seq(chi_candidate(avl_cards@, pop_card, 0))
                } else if i == 2 {
                    opt_seq(chi_candidate(avl_cards@, pop_card, 0)) + opt_seq(
                        chi_candidate(avl_cards@, pop_card, 1),
                    )
                } else {
                    spec_chi_ops(avl_cards@, pop_card)
                }),
            decreases 3 - i,
        {
            let ghost before = ops@;
            match chi_shape(avl_cards, pop_card, i) {
                Some(op) => {
                    ops.push(op);
                },
                None => {},
            }
            assert(ops_view(ops@) =~= ops_view(before) + opt_seq(
                chi_candidate(avl_cards@, pop_card, i as int),
            ));
            i = i + 1;
        }
        if ops.len() > 0 {
            Some(ops)
        } else {
            None
        }
    }

    pub fn check_same_card(avl_cards: &Vec<u8>, target: u8) -> (r: bool)
        ensures
            r == has_same_kind(avl_cards@, target),
    {
        let n = avl_cards.len();
        for i in 0..n
            invariant
                n == avl_cards.len(),
                forall|j: int|
                    0 <= j < i ==> !(avl_cards@[j] != target && model::kind(#[trigger] avl_cards@[j])
                        == model::kind(target)),
        {
            let card = avl_cards[i];
            if card != target && card / 4 == target / 4 {
                return true;
            }
        }
        false
    }

    pub fn check_neighbor_card(avl_cards: &Vec<u8>, target: u8) -> (r: bool)
        ensures
            r == has_neighbor(avl_cards@, target),
    {
        if Majiang::is_bai_bang(target) {
            return false;
        }
        let target_ix = target / 4;
        let n = avl_cards.len();
        for i in 0..n
            invariant
                n == avl_cards.len(),
                target_ix == target / 4,
                !model::is_bai_kind(model::kind(target)),
                forall|j: int|
                    0 <= j < i ==> !(avl_cards@[j] != target && is_neighbor_kind(
                        model::kind(#[trigger] avl_cards@[j]),
                        target,
                    )),
        {
            let card = avl_cards[i];
            if card != target {
                let ix = card / 4;
                if Majiang::begin_card(target) {
                    if ix == target_ix + 1 {
                        return true;
                    }
                } else if Majiang::end_card(target) {
                    if ix + 1 == target_ix {
                        return true;
                    }
                } else if ix + 1 == target_ix || target_ix + 1 == ix {
                    assert(is_neighbor_kind(model::kind(avl_cards@[i as int]), target));
                    return true;
                }
            }
        }
        false
    }

    pub fn select_advised_pop_card(avl_cards: &Vec<u8>) -> (r: Option<u8>)
        ensures
            r is None <==> forall|i: int|
                0 <= i < avl_cards.len() ==> !is_isolated(avl_cards@, #[trigger] avl_cards@[i]),
            r matches Some(c) ==> exists|i: int|
                0 <= i < avl_cards.len() && avl_cards@[i] == c && is_isolated(avl_cards@, c)
                    && forall|j: int| 0 <= j < i ==> !is_isolated(avl_cards@, #[trigger] avl_cards@[j]),
    {
        let n = avl_cards.len();
        for i in 0..n
            invariant
                n == avl_cards.len(),
                forall|j: int| 0 <= j < i ==> !is_isolated(avl_cards@, #[trigger] avl_cards@[j]),
        {
            let card = avl_cards[i];
            if !MajiangOperation::check_same_card(avl_cards, card)
                && !MajiangOperation::check_neighbor_card(avl_cards, card) {
                return Some(card);
            }
        }
        None
    }

    pub fn to_string(&self, majiang_map: &Vec<Majiang>) -> (r: String)
        requires
            self.op == Action::Chi ==> self.on_hand.len() >= 2 && self.on_hand[0] < majiang_map.len()
                && self.on_hand[1] < majiang_map.len(),
            (self.op == Action::Peng || self.op == Action::Gang) ==> self.on_hand.len() >= 1
                && self.on_hand[0] < majiang_map.len(),
        ensures
            r@ == spec_op_text(self@, majiang_map@),
    {
        match self.op {
            Action::Chi => {
                let ix_1 = self.on_hand[0] as usize;
                let ix_2 = self.on_hand[1] as usize;
                let f1 = Majiang::format(&majiang_map[ix_1]);
                let f2 = Majiang::format(&majiang_map[ix_2]);
                proof {
                    reveal_strlit("CHI:");
                    reveal_strlit("||");
                }
                let mut s = String::from_str("CHI:");
                s.append(f1.as_str());
                s.append("||");
                s.append(f2.as_str());
                s
            },
            Action::Peng => {
                let ix_1 = self.on_hand[0] as usize;
                let f1 = Majiang::format(&majiang_map[ix_1]);
                proof {
                    reveal_strlit("PENG:");
                    reveal_strlit("||");
                }
                let mut s = String::from_str("PENG:");
                s.append(f1.as_str());
                s.append("||");
                s.append(f1.as_str());
                s
            },
            Action::Gang => {
                let ix_1 = self.on_hand[0] as usize;
                let f1 = Majiang::format(&majiang_map[ix_1]);
                proof {
                    reveal_strlit("GANG:");
                    reveal_strlit("||");
                }
                let mut s = String::from_str("GANG:");
                s.append(f1.as_str());
                s.append("||");
                s.append(f1.as_str());
                s.append("||");
                s.append(f1.as_str());
                s
            },
            _ => {
                proof {
                    reveal_strlit("");
                }
                String::from_str("")
            },
        }
    }

    /// Two operations are equal when they have the same action and the same target.
    pub fn equal(&self, rhs: &MajiangOperation) -> (r: bool)
        ensures
            r == (self.op == rhs.op && self.target == rhs.target),
    {
        if self.op.code() != rhs.op.code() {
            return false;
        }
        if self.target != rhs.target {
            return false;
        }
        true
    }
}

/// What a filter keeps comes from the list.
proof fn lemma_filter_within(s: Seq<u8>, p: spec_fn(u8) -> bool, x: u8)
    requires
        s.filter(p).contains(x),
    ensures
        s.contains(x),
    decreases s.len(),
{
    broadcast use Seq::lemma_filter_push;

    if s.len() == 0 {
        reveal(Seq::filter);
    } else {
        let dl = s.drop_last();
        assert(s =~= dl.push(s.last()));
        if x != s.last() {
            assert(dl.filter(p).contains(x));
            lemma_filter_within(dl, p, x);
            let j = choose|j: int| 0 <= j < dl.len() && dl[j] == x;
            assert(s[j] == x);
        } else {
            assert(s[s.len() - 1] == x);
        }
    }
}

/// The kinds `x`, `y` and `z` are three consecutive numbers of one suit, in some order.
pub open spec fn consecutive_in_suit(x: int, y: int, z: int) -> bool {
    let lo = if x <= y && x <= z {
        x
    } else if y <= z {
        y
    } else {
        z
    };
    &&& x != y && y != z && x != z
    &&& 0 <= lo && lo + 2 < 27 && lo / 9 == (lo + 2) / 9
    &&& x <= lo + 2 && y <= lo + 2 && z <= lo + 2
}

/// The chi that one shape offers on a card of a full set uses two cards of the hand that
/// make, with the target, a run of one suit.
proof fn lemma_chi_candidate_in_suit(avl: Seq<u8>, p: u8, i: int)
    requires
        p < 112,
        !model::is_bai_kind(model::kind(p)),
        0 <= i < 3,
        chi_candidate(avl, p, i) is Some,
    ensures
        ({
            let o = chi_candidate(avl, p, i)->0;
            &&& o.op == Action::Chi
            &&& o.target == p
            &&& o.on_hand.len() == 2
            &&& avl.contains(o.on_hand[0])
            &&& avl.contains(o.on_hand[1])
            &&& consecutive_in_suit(
                model::kind(o.on_hand[0]),
                model::kind(o.on_hand[1]),
                model::kind(p),
            )
        }),
{
    broadcast use vstd::seq_lib::group_filter_ensures;

    let k = model::kind(p);
    let (a, b) = chi_offsets(i);
    let fa = of_kind(avl, k + a);
    let fb = of_kind(avl, k + b);
    assert(fa.contains(fa[0]));
    assert(fb.contains(fb[0]));
    assert(kind_is(k + a)(fa[0]));
    assert(kind_is(k + b)(fb[0]));
    assert(model::kind(fa[0]) == k + a);
    assert(model::kind(fb[0]) == k + b);
    lemma_filter_within(avl, kind_is(k + a), fa[0]);
    lemma_filter_within(avl, kind_is(k + b), fb[0]);
    let o = chi_candidate(avl, p, i)->0;
    assert(o.on_hand[0] == fa[0] && o.on_hand[1] == fb[0]);
    assert(o.on_hand.len() == 2);
    assert(0 <= k <= 27);
}

/// Every chi offered on a card of a full set takes two cards of the hand which make, with
/// the target, three consecutive numbers of one suit: no chi crosses from one suit into the
/// next, and none is offered on a white board.
pub proof fn lemma_chi_runs_in_suit(avl: Seq<u8>, p: u8)
    requires
        p < 112,
    ensures
        forall|j: int|
            0 <= j < spec_chi_ops(avl, p).len() ==> {
                let o = #[trigger] spec_chi_ops(avl, p)[j];
                &&& o.op == Action::Chi
                &&& o.target == p
                &&& o.on_hand.len() == 2
                &&& avl.contains(o.on_hand[0])
                &&& avl.contains(o.on_hand[1])
                &&& consecutive_in_suit(
                    model::kind(o.on_hand[0]),
                    model::kind(o.on_hand[1]),
                    model::kind(p),
                )
            },
        model::is_bai_kind(model::kind(p)) ==> spec_chi_ops(avl, p).len() == 0,
{
    if !model::is_bai_kind(model::kind(p)) {
        let c0 = opt_seq(chi_candidate(avl, p, 0));
        let c1 = opt_seq(chi_candidate(avl, p, 1));
        let c2 = opt_seq(chi_candidate(avl, p, 2));
        let all = spec_chi_ops(avl, p);
        assert(all =~= c0 + c1 + c2);
        assert forall|j: int| 0 <= j < all.len() implies {
            let o = #[trigger] all[j];
            &&& o.op == Action::Chi
            &&& o.target == p
            &&& o.on_hand.len() == 2
            &&& avl.contains(o.on_hand[0])
            &&& avl.contains(o.on_hand[1])
            &&& consecutive_in_suit(
                model::kind(o.on_hand[0]),
                model::kind(o.on_hand[1]),
                model::kind(p),
            )
        } by {
            if j < c0.len() {
                lemma_chi_candidate_in_suit(avl, p, 0);
                assert(all[j] == chi_candidate(avl, p, 0)->0);
            } else if j < c0.len() + c1.len() {
                lemma_chi_candidate_in_suit(avl, p, 1);
                assert(all[j] == chi_candidate(avl, p, 1)->0);
            } else {
                lemma_chi_candidate_in_suit(avl, p, 2);
                assert(all[j] == chi_candidate(avl, p, 2)->0);
            }
        }
    }
}

/// On a card of a full set, a card of the hand counts as a neighbor exactly when it is
/// another card of the same numbered suit whose number is one more or one less.
pub proof fn lemma_neighbor_in_suit(avl: Seq<u8>, t: u8)
    requires
        t < 112,
    ensures
        has_neighbor(avl, t) <==> exists|i: int|
            0 <= i < avl.len() && avl[i] != t && model::kind(#[trigger] avl[i]) / 9 == model::kind(
                t,
            ) / 9 && model::kind(t) / 9 < 3 && (model::kind(avl[i]) == model::kind(t) + 1
                || model::kind(avl[i]) + 1 == model::kind(t)),
{
    let tk = model::kind(t);
    if has_neighbor(avl, t) {
        let i = choose|i: int|
            0 <= i < avl.len() && avl[i] != t && is_neighbor_kind(model::kind(#[trigger] avl[i]), t);
        assert(tk / 9 < 3);
        assert(model::kind(avl[i]) / 9 == tk / 9);
    }
    if exists|i: int|
        0 <= i < avl.len() && avl[i] != t && model::kind(#[trigger] avl[i]) / 9 == tk / 9 && tk / 9 < 3
            && (model::kind(avl[i]) == tk + 1 || model::kind(avl[i]) + 1 == tk) {
        let i = choose|i: int|
            0 <= i < avl.len() && avl[i] != t && model::kind(#[trigger] avl[i]) / 9 == tk / 9 && tk
                / 9 < 3 && (model::kind(avl[i]) == tk + 1 || model::kind(avl[i]) + 1 == tk);
        assert(is_neighbor_kind(model::kind(avl[i]), t));
    }
}

/// A peng is offered exactly when the cards hold at least two of the popped card's kind,
/// whatever the kind; it takes two such cards of the hand.
pub proof fn lemma_peng_offered(avl: Seq<u8>, p: u8)
    ensures
        spec_peng_op(avl, p) is Some <==> melds::kinds(avl).count(model::kind(p)) >= 2,
        spec_peng_op(avl, p) matches Some(o) ==> {
            &&& o.op == Action::Peng
            &&& o.target == p
            &&& o.on_hand.len() == 2
            &&& forall|k: int|
                0 <= k < 2 ==> avl.contains(#[trigger] o.on_hand[k]) && model::kind(o.on_hand[k])
                    == model::kind(p)
        },
{
    broadcast use vstd::seq_lib::group_filter_ensures;

    melds::lemma_kinds_count(avl, model::kind(p));
    let f = of_kind(avl, model::kind(p));
    if f.len() >= 2 {
        assert forall|k: int| 0 <= k < 2 implies avl.contains(#[trigger] f.take(2)[k]) && model::kind(
            f.take(2)[k],
        ) == model::kind(p) by {
            assert(f.take(2)[k] == f[k]);
            assert(f.contains(f[k]));
            lemma_filter_within(avl, kind_is(model::kind(p)), f[k]);
            assert(kind_is(model::kind(p))(f[k]));
        }
    }
}

/// A gang is offered exactly when the cards hold at least three of the popped card's kind,
/// whatever the kind (white boards too); it takes three such cards of the hand.
pub proof fn lemma_gang_offered(avl: Seq<u8>, p: u8)
    ensures
        spec_gang_op(avl, p) is Some <==> melds::kinds(avl).count(model::kind(p)) >= 3,
        spec_gang_op(avl, p) matches Some(o) ==> {
            &&& o.op == Action::Gang
            &&& o.target == p
            &&& o.on_hand.len() == 3
            &&& forall|k: int|
                0 <= k < 3 ==> avl.contains(#[trigger] o.on_hand[k]) && model::kind(o.on_hand[k])
                    == model::kind(p)
        },
{
    broadcast use vstd::seq_lib::group_filter_ensures;

    melds::lemma_kinds_count(avl, model::kind(p));
    let f = of_kind(avl, model::kind(p));
    if f.len() >= 3 {
        assert forall|k: int| 0 <= k < 3 implies avl.contains(#[trigger] f.take(3)[k]) && model::kind(
            f.take(3)[k],
        ) == model::kind(p) by {
            assert(f.take(3)[k] == f[k]);
            assert(f.contains(f[k]));
            lemma_filter_within(avl, kind_is(model::kind(p)), f[k]);
            assert(kind_is(model::kind(p))(f[k]));
        }
    }
}

} // verus!
