use vstd::prelude::*;
use vstd::multiset::Multiset;

use crate::hand;
use crate::hand::{add_group, dedup_cards, remove_cards, sort_cards};
use crate::melds;
use crate::model;
use crate::operation;
use crate::operation::{MajiangOperation, OpModel};

verus! {

broadcast use vstd::multiset::group_multiset_axioms;

/// The cards of an operation together with its target.
pub open spec fn group_of(op: OpModel) -> Seq<u8> {
    op.on_hand.push(op.target)
}

/// The cards other than `c`.
pub open spec fn others(cards: Seq<u8>, c: u8) -> Seq<u8> {
    cards.filter(melds::not_in(seq![c]))
}

/// The chi and peng operations that the other cards offer on the card at index `j`.
pub open spec fn ops_at(cards: Seq<u8>, j: int) -> Seq<OpModel> {
    operation::spec_chi_ops(others(cards, cards[j]), cards[j]) + operation::opt_seq(
        operation::spec_peng_op(others(cards, cards[j]), cards[j]),
    )
}

/// `t` is `u` in ascending order.
pub open spec fn is_sorted_perm(t: Seq<u8>, u: Seq<u8>) -> bool {
    melds::sorted(t) && t.to_multiset() == u.to_multiset()
}

/// `t` is the sorted group of one of the operations on the card at index `j`.
pub open spec fn listed_at(cards: Seq<u8>, t: Seq<u8>, j: int) -> bool {
    exists|k: int|
        0 <= k < ops_at(cards, j).len() && is_sorted_perm(t, group_of(#[trigger] ops_at(cards, j)[k]))
}

/// `t` is a group that some card of the hand forms with the others.
pub open spec fn listed(cards: Seq<u8>, t: Seq<u8>) -> bool {
    exists|j: int| 0 <= j < cards.len() && #[trigger] listed_at(cards, t, j)
}

/// The distinct cards that remain once the cards of `t` are taken away.
pub open spec fn remaining(cards: Seq<u8>, t: Seq<u8>) -> Seq<u8> {
    melds::dedup(cards).filter(melds::not_in(t))
}

/// What the group search answers, on any list of cards.
pub open spec fn spec_all_in_seq(cards: Seq<u8>) -> bool {
    if cards.len() == 0 {
        true
    } else if cards.len() < 3 {
        false
    } else if cards.len() == 3 {
        exists|t: Seq<u8>| #[trigger] listed(cards, t)
    } else {
        exists|t: Seq<u8>|
            #[trigger] listed(cards, t) && melds::decomposable(melds::kinds(remaining(cards, t)))
    }
}

// ---------------------------------------------------------------------------------------------
proof fn lemma_kinds_three(x: u8, y: u8, z: u8)
    ensures
        melds::kinds(seq![x, y, z]) =~= melds::triple(model::kind(x), model::kind(y), model::kind(z)),
{
    reveal_with_fuel(melds::kinds, 4);
    assert(seq![x, y, z].drop_last() =~= seq![x, y]);
    assert(seq![x, y].drop_last() =~= seq![x]);
    assert(seq![x].drop_last() =~= Seq::<u8>::empty());
    assert(melds::kinds(seq![x]) =~= Multiset::empty().insert(model::kind(x)));
    assert(melds::kinds(seq![x, y]) =~= Multiset::empty().insert(model::kind(x)).insert(
        model::kind(y),
    ));
}

proof fn lemma_kinds_one(x: u8)
    ensures
        melds::kinds(seq![x]) =~= Multiset::empty().insert(model::kind(x)),
{
    reveal_with_fuel(melds::kinds, 2);
    assert(seq![x].drop_last() =~= Seq::<u8>::empty());
    assert(melds::kinds(Seq::<u8>::empty()) =~= Multiset::empty());
}

/// The first card of a kind that the list holds.
proof fn lemma_first_of_kind(s: Seq<u8>, k: int)
    requires
        melds::kinds(s).count(k) >= 1,
    ensures
        operation::of_kind(s, k).len() > 0,
        model::kind(operation::of_kind(s, k)[0]) == k,
        s.contains(operation::of_kind(s, k)[0]),
{
    melds::lemma_kinds_count(s, k);
    s.lemma_filter_pred(operation::kind_is(k), 0);
    s.lemma_filter_contains_rev(operation::kind_is(k), operation::of_kind(s, k)[0]);
}

/// An index of a card of a kind that the list holds.
proof fn lemma_index_of_kind(s: Seq<u8>, k: int) -> (j: int)
    requires
        melds::kinds(s).count(k) >= 1,
    ensures
        0 <= j < s.len(),
        model::kind(s[j]) == k,
{
    lemma_first_of_kind(s, k);
    let x = operation::of_kind(s, k)[0];
    choose|j: int| 0 <= j < s.len() && s[j] == x
}

/// Without `cards[j]`, the hand loses one card of its kind.
proof fn lemma_others(cards: Seq<u8>, j: int)
    requires
        cards.no_duplicates(),
        0 <= j < cards.len(),
    ensures
        melds::kinds(others(cards, cards[j])) =~= melds::kinds(cards).sub(
            Multiset::empty().insert(model::kind(cards[j])),
        ),
        others(cards, cards[j]).no_duplicates(),
        !others(cards, cards[j]).contains(cards[j]),
        forall|x: u8| #[trigger] others(cards, cards[j]).contains(x) ==> cards.contains(x),
{
    let c = cards[j];
    let t = seq![c];
    assert(cards.contains(t[0]));
    melds::lemma_kinds_remove_all(cards, t);
    lemma_kinds_one(c);
    if others(cards, c).contains(c) {
        let i = choose|i: int| 0 <= i < others(cards, c).len() && others(cards, c)[i] == c;
        cards.lemma_filter_pred(melds::not_in(t), i);
        assert(t.contains(c));
    }
    assert forall|x: u8| #[trigger] others(cards, c).contains(x) implies cards.contains(x) by {
        cards.lemma_filter_contains_rev(melds::not_in(t), x);
    }
}

/// The facts that every listed group satisfies.
proof fn lemma_listed_facts(cards: Seq<u8>, t: Seq<u8>)
    requires
        listed(cards, t),
    ensures
        t.len() == 3,
        forall|i: int| 0 <= i < t.len() ==> cards.contains(#[trigger] t[i]),
        cards.no_duplicates() ==> t.no_duplicates() && melds::is_meld(melds::kinds(t))
            && melds::kinds(t) == melds::kinds(group_of_listed(cards, t)),
{
    broadcast use vstd::seq_lib::group_to_multiset_ensures;

    let j = choose|j: int| 0 <= j < cards.len() && #[trigger] listed_at(cards, t, j);
    let k = choose|k: int|
        0 <= k < ops_at(cards, j).len() && is_sorted_perm(t, group_of(#[trigger] ops_at(cards, j)[k]));
    let c = cards[j];
    let avl = others(cards, c);
    let op = ops_at(cards, j)[k];
    let g = group_of(op);
    let chi = operation::spec_chi_ops(avl, c);
    // the shape of the operation
    assert(forall|x: u8| #[trigger] avl.contains(x) ==> cards.contains(x)) by {
        assert forall|x: u8| #[trigger] avl.contains(x) implies cards.contains(x) by {
            cards.lemma_filter_contains_rev(melds::not_in(seq![c]), x);
        }
    }
    let (x, y) = lemma_op_cards(avl, c, op, k, chi);
    assert(g =~= seq![x, y, c]);
    vstd::seq_lib::to_multiset_len(t);
    vstd::seq_lib::to_multiset_len(g);
    assert forall|i: int| 0 <= i < t.len() implies cards.contains(#[trigger] t[i]) by {
        assert(t.to_multiset().count(t[i]) > 0);
        assert(g.contains(t[i]));
        assert(cards.contains(c));
    }
    if cards.no_duplicates() {
        lemma_others(cards, j);
        assert(!avl.contains(c));
        lemma_op_distinct(avl, c, op, k, chi, x, y);
        assert(g.no_duplicates()) by {
            assert forall|a: int, b: int| 0 <= a < b < g.len() implies g[a] != g[b] by {
                if b == 2 {
                    assert(avl.contains(g[a]));
                }
            }
        }
        g.lemma_multiset_has_no_duplicates();
        assert forall|v: u8| t.to_multiset().contains(v) implies t.to_multiset().count(v) == 1 by {
        }
        t.lemma_multiset_has_no_duplicates_conv();
        melds::lemma_kinds_perm(t, g);
        lemma_kinds_three(x, y, c);
    }
}

/// The group of some operation that lists `t`.
pub open spec fn group_of_listed(cards: Seq<u8>, t: Seq<u8>) -> Seq<u8> {
    let j = choose|j: int| 0 <= j < cards.len() && #[trigger] listed_at(cards, t, j);
    let k = choose|k: int|
        0 <= k < ops_at(cards, j).len() && is_sorted_perm(t, group_of(#[trigger] ops_at(cards, j)[k]));
    group_of(ops_at(cards, j)[k])
}

/// An operation on `c` uses two cards of the others, and its group's kinds form a meld.
proof fn lemma_op_cards(avl: Seq<u8>, c: u8, op: OpModel, k: int, chi: Seq<OpModel>) -> (xy: (u8, u8))
    requires
        chi == operation::spec_chi_ops(avl, c),
        0 <= k < (chi + operation::opt_seq(operation::spec_peng_op(avl, c))).len(),
        op == (chi + operation::opt_seq(operation::spec_peng_op(avl, c)))[k],
    ensures
        op.target == c,
        op.on_hand =~= seq![xy.0, xy.1],
        avl.contains(xy.0),
        avl.contains(xy.1),
        melds::is_meld(melds::triple(model::kind(xy.0), model::kind(xy.1), model::kind(c))),
        model::kind(xy.0) != model::kind(c) ==> model::kind(xy.1) != model::kind(c)
            && model::kind(xy.0) != model::kind(xy.1),
{
    broadcast use vstd::seq_lib::group_filter_ensures;
    broadcast use Seq::lemma_filter_contains_rev;

    let pk = model::kind(c);
    let c0 = operation::chi_candidate(avl, c, 0);
    let c1 = operation::chi_candidate(avl, c, 1);
    let c2 = operation::chi_candidate(avl, c, 2);
    let shape: int = if k < chi.len() {
        if k == 0 && c0 is Some {
            0
        } else if c1 is Some && k == operation::opt_seq(c0).len() {
            1
        } else {
            2
        }
    } else {
        3
    };
    if shape == 3 {
        let ka = operation::of_kind(avl, pk);
        let x = ka[0];
        let y = ka[1];
        assert(operation::kind_is(pk)(x));
        assert(operation::kind_is(pk)(y));
        assert(avl.filter(operation::kind_is(pk)).contains(x));
        assert(avl.filter(operation::kind_is(pk)).contains(y));
        assert(melds::triple(pk, pk, pk) == melds::peng_of(pk));
        assert(op.on_hand =~= seq![x, y]);
        (x, y)
    } else {
        assert(!model::is_bai_kind(pk));
        let (a, b) = operation::chi_offsets(shape);
        let ka = operation::of_kind(avl, pk + a);
        let kb = operation::of_kind(avl, pk + b);
        let x = ka[0];
        let y = kb[0];
        assert(op == operation::chi_candidate(avl, c, shape).unwrap());
        assert(operation::kind_is(pk + a)(x));
        assert(operation::kind_is(pk + b)(y));
        assert(avl.filter(operation::kind_is(pk + a)).contains(x));
        assert(avl.filter(operation::kind_is(pk + b)).contains(y));
        if shape == 0 {
            assert(melds::triple(pk + 1, pk + 2, pk) =~= melds::run_of(pk));
            assert(melds::run_formable(pk));
        } else if shape == 1 {
            assert(melds::triple(pk - 1, pk + 1, pk) =~= melds::run_of(pk - 1));
            assert(melds::run_formable(pk - 1));
        } else {
            assert(melds::triple(pk - 1, pk - 2, pk) =~= melds::run_of(pk - 2));
            assert(melds::run_formable(pk - 2));
        }
        (x, y)
    }
}

/// In a hand without repeats, the cards of a group are distinct.
proof fn lemma_op_distinct(avl: Seq<u8>, c: u8, op: OpModel, k: int, chi: Seq<OpModel>, x: u8, y: u8)
    requires
        avl.no_duplicates(),
        chi == operation::spec_chi_ops(avl, c),
        0 <= k < (chi + operation::opt_seq(operation::spec_peng_op(avl, c))).len(),
        op == (chi + operation::opt_seq(operation::spec_peng_op(avl, c)))[k],
        op.on_hand =~= seq![x, y],
    ensures
        x != y,
{
    broadcast use vstd::seq_lib::group_filter_ensures;

    if k >= chi.len() {
        let ka = operation::of_kind(avl, model::kind(c));
        melds::lemma_filter_no_dup(avl, operation::kind_is(model::kind(c)));
        assert(x == ka[0] && y == ka[1]);
    } else {
        lemma_op_cards(avl, c, op, k, chi);
        let pk = model::kind(c);
        let c0 = operation::chi_candidate(avl, c, 0);
        let c1 = operation::chi_candidate(avl, c, 1);
        let shape: int = if k == 0 && c0 is Some {
            0
        } else if c1 is Some && k == operation::opt_seq(c0).len() {
            1
        } else {
            2
        };
        let (a, b) = operation::chi_offsets(shape);
        assert(op == operation::chi_candidate(avl, c, shape).unwrap());
        assert(operation::kind_is(pk + a)(x));
        assert(operation::kind_is(pk + b)(y));
    }
}

/// Cards in ascending order with the same members.
proof fn lemma_sorted_version(u: Seq<u8>) -> (t: Seq<u8>)
    ensures
        is_sorted_perm(t, u),
{
    let leq = |a: u8, b: u8| a <= b;
    assert(vstd::relations::total_ordering(leq));
    u.lemma_sort_by_ensures(leq);
    let t = u.sort_by(leq);
    assert forall|i: int, j: int| 0 <= i < j < t.len() implies t[i] <= t[j] by {
        assert(leq(t[i], t[j]));
    }
    t
}

/// The sorted group of operation `k` on the card at index `j` is listed.
proof fn lemma_listed_group(cards: Seq<u8>, j: int, k: int) -> (t: Seq<u8>)
    requires
        0 <= j < cards.len(),
        0 <= k < ops_at(cards, j).len(),
    ensures
        listed(cards, t),
        melds::kinds(t) == melds::kinds(group_of(ops_at(cards, j)[k])),
{
    let g = group_of(ops_at(cards, j)[k]);
    let t = lemma_sorted_version(g);
    assert(listed_at(cards, t, j));
    melds::lemma_kinds_perm(t, g);
    t
}

/// Every group that the kinds of a hand without repeats contain is listed.
proof fn lemma_coverage(cards: Seq<u8>, m: Multiset<int>) -> (t: Seq<u8>)
    requires
        cards.no_duplicates(),
        melds::is_meld(m),
        m.subset_of(melds::kinds(cards)),
    ensures
        listed(cards, t),
        melds::kinds(t) == m,
{
    broadcast use vstd::seq_lib::group_filter_ensures;

    let kc = melds::kinds(cards);
    if exists|a: int| #[trigger] melds::peng_of(a) == m {
        let a = choose|a: int| #[trigger] melds::peng_of(a) == m;
        assert(m.count(a) == 3);
        let j = lemma_index_of_kind(cards, a);
        let c = cards[j];
        let avl = others(cards, c);
        lemma_others(cards, j);
        melds::lemma_kinds_count(avl, a);
        let ka = operation::of_kind(avl, a);
        assert(ka.len() >= 2);
        let chi = operation::spec_chi_ops(avl, c);
        let k = chi.len() as int;
        let op = ops_at(cards, j)[k];
        assert(op == operation::spec_peng_op(avl, c).unwrap());
        assert(operation::kind_is(a)(ka[0]));
        assert(operation::kind_is(a)(ka[1]));
        assert(group_of(op) =~= seq![ka[0], ka[1], c]);
        lemma_kinds_three(ka[0], ka[1], c);
        let t = lemma_listed_group(cards, j, k);
        assert(melds::kinds(t) =~= m);
        t
    } else {
        let a = choose|a: int| melds::run_formable(a) && #[trigger] melds::run_of(a) == m;
        assert(m.count(a) >= 1 && m.count(a + 1) >= 1 && m.count(a + 2) >= 1);
        if !model::is_bai_kind(a) && operation::chi_allowed_kind(a, 0) {
            let j = lemma_index_of_kind(cards, a);
            let c = cards[j];
            let avl = others(cards, c);
            lemma_others(cards, j);
            lemma_first_of_kind(avl, a + 1);
            lemma_first_of_kind(avl, a + 2);
            let x = operation::of_kind(avl, a + 1)[0];
            let y = operation::of_kind(avl, a + 2)[0];
            let op = ops_at(cards, j)[0];
            assert(op == operation::chi_candidate(avl, c, 0).unwrap());
            assert(group_of(op) =~= seq![x, y, c]);
            lemma_kinds_three(x, y, c);
            let t = lemma_listed_group(cards, j, 0);
            assert(melds::kinds(t) =~= m);
            t
        } else if !model::is_bai_kind(a + 1) && operation::chi_allowed_kind(a + 1, 1) {
            let j = lemma_index_of_kind(cards, a + 1);
            let c = cards[j];
            let avl = others(cards, c);
            lemma_others(cards, j);
            lemma_first_of_kind(avl, a);
            lemma_first_of_kind(avl, a + 2);
            let x = operation::of_kind(avl, a)[0];
            let y = operation::of_kind(avl, a + 2)[0];
            let k = operation::opt_seq(operation::chi_candidate(avl, c, 0)).len() as int;
            let op = ops_at(cards, j)[k];
            assert(op == operation::chi_candidate(avl, c, 1).unwrap());
            assert(group_of(op) =~= seq![x, y, c]);
            lemma_kinds_three(x, y, c);
            let t = lemma_listed_group(cards, j, k);
            assert(melds::kinds(t) =~= m);
            t
        } else {
            let j = lemma_index_of_kind(cards, a + 2);
            let c = cards[j];
            let avl = others(cards, c);
            lemma_others(cards, j);
            lemma_first_of_kind(avl, a + 1);
            lemma_first_of_kind(avl, a);
            let x = operation::of_kind(avl, a + 1)[0];
            let y = operation::of_kind(avl, a)[0];
            let k: int = (operation::opt_seq(operation::chi_candidate(avl, c, 0)).len()
                + operation::opt_seq(operation::chi_candidate(avl, c, 1)).len()) as int;
            let op = ops_at(cards, j)[k];
            assert(op == operation::chi_candidate(avl, c, 2).unwrap());
            assert(group_of(op) =~= seq![x, y, c]);
            lemma_kinds_three(x, y, c);
            let t = lemma_listed_group(cards, j, k);
            assert(melds::kinds(t) =~= m);
            t
        }
    }
}

/// There is one ascending order of a list of cards.
proof fn lemma_sorted_unique(a: Seq<u8>, b: Seq<u8>)
    requires
        melds::sorted(a),
        melds::sorted(b),
        a.to_multiset() == b.to_multiset(),
    ensures
        a == b,
    decreases a.len(),
{
    broadcast use vstd::seq_lib::group_to_multiset_ensures;

    vstd::seq_lib::to_multiset_len(a);
    vstd::seq_lib::to_multiset_len(b);
    if a.len() == 0 {
        assert(a =~= b);
    } else {
        assert(b.to_multiset().count(a[0]) > 0);
        assert(a.to_multiset().count(b[0]) > 0);
        assert(b.contains(a[0]));
        assert(a.contains(b[0]));
        let i = choose|i: int| 0 <= i < b.len() && b[i] == a[0];
        let j = choose|j: int| 0 <= j < a.len() && a[j] == b[0];
        assert(b[0] <= b[i]);
        assert(a[0] <= a[j]);
        assert(a[0] == b[0]);
        assert(a.remove(0) =~= a.drop_first());
        assert(b.remove(0) =~= b.drop_first());
        assert(a.drop_first().to_multiset() == b.drop_first().to_multiset());
        lemma_sorted_unique(a.drop_first(), b.drop_first());
        assert(a =~= seq![a[0]] + a.drop_first());
        assert(b =~= seq![b[0]] + b.drop_first());
    }
}

/// The operations on `card` that the other cards offer: chi shapes, then peng.
fn ops_on(cards: &Vec<u8>, j: usize) -> (ops: Vec<MajiangOperation>)
    requires
        j < cards.len(),
        cards@[j as int] < 252,
    ensures
        operation::ops_view(ops@) == ops_at(cards@, j as int),
{
    let card = cards[j];
    let single = vec![card];
    assert(single@ =~= seq![card]);
    let avl = remove_cards(cards, &single);
    let mut ops: Vec<MajiangOperation> = Vec::new();
    if let Some(chi_ops) = MajiangOperation::get_chi_op(&avl, card) {
        ops = chi_ops;
    }
    assert(operation::ops_view(ops@) == operation::spec_chi_ops(avl@, card));
    let ghost before = ops@;
    if let Some(peng_op) = MajiangOperation::get_peng_op(&avl, card) {
        ops.push(peng_op);
    }
    assert(operation::ops_view(ops@) =~= operation::ops_view(before) + operation::opt_seq(
        operation::spec_peng_op(avl@, card),
    ));
    ops
}

impl MajiangOperation {
    /// All distinct groups (sorted) that a card of the list forms with two others: the chi
    /// and peng operations on each card, each with the card added.
    pub fn get_all_seq(cards: &Vec<u8>) -> (r: Option<Vec<Vec<u8>>>)
        requires
            melds::ids_in_range(cards@),
        ensures
            r is None <==> !exists|t: Seq<u8>| #[trigger] listed(cards@, t),
            r matches Some(v) ==> hand::seqs_view(v@).no_duplicates() && forall|t: Seq<u8>|
                #[trigger] hand::seqs_view(v@).contains(t) <==> listed(cards@, t),
    {
        let mut groups: Vec<Vec<u8>> = Vec::new();
        let n = cards.len();
        for j in 0..n
            invariant
                n == cards.len(),
                melds::ids_in_range(cards@),
                hand::seqs_view(groups@).no_duplicates(),
                forall|t: Seq<u8>|
                    #[trigger] hand::seqs_view(groups@).contains(t) <==> exists|j2: int|
                        0 <= j2 < j && #[trigger] listed_at(cards@, t, j2),
        {
            let ops = ops_on(cards, j);
            let m = ops.len();
            let ghost before = groups@;
            for k in 0..m
                invariant
                    m == ops.len(),
                    operation::ops_view(ops@) == ops_at(cards@, j as int),
                    hand::seqs_view(groups@).no_duplicates(),
                    forall|t: Seq<u8>|
                        #[trigger] hand::seqs_view(groups@).contains(t) <==> hand::seqs_view(
                            before,
                        ).contains(t) || exists|k2: int|
                            0 <= k2 < k && is_sorted_perm(
                                t,
                                group_of(#[trigger] ops_at(cards@, j as int)[k2]),
                            ),
            {
                let mut g = ops[k].on_hand.clone();
                g.push(ops[k].target);
                assert(g@ == group_of(ops_at(cards@, j as int)[k as int])) by {
                    assert(ops_at(cards@, j as int)[k as int] == ops@[k as int]@);
                }
                let ghost unsorted = g@;
                sort_cards(&mut g);
                let ghost gs = g@;
                let ghost prev = groups@;
                add_group(&mut groups, g);
                proof {
                    assert forall|t: Seq<u8>|
                        #[trigger] hand::seqs_view(groups@).contains(t) <==> hand::seqs_view(
                            before,
                        ).contains(t) || exists|k2: int|
                            0 <= k2 < k + 1 && is_sorted_perm(
                                t,
                                group_of(#[trigger] ops_at(cards@, j as int)[k2]),
                            ) by {
                        if hand::seqs_view(groups@).contains(t) && !hand::seqs_view(
                            before,
                        ).contains(t) && !hand::seqs_view(prev).contains(t) {
                            assert(t == gs);
                            assert(is_sorted_perm(t, group_of(ops_at(cards@, j as int)[k as int])));
                        }
                        if exists|k2: int|
                            0 <= k2 < k + 1 && is_sorted_perm(
                                t,
                                group_of(#[trigger] ops_at(cards@, j as int)[k2]),
                            ) {
                            let k2 = choose|k2: int|
                                0 <= k2 < k + 1 && is_sorted_perm(
                                    t,
                                    group_of(#[trigger] ops_at(cards@, j as int)[k2]),
                                );
                            if k2 == k {
                                lemma_sorted_unique(t, gs);
                            }
                        }
                    }
                }
            }
            proof {
                assert forall|t: Seq<u8>|
                    #[trigger] hand::seqs_view(groups@).contains(t) <==> exists|j2: int|
                        0 <= j2 < j + 1 && #[trigger] listed_at(cards@, t, j2) by {
                    if exists|k2: int|
                        0 <= k2 < m && is_sorted_perm(
                            t,
                            group_of(#[trigger] ops_at(cards@, j as int)[k2]),
                        ) {
                        assert(listed_at(cards@, t, j as int));
                    }
                    if listed_at(cards@, t, j as int) {
                        let k2 = choose|k2: int|
                            0 <= k2 < ops_at(cards@, j as int).len() && is_sorted_perm(
                                t,
                                group_of(#[trigger] ops_at(cards@, j as int)[k2]),
                            );
                        assert(0 <= k2 < m);
                    }
                }
            }
        }
        proof {
            assert forall|t: Seq<u8>|
                #[trigger] hand::seqs_view(groups@).contains(t) <==> listed(cards@, t) by {
                if listed(cards@, t) {
                    let j2 = choose|j2: int| 0 <= j2 < cards@.len() && #[trigger] listed_at(cards@, t, j2);
                    assert(listed_at(cards@, t, j2));
                }
            }
        }
        if groups.len() > 0 {
            proof {
                let t0 = hand::seqs_view(groups@)[0];
                assert(hand::seqs_view(groups@).contains(t0));
                assert(listed(cards@, t0));
            }
            Some(groups)
        } else {
            proof {
                if exists|t: Seq<u8>| #[trigger] listed(cards@, t) {
                    let t = choose|t: Seq<u8>| #[trigger] listed(cards@, t);
                    assert(hand::seqs_view(groups@).contains(t));
                }
            }
            None
        }
    }
}

/// Taking away a listed group leaves fewer, distinct cards of the hand.
proof fn lemma_remaining_facts(cards: Seq<u8>, t: Seq<u8>)
    requires
        listed(cards, t),
    ensures
        remaining(cards, t).len() < cards.len(),
        remaining(cards, t).no_duplicates(),
        forall|x: u8| #[trigger] remaining(cards, t).contains(x) ==> cards.contains(x),
{
    broadcast use vstd::seq_lib::group_filter_ensures;

    lemma_listed_facts(cards, t);
    let d = melds::dedup(cards);
    melds::lemma_dedup(cards);
    melds::lemma_filter_no_dup(d, melds::not_in(t));
    assert(cards.contains(t[0]));
    assert(d.contains(t[0]));
    let i = choose|i: int| 0 <= i < d.len() && d[i] == t[0];
    assert(melds::neg(melds::not_in(t))(d[i]));
    assert(d.filter(melds::neg(melds::not_in(t))).contains(d[i]));
    melds::lemma_kinds_filter_split(d, melds::not_in(t));
    melds::lemma_kinds_len(d);
    melds::lemma_kinds_len(d.filter(melds::not_in(t)));
    melds::lemma_kinds_len(d.filter(melds::neg(melds::not_in(t))));
    assert forall|x: u8| #[trigger] remaining(cards, t).contains(x) implies cards.contains(x) by {
        d.lemma_filter_contains_rev(melds::not_in(t), x);
    }
}

/// In a hand without repeats, a listed group is a meld of the hand, and taking it away
/// takes away its kinds.
proof fn lemma_distinct_step(cards: Seq<u8>, t: Seq<u8>)
    requires
        cards.no_duplicates(),
        listed(cards, t),
    ensures
        melds::is_meld(melds::kinds(t)),
        melds::kinds(t).subset_of(melds::kinds(cards)),
        melds::kinds(remaining(cards, t)) == melds::kinds(cards).sub(melds::kinds(t)),
{
    lemma_listed_facts(cards, t);
    melds::lemma_dedup(cards);
    melds::lemma_kinds_remove_all(cards, t);
}

/// For a hand without repeats, the group search decides decomposability.
proof fn lemma_distinct_equiv(cards: Seq<u8>)
    requires
        cards.no_duplicates(),
        cards.len() > 0,
    ensures
        melds::decomposable(melds::kinds(cards)) <==> exists|t: Seq<u8>|
            #[trigger] listed(cards, t) && melds::decomposable(melds::kinds(remaining(cards, t))),
{
    let k = melds::kinds(cards);
    if melds::decomposable(k) {
        melds::lemma_kinds_len(cards);
        let m = melds::lemma_decomposable_split(k);
        let t = lemma_coverage(cards, m);
        lemma_distinct_step(cards, t);
        assert(listed(cards, t) && melds::decomposable(melds::kinds(remaining(cards, t))));
    }
    if exists|t: Seq<u8>|
        #[trigger] listed(cards, t) && melds::decomposable(melds::kinds(remaining(cards, t))) {
        let t = choose|t: Seq<u8>|
            #[trigger] listed(cards, t) && melds::decomposable(melds::kinds(remaining(cards, t)));
        lemma_distinct_step(cards, t);
        melds::lemma_decomposable_extend(k, melds::kinds(t));
    }
}

/// Three distinct cards that form a listed group are a meld.
proof fn lemma_three(cards: Seq<u8>, t: Seq<u8>)
    requires
        cards.no_duplicates(),
        cards.len() == 3,
        listed(cards, t),
    ensures
        melds::decomposable(melds::kinds(remaining(cards, t))),
{
    lemma_remaining_facts(cards, t);
    lemma_distinct_step(cards, t);
    lemma_listed_facts(cards, t);
    melds::lemma_kinds_len(cards);
    melds::lemma_kinds_len(t);
    melds::lemma_kinds_len(remaining(cards, t));
    assert(melds::kinds(remaining(cards, t)) =~= Multiset::empty());
    melds::lemma_decomposable_empty();
}

impl MajiangOperation {
    /// Whether the cards split, without rest, into groups of three (pengs or chi runs).
    pub fn all_in_seq(cards: &Vec<u8>) -> (r: bool)
        requires
            cards.len() >= 3 ==> melds::ids_in_range(cards@),
        ensures
            r == spec_all_in_seq(cards@),
            cards@.no_duplicates() ==> r == melds::decomposable(melds::kinds(cards@)),
        decreases cards.len(),
    {
        if cards.len() == 0 {
            proof {
                melds::lemma_decomposable_empty();
                assert(melds::kinds(cards@) =~= Multiset::empty());
            }
            return true;
        }
        if cards.len() < 3 {
            proof {
                if melds::decomposable(melds::kinds(cards@)) {
                    melds::lemma_kinds_len(cards@);
                    melds::lemma_decomposable_len(melds::kinds(cards@));
                }
            }
            return false;
        }
        let seqs = match MajiangOperation::get_all_seq(cards) {
            None => {
                proof {
                    if cards@.no_duplicates() {
                        lemma_distinct_equiv(cards@);
                    }
                }
                return false;
            },
            Some(v) => v,
        };
        if cards.len() == 3 {
            proof {
                let t0 = choose|t: Seq<u8>| #[trigger] listed(cards@, t);
                if cards@.no_duplicates() {
                    lemma_three(cards@, t0);
                    lemma_distinct_equiv(cards@);
                }
            }
            return true;
        }
        let avl = dedup_cards(cards);
        let m = seqs.len();
        for i in 0..m
            invariant
                m == seqs.len(),
                avl@ == melds::dedup(cards@),
                cards.len() > 3,
                melds::ids_in_range(cards@),
                forall|t: Seq<u8>| #[trigger] hand::seqs_view(seqs@).contains(t) <==> listed(cards@, t),
                forall|k: int|
                    0 <= k < i ==> !melds::decomposable(
                        melds::kinds(remaining(cards@, #[trigger] hand::seqs_view(seqs@)[k])),
                    ),
        {
            let left = remove_cards(&avl, &seqs[i]);
            let ghost t = hand::seqs_view(seqs@)[i as int];
            proof {
                assert(seqs@[i as int]@ == t);
                assert(hand::seqs_view(seqs@).contains(t));
                lemma_remaining_facts(cards@, t);
                assert(left@ == remaining(cards@, t));
                assert forall|k: int| 0 <= k < left@.len() implies #[trigger] left@[k] < 252 by {
                    assert(remaining(cards@, t).contains(left@[k]));
                    let j = choose|j: int| 0 <= j < cards@.len() && cards@[j] == left@[k];
                    assert(cards@[j] < 252);
                }
            }
            if MajiangOperation::all_in_seq(&left) {
                proof {
                    assert(listed(cards@, t) && melds::decomposable(melds::kinds(remaining(cards@, t))));
                    if cards@.no_duplicates() {
                        lemma_distinct_equiv(cards@);
                    }
                }
                return true;
            }
        }
        proof {
            assert forall|t: Seq<u8>|
                #[trigger] listed(cards@, t) implies !melds::decomposable(
                    melds::kinds(remaining(cards@, t)),
                ) by {
                assert(hand::seqs_view(seqs@).contains(t));
                let k = choose|k: int| 0 <= k < hand::seqs_view(seqs@).len() && hand::seqs_view(seqs@)[k] == t;
            }
            if cards@.no_duplicates() {
                lemma_distinct_equiv(cards@);
            }
        }
        false
    }
}

/// Another card of the same kind as the card at index `i`.
fn partner_of(cards: &Vec<u8>, i: usize) -> (r: Option<usize>)
    requires
        i < cards.len(),
    ensures
        r matches Some(j) ==> j < cards.len() && j != i && model::kind(cards@[j as int])
            == model::kind(cards@[i as int]),
        r is None ==> forall|j: int|
            0 <= j < cards.len() && j != i ==> model::kind(#[trigger] cards@[j]) != model::kind(
                cards@[i as int],
            ),
{
    let n = cards.len();
    for j in 0..n
        invariant
            n == cards.len(),
            i < n,
            forall|j2: int|
                0 <= j2 < j && j2 != i ==> model::kind(#[trigger] cards@[j2]) != model::kind(
                    cards@[i as int],
                ),
    {
        if j != i && cards[j] / 4 == cards[i] / 4 {
            return Some(j);
        }
    }
    None
}

/// In a list without repeats, a kind held twice has a second card besides any given one.
proof fn lemma_second_of_kind(s: Seq<u8>, i: int)
    requires
        s.no_duplicates(),
        0 <= i < s.len(),
        melds::kinds(s).count(model::kind(s[i])) >= 2,
    ensures
        exists|j: int| 0 <= j < s.len() && j != i && model::kind(#[trigger] s[j]) == model::kind(s[i]),
{
    broadcast use vstd::seq_lib::group_filter_ensures;

    let k = model::kind(s[i]);
    melds::lemma_kinds_count(s, k);
    let f = operation::of_kind(s, k);
    melds::lemma_filter_no_dup(s, operation::kind_is(k));
    assert(operation::kind_is(k)(f[0]));
    assert(operation::kind_is(k)(f[1]));
    let x = if f[0] != s[i] {
        f[0]
    } else {
        f[1]
    };
    assert(f.contains(x));
    s.lemma_filter_contains_rev(operation::kind_is(k), x);
    let j = choose|j: int| 0 <= j < s.len() && s[j] == x;
    assert(j != i && model::kind(s[j]) == k);
}

impl MajiangOperation {
    /// Whether the distinct cards make a winning hand: a pair, and groups for the rest.
    pub fn check_win(cards: &Vec<u8>) -> (r: bool)
        requires
            melds::ids_in_range(cards@),
        ensures
            r == melds::is_winning(melds::kinds(melds::dedup(cards@))),
    {
        let on_hand = dedup_cards(cards);
        let ghost kk = melds::kinds(on_hand@);
        proof {
            melds::lemma_dedup(cards@);
        }
        let n = on_hand.len();
        for i in 0..n
            invariant
                n == on_hand.len(),
                on_hand@ == melds::dedup(cards@),
                on_hand@.no_duplicates(),
                kk == melds::kinds(on_hand@),
                forall|x: u8| on_hand@.contains(x) ==> cards@.contains(x),
                melds::ids_in_range(cards@),
                forall|i2: int|
                    0 <= i2 < i ==> !(kk.count(model::kind(#[trigger] on_hand@[i2])) >= 2
                        && melds::decomposable(kk.sub(melds::pair(model::kind(on_hand@[i2]))))),
        {
            let ghost k = model::kind(on_hand@[i as int]);
            match partner_of(&on_hand, i) {
                Some(j) => {
                    let pair = vec![on_hand[i], on_hand[j]];
                    let rest = remove_cards(&on_hand, &pair);
                    proof {
                        assert(pair@ =~= seq![on_hand@[i as int], on_hand@[j as int]]);
                        assert(on_hand@.contains(pair@[0]));
                        assert(on_hand@.contains(pair@[1]));
                        melds::lemma_kinds_remove_all(on_hand@, pair@);
                        reveal_with_fuel(melds::kinds, 3);
                        assert(pair@.drop_last() =~= seq![on_hand@[i as int]]);
                        assert(seq![on_hand@[i as int]].drop_last() =~= Seq::<u8>::empty());
                        assert(melds::kinds(pair@) =~= melds::pair(k));
                        assert(kk.count(k) >= 2);
                        assert forall|q: int| 0 <= q < rest@.len() implies #[trigger] rest@[q] < 252 by {
                            assert(rest@.contains(rest@[q]));
                            on_hand@.lemma_filter_contains_rev(melds::not_in(pair@), rest@[q]);
                            assert(cards@.contains(rest@[q]));
                            let c = choose|c: int| 0 <= c < cards@.len() && cards@[c] == rest@[q];
                            assert(cards@[c] < 252);
                        }
                    }
                    if MajiangOperation::all_in_seq(&rest) {
                        proof {
                            assert(kk.count(k) >= 2 && melds::decomposable(kk.sub(melds::pair(k))));
                        }
                        return true;
                    }
                },
                None => {
                    proof {
                        if kk.count(k) >= 2 {
                            lemma_second_of_kind(on_hand@, i as int);
                        }
                    }
                },
            }
        }
        proof {
            if melds::is_winning(kk) {
                let x = choose|x: int| #[trigger] kk.count(x) >= 2 && melds::decomposable(
                    kk.sub(melds::pair(x)),
                );
                let i2 = lemma_index_of_kind(on_hand@, x);
                assert(model::kind(on_hand@[i2]) == x);
            }
        }
        false
    }
}

/// Whether cards win depends only on which card ids they hold: lists with the same ids, in
/// any order and with any repeats, give the same answer.
pub proof fn lemma_check_win_same_cards(cards1: Seq<u8>, cards2: Seq<u8>)
    requires
        forall|x: u8| cards1.contains(x) <==> cards2.contains(x),
    ensures
        melds::is_winning(melds::kinds(melds::dedup(cards1))) == melds::is_winning(
            melds::kinds(melds::dedup(cards2)),
        ),
{
    melds::lemma_dedup(cards1);
    melds::lemma_dedup(cards2);
    assert forall|x: u8| melds::dedup(cards1).contains(x) <==> melds::dedup(cards2).contains(x) by {
        assert(melds::dedup(cards1).contains(x) <==> cards1.contains(x));
        assert(melds::dedup(cards2).contains(x) <==> cards2.contains(x));
    }
    melds::lemma_same_members_multiset(melds::dedup(cards1), melds::dedup(cards2));
    melds::lemma_kinds_perm(melds::dedup(cards1), melds::dedup(cards2));
}

} // verus!
