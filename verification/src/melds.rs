use vstd::prelude::*;
use vstd::multiset::Multiset;

use crate::model;
use crate::operation;

verus! {

broadcast use vstd::multiset::group_multiset_axioms;

/// The kinds of a list of cards, counted with multiplicity.
pub open spec fn kinds(s: Seq<u8>) -> Multiset<int>
    decreases s.len(),
{
    if s.len() == 0 {
        Multiset::empty()
    } else {
        kinds(s.drop_last()).insert(model::kind(s.last()))
    }
}

/// Three kinds, counted with multiplicity.
pub open spec fn triple(a: int, b: int, c: int) -> Multiset<int> {
    Multiset::empty().insert(a).insert(b).insert(c)
}

/// Two cards of kind `k`.
pub open spec fn pair(k: int) -> Multiset<int> {
    Multiset::empty().insert(k).insert(k)
}

/// Three cards of one kind.
pub open spec fn peng_of(a: int) -> Multiset<int> {
    triple(a, a, a)
}

/// Three consecutive kinds starting at `a`.
pub open spec fn run_of(a: int) -> Multiset<int> {
    triple(a, a + 1, a + 2)
}

/// A run starting at kind `a` can be claimed by a chi: one of its three cards, taken as the
/// target, admits the chi shape that the other two complete.
pub open spec fn run_formable(a: int) -> bool {
    ||| !model::is_bai_kind(a) && operation::chi_allowed_kind(a, 0)
    ||| !model::is_bai_kind(a + 1) && operation::chi_allowed_kind(a + 1, 1)
    ||| !model::is_bai_kind(a + 2) && operation::chi_allowed_kind(a + 2, 2)
}

/// A set of three kinds that forms a group: three of a kind, or a claimable run.
pub open spec fn is_meld(m: Multiset<int>) -> bool {
    ||| exists|a: int| #[trigger] peng_of(a) == m
    ||| exists|a: int| run_formable(a) && #[trigger] run_of(a) == m
}

/// The union of a list of groups.
pub open spec fn melds_sum(ms: Seq<Multiset<int>>) -> Multiset<int>
    decreases ms.len(),
{
    if ms.len() == 0 {
        Multiset::empty()
    } else {
        ms[0].add(melds_sum(ms.drop_first()))
    }
}

/// The kinds split, without rest, into groups.
pub open spec fn decomposable(k: Multiset<int>) -> bool {
    exists|ms: Seq<Multiset<int>>|
        (forall|i: int| 0 <= i < ms.len() ==> is_meld(#[trigger] ms[i])) && #[trigger] melds_sum(ms)
            == k
}

/// A winning hand: one pair of a kind, and groups for all the rest.
pub open spec fn is_winning(k: Multiset<int>) -> bool {
    exists|x: int| #[trigger] k.count(x) >= 2 && decomposable(k.sub(pair(x)))
}

/// The negation of a test on cards.
pub open spec fn neg(p: spec_fn(u8) -> bool) -> spec_fn(u8) -> bool {
    |c: u8| !p(c)
}

/// The test "occurs in `t`".
pub open spec fn in_seq(t: Seq<u8>) -> spec_fn(u8) -> bool {
    |c: u8| t.contains(c)
}

/// The test "does not occur in `t`".
pub open spec fn not_in(t: Seq<u8>) -> spec_fn(u8) -> bool {
    neg(in_seq(t))
}

/// The cards in their first occurrences, later copies left out.
pub open spec fn dedup(s: Seq<u8>) -> Seq<u8>
    decreases s.len(),
{
    if s.len() == 0 {
        Seq::empty()
    } else {
        let d = dedup(s.drop_last());
        if d.contains(s.last()) {
            d
        } else {
            d.push(s.last())
        }
    }
}

/// Cards in ascending order.
pub open spec fn sorted(s: Seq<u8>) -> bool {
    forall|i: int, j: int| 0 <= i < j < s.len() ==> s[i] <= s[j]
}

/// Every card id is low enough for the chi search to look one kind above it.
pub open spec fn ids_in_range(s: Seq<u8>) -> bool {
    forall|i: int| 0 <= i < s.len() ==> #[trigger] s[i] < 252
}

// ---------------------------------------------------------------------------------------------
// Decompositions
pub proof fn lemma_decomposable_empty()
    ensures
        decomposable(Multiset::empty()),
{
    let ms = Seq::<Multiset<int>>::empty();
    assert(melds_sum(ms) == Multiset::<int>::empty());
}

pub proof fn lemma_meld_len(m: Multiset<int>)
    requires
        is_meld(m),
    ensures
        m.len() == 3,
{
    if exists|a: int| #[trigger] peng_of(a) == m {
        let a = choose|a: int| #[trigger] peng_of(a) == m;
        assert(peng_of(a).len() == 3);
    } else {
        let a = choose|a: int| run_formable(a) && #[trigger] run_of(a) == m;
        assert(run_of(a).len() == 3);
    }
}

proof fn lemma_melds_sum_len(ms: Seq<Multiset<int>>)
    requires
        forall|i: int| 0 <= i < ms.len() ==> is_meld(#[trigger] ms[i]),
    ensures
        melds_sum(ms).len() == 3 * ms.len(),
    decreases ms.len(),
{
    if ms.len() > 0 {
        lemma_meld_len(ms[0]);
        assert forall|i: int| 0 <= i < ms.drop_first().len() implies is_meld(
            #[trigger] ms.drop_first()[i],
        ) by {
            assert(ms.drop_first()[i] == ms[i + 1]);
        }
        lemma_melds_sum_len(ms.drop_first());
    }
}

/// Groups of three make up a decomposable hand: its size is a multiple of three.
pub proof fn lemma_decomposable_len(k: Multiset<int>)
    requires
        decomposable(k),
    ensures
        k.len() % 3 == 0,
{
    let ms = choose|ms: Seq<Multiset<int>>|
        (forall|i: int| 0 <= i < ms.len() ==> is_meld(#[trigger] ms[i])) && #[trigger] melds_sum(ms)
            == k;
    lemma_melds_sum_len(ms);
}

/// A winning hand is a pair and groups of three: its size is two more than a multiple of
/// three.
pub proof fn lemma_winning_len(k: Multiset<int>)
    requires
        is_winning(k),
    ensures
        k.len() % 3 == 2,
{
    let x = choose|x: int| #[trigger] k.count(x) >= 2 && decomposable(k.sub(pair(x)));
    lemma_decomposable_len(k.sub(pair(x)));
    assert(pair(x).subset_of(k));
    assert(pair(x).len() == 2);
}

/// Adding a group to a decomposable hand keeps it decomposable.
pub proof fn lemma_decomposable_extend(k: Multiset<int>, m: Multiset<int>)
    requires
        is_meld(m),
        m.subset_of(k),
        decomposable(k.sub(m)),
    ensures
        decomposable(k),
{
    let ms = choose|ms: Seq<Multiset<int>>|
        (forall|i: int| 0 <= i < ms.len() ==> is_meld(#[trigger] ms[i])) && #[trigger] melds_sum(ms)
            == k.sub(m);
    let ms2 = seq![m] + ms;
    assert(ms2.drop_first() =~= ms);
    assert(melds_sum(ms2) =~= k);
    assert forall|i: int| 0 <= i < ms2.len() implies is_meld(#[trigger] ms2[i]) by {
        if i > 0 {
            assert(ms2[i] == ms[i - 1]);
        }
    }
}

/// A nonempty decomposable hand has a first group, and the rest is decomposable.
pub proof fn lemma_decomposable_split(k: Multiset<int>) -> (m: Multiset<int>)
    requires
        decomposable(k),
        k.len() > 0,
    ensures
        is_meld(m),
        m.subset_of(k),
        decomposable(k.sub(m)),
{
    let ms = choose|ms: Seq<Multiset<int>>|
        (forall|i: int| 0 <= i < ms.len() ==> is_meld(#[trigger] ms[i])) && #[trigger] melds_sum(ms)
            == k;
    if ms.len() == 0 {
        assert(false);
    }
    let m = ms[0];
    let rest = ms.drop_first();
    assert forall|i: int| 0 <= i < rest.len() implies is_meld(#[trigger] rest[i]) by {
        assert(rest[i] == ms[i + 1]);
    }
    assert(k.sub(m) =~= melds_sum(rest));
    m
}

// ---------------------------------------------------------------------------------------------
// Kinds of card lists
pub proof fn lemma_kinds_len(s: Seq<u8>)
    ensures
        kinds(s).len() == s.len(),
    decreases s.len(),
{
    if s.len() > 0 {
        lemma_kinds_len(s.drop_last());
    }
}

pub proof fn lemma_kinds_add(a: Seq<u8>, b: Seq<u8>)
    ensures
        kinds(a + b) =~= kinds(a).add(kinds(b)),
    decreases b.len(),
{
    if b.len() == 0 {
        assert(a + b =~= a);
    } else {
        assert((a + b).drop_last() =~= a + b.drop_last());
        lemma_kinds_add(a, b.drop_last());
    }
}

/// The count of a kind is the number of cards of that kind.
pub proof fn lemma_kinds_count(s: Seq<u8>, k: int)
    ensures
        kinds(s).count(k) == operation::of_kind(s, k).len(),
    decreases s.len(),
{
    if s.len() > 0 {
        lemma_kinds_count(s.drop_last(), k);
        assert(s =~= s.drop_last().push(s.last()));
        s.drop_last().lemma_filter_push(s.last(), operation::kind_is(k));
    } else {
        reveal(Seq::filter);
    }
}

pub proof fn lemma_kinds_remove(s: Seq<u8>, i: int)
    requires
        0 <= i < s.len(),
    ensures
        kinds(s) =~= kinds(s.remove(i)).insert(model::kind(s[i])),
    decreases s.len(),
{
    if i == s.len() - 1 {
        assert(s.remove(i) =~= s.drop_last());
    } else {
        let dl = s.drop_last();
        assert(s.remove(i).drop_last() =~= dl.remove(i));
        assert(s.remove(i).last() == s.last());
        lemma_kinds_remove(dl, i);
    }
}

/// Lists with the same cards have the same kinds.
pub proof fn lemma_kinds_perm(s1: Seq<u8>, s2: Seq<u8>)
    requires
        s1.to_multiset() == s2.to_multiset(),
    ensures
        kinds(s1) == kinds(s2),
    decreases s1.len(),
{
    broadcast use vstd::seq_lib::group_to_multiset_ensures;

    if s1.len() == 0 {
        vstd::seq_lib::to_multiset_len(s1);
        vstd::seq_lib::to_multiset_len(s2);
        assert(s2.len() == 0);
        assert(s1 =~= s2);
    } else {
        let x = s1.last();
        let dl = s1.drop_last();
        assert(s1 =~= dl.push(x));
        assert(s2.to_multiset().count(x) > 0);
        assert(s2.contains(x));
        let i = choose|i: int| 0 <= i < s2.len() && s2[i] == x;
        assert(s2.remove(i).to_multiset() =~= dl.to_multiset());
        lemma_kinds_perm(dl, s2.remove(i));
        lemma_kinds_remove(s2, i);
    }
}

pub proof fn lemma_kinds_filter_split(s: Seq<u8>, p: spec_fn(u8) -> bool)
    ensures
        kinds(s) =~= kinds(s.filter(p)).add(kinds(s.filter(neg(p)))),
    decreases s.len(),
{
    if s.len() == 0 {
        reveal(Seq::filter);
    } else {
        let dl = s.drop_last();
        let x = s.last();
        lemma_kinds_filter_split(dl, p);
        assert(s =~= dl.push(x));
        dl.lemma_filter_push(x, p);
        dl.lemma_filter_push(x, neg(p));
        let f = dl.filter(p);
        let g = dl.filter(neg(p));
        if p(x) {
            assert(f.push(x).drop_last() =~= f);
            assert(kinds(s.filter(p)) =~= kinds(f).insert(model::kind(x)));
            assert(kinds(s.filter(neg(p))) == kinds(g));
        } else {
            assert(g.push(x).drop_last() =~= g);
            assert(kinds(s.filter(neg(p))) =~= kinds(g).insert(model::kind(x)));
            assert(kinds(s.filter(p)) == kinds(f));
        }
    }
}

pub proof fn lemma_filter_no_dup(s: Seq<u8>, p: spec_fn(u8) -> bool)
    requires
        s.no_duplicates(),
    ensures
        s.filter(p).no_duplicates(),
    decreases s.len(),
{
    if s.len() == 0 {
        reveal(Seq::filter);
    } else {
        let dl = s.drop_last();
        assert(s =~= dl.push(s.last()));
        lemma_filter_no_dup(dl, p);
        dl.lemma_filter_push(s.last(), p);
        if p(s.last()) {
            let f = dl.filter(p);
            if f.contains(s.last()) {
                dl.lemma_filter_contains_rev(p, s.last());
                let j = choose|j: int| 0 <= j < dl.len() && dl[j] == s.last();
                assert(s[j] == s[s.len() - 1]);
            }
            assert forall|a: int, b: int|
                0 <= a < b < f.push(s.last()).len() implies f.push(s.last())[a] != f.push(
                s.last(),
            )[b] by {
                if b == f.len() {
                    assert(f.contains(f[a]));
                }
            }
        }
    }
}

/// Two lists without repeats and with the same members hold the same cards.
pub proof fn lemma_same_members_multiset(a: Seq<u8>, b: Seq<u8>)
    requires
        a.no_duplicates(),
        b.no_duplicates(),
        forall|x: u8| a.contains(x) <==> b.contains(x),
    ensures
        a.to_multiset() == b.to_multiset(),
{
    broadcast use vstd::seq_lib::group_to_multiset_ensures;

    a.lemma_multiset_has_no_duplicates();
    b.lemma_multiset_has_no_duplicates();
    assert(a.to_multiset() =~= b.to_multiset());
}

/// Taking away the cards of `t` from a list that holds them takes away their kinds.
pub proof fn lemma_kinds_remove_all(s: Seq<u8>, t: Seq<u8>)
    requires
        s.no_duplicates(),
        t.no_duplicates(),
        forall|i: int| 0 <= i < t.len() ==> s.contains(#[trigger] t[i]),
    ensures
        kinds(s.filter(not_in(t))) =~= kinds(s).sub(kinds(t)),
        kinds(t).subset_of(kinds(s)),
        s.filter(not_in(t)).len() == s.len() - t.len(),
        s.filter(not_in(t)).no_duplicates(),
{
    broadcast use Seq::lemma_filter_contains_rev;
    broadcast use vstd::seq_lib::group_filter_ensures;

    let a = s.filter(in_seq(t));
    lemma_filter_no_dup(s, in_seq(t));
    lemma_filter_no_dup(s, not_in(t));
    assert forall|x: u8| a.contains(x) <==> t.contains(x) by {
        if t.contains(x) {
            let j = choose|j: int| 0 <= j < t.len() && t[j] == x;
            assert(s.contains(t[j]));
            let i = choose|i: int| 0 <= i < s.len() && s[i] == x;
            assert(a.contains(s[i]));
        }
        if a.contains(x) {
            let i = choose|i: int| 0 <= i < a.len() && a[i] == x;
            assert(in_seq(t)(a[i]));
        }
    }
    lemma_same_members_multiset(a, t);
    lemma_kinds_perm(a, t);
    lemma_kinds_filter_split(s, in_seq(t));
    lemma_kinds_len(s);
    lemma_kinds_len(t);
    lemma_kinds_len(s.filter(not_in(t)));
}

// ---------------------------------------------------------------------------------------------
// First occurrences
pub proof fn lemma_dedup(s: Seq<u8>)
    ensures
        dedup(s).no_duplicates(),
        forall|x: u8| dedup(s).contains(x) <==> s.contains(x),
        dedup(s).len() <= s.len(),
        s.no_duplicates() ==> dedup(s) == s,
    decreases s.len(),
{
    if s.len() > 0 {
        let dl = s.drop_last();
        lemma_dedup(dl);
        assert(s =~= dl.push(s.last()));
        let d = dedup(dl);
        if !d.contains(s.last()) {
            assert forall|a: int, b: int|
                0 <= a < b < d.push(s.last()).len() implies d.push(s.last())[a] != d.push(
                s.last(),
            )[b] by {
                if b == d.len() {
                    assert(d.contains(d[a]));
                }
            }
        }
        assert forall|x: u8| dedup(s).contains(x) <==> s.contains(x) by {
            if s.contains(x) && x != s.last() {
                let i = choose|i: int| 0 <= i < s.len() && s[i] == x;
                assert(dl[i] == x);
                assert(dl.contains(x));
                assert(d.contains(x));
                let k = choose|k: int| 0 <= k < d.len() && d[k] == x;
                if !d.contains(s.last()) {
                    assert(d.push(s.last())[k] == x);
                }
            }
            if x == s.last() {
                if !d.contains(s.last()) {
                    assert(d.push(s.last())[d.len() as int] == x);
                }
                assert(s[s.len() - 1] == x);
            }
            if dedup(s).contains(x) && x != s.last() {
                if !d.contains(s.last()) {
                    let k = choose|k: int| 0 <= k < d.push(s.last()).len() && d.push(s.last())[k] == x;
                    assert(d[k] == x);
                }
                assert(d.contains(x));
                assert(dl.contains(x));
                let i = choose|i: int| 0 <= i < dl.len() && dl[i] == x;
                assert(s[i] == x);
            }
        }
        if s.no_duplicates() {
            assert(dl.no_duplicates());
            if dl.contains(s.last()) {
                let i = choose|i: int| 0 <= i < dl.len() && dl[i] == s.last();
                assert(s[i] == s[s.len() - 1]);
            }
        }
    }
}

} // verus!
