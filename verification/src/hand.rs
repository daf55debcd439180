use vstd::prelude::*;

use crate::melds;

verus! {

broadcast use vstd::multiset::group_multiset_axioms;

/// The values of a list of card lists.
pub open spec fn seqs_view(v: Seq<Vec<u8>>) -> Seq<Seq<u8>> {
    v.map_values(|x: Vec<u8>| x@)
}

/// Sorts card ids in ascending order.
pub fn sort_cards(v: &mut Vec<u8>)
    ensures
        final(v)@.to_multiset() == old(v)@.to_multiset(),
        melds::sorted(final(v)@),
{
    broadcast use vstd::seq_lib::group_to_multiset_ensures;

    let n = v.len();
    if n == 0 {
        return;
    }
    let mut i: usize = 1;
    while i < n
        invariant
            1 <= i <= n,
            v.len() == n,
            v@.to_multiset() == old(v)@.to_multiset(),
            forall|a: int, b: int| 0 <= a < b < i ==> v@[a] <= v@[b],
        decreases n - i,
    {
        let mut j: usize = i;
        while j > 0 && v[j - 1] > v[j]
            invariant
                0 <= j <= i < n,
                v.len() == n,
                v@.to_multiset() == old(v)@.to_multiset(),
                forall|a: int, b: int| 0 <= a < b <= i && a != j && b != j ==> v@[a] <= v@[b],
                forall|b: int| j < b <= i ==> v@[j as int] <= v@[b],
            decreases j,
        {
            let x = v[j];
            let y = v[j - 1];
            let ghost before = v@;
            v.set(j - 1, x);
            v.set(j, y);
            proof {
                let s1 = before.update(j - 1, x);
                assert(v@ =~= s1.update(j as int, y));
                vstd::seq_lib::to_multiset_update(before, j - 1, x);
                vstd::seq_lib::to_multiset_update(s1, j as int, y);
                let m = before.to_multiset();
                assert(m.count(y) > 0) by {
                    assert(before[j - 1] == y);
                    vstd::seq_lib::to_multiset_contains(before, y);
                }
                assert forall|z: u8| v@.to_multiset().count(z) == m.count(z) by {
                    if z == x {
                    } else if z == y {
                    } else {
                    }
                }
                assert(v@.to_multiset() =~= m);
            }
            j = j - 1;
        }
        proof {
            assert forall|a: int, b: int| 0 <= a < b <= i implies v@[a] <= v@[b] by {
                if b == j && a < j {
                    assert(v@[a] <= v@[j - 1]);
                }
            }
        }
        i = i + 1;
    }
}

/// Whether two card lists are equal.
pub fn same_cards(a: &Vec<u8>, b: &Vec<u8>) -> (r: bool)
    ensures
        r == (a@ == b@),
{
    if a.len() != b.len() {
        return false;
    }
    let n = a.len();
    for i in 0..n
        invariant
            n == a.len(),
            n == b.len(),
            forall|k: int| 0 <= k < i ==> a@[k] == b@[k],
    {
        if a[i] != b[i] {
            return false;
        }
    }
    assert(a@ =~= b@);
    true
}

/// Whether `x` occurs in `s`.
pub fn contains_card(s: &Vec<u8>, x: u8) -> (r: bool)
    ensures
        r == s@.contains(x),
{
    let n = s.len();
    for i in 0..n
        invariant
            n == s.len(),
            forall|k: int| 0 <= k < i ==> s@[k] != x,
    {
        if s[i] == x {
            return true;
        }
    }
    false
}

/// The cards of `s` in their first occurrences.
pub fn dedup_cards(s: &Vec<u8>) -> (r: Vec<u8>)
    ensures
        r@ == melds::dedup(s@),
{
    let n = s.len();
    let mut r: Vec<u8> = Vec::new();
    for i in 0..n
        invariant
            n == s.len(),
            r@ == melds::dedup(s@.take(i as int)),
    {
        let ghost t = s@.take(i + 1);
        assert(t.drop_last() =~= s@.take(i as int));
        if !contains_card(&r, s[i]) {
            r.push(s[i]);
        }
    }
    assert(s@.take(n as int) =~= s@);
    r
}

/// The cards of `s` that do not occur in `t`, in order.
pub fn remove_cards(s: &Vec<u8>, t: &Vec<u8>) -> (r: Vec<u8>)
    ensures
        r@ == s@.filter(melds::not_in(t@)),
{
    let n = s.len();
    let mut r: Vec<u8> = Vec::new();
    for i in 0..n
        invariant
            n == s.len(),
            r@ == s@.take(i as int).filter(melds::not_in(t@)),
    {
        proof {
            let p = s@.take(i as int);
            assert(s@.take(i + 1) =~= p.push(s@[i as int]));
            p.lemma_filter_push(s@[i as int], melds::not_in(t@));
        }
        if !contains_card(t, s[i]) {
            r.push(s[i]);
        }
    }
    assert(s@.take(n as int) =~= s@);
    r
}

/// Adds a card list to a list of distinct card lists, unless it is already there.
pub fn add_group(groups: &mut Vec<Vec<u8>>, g: Vec<u8>)
    requires
        seqs_view(old(groups)@).no_duplicates(),
    ensures
        seqs_view(final(groups)@).no_duplicates(),
        forall|t: Seq<u8>|
            #[trigger] seqs_view(final(groups)@).contains(t) <==> seqs_view(old(groups)@).contains(t)
                || t == g@,
{
    let n = groups.len();
    let mut i: usize = 0;
    while i < n
        invariant
            n == groups.len(),
            0 <= i <= n,
            groups@ == old(groups)@,
            seqs_view(old(groups)@).no_duplicates(),
            forall|k: int| 0 <= k < i ==> groups@[k]@ != g@,
        decreases n - i,
    {
        if same_cards(&groups[i], &g) {
            proof {
                assert(seqs_view(groups@)[i as int] == g@);
                assert forall|t: Seq<u8>|
                    #[trigger] seqs_view(groups@).contains(t) <==> seqs_view(old(groups)@).contains(t)
                        || t == g@ by {
                    if t == g@ {
                        assert(seqs_view(groups@)[i as int] == t);
                    }
                }
            }
            return;
        }
        i = i + 1;
    }
    let ghost old_view = seqs_view(groups@);
    groups.push(g);
    proof {
        assert(seqs_view(groups@) =~= old_view.push(g@));
        assert(!old_view.contains(g@)) by {
            if old_view.contains(g@) {
                let k = choose|k: int| 0 <= k < old_view.len() && old_view[k] == g@;
                assert(groups@[k]@ == g@);
            }
        }
        assert forall|a: int, b: int|
            0 <= a < b < seqs_view(groups@).len() implies seqs_view(groups@)[a] != seqs_view(
            groups@,
        )[b] by {
            if b == n {
                assert(old_view.contains(old_view[a]));
            }
        }
        assert forall|t: Seq<u8>|
            #[trigger] seqs_view(groups@).contains(t) <==> old_view.contains(t) || t == g@ by {
            if t == g@ {
                assert(seqs_view(groups@)[n as int] == t);
            }
            if old_view.contains(t) {
                let k = choose|k: int| 0 <= k < old_view.len() && old_view[k] == t;
                assert(seqs_view(groups@)[k] == t);
            }
            if seqs_view(groups@).contains(t) && t != g@ {
                let k = choose|k: int| 0 <= k < seqs_view(groups@).len() && seqs_view(groups@)[k] == t;
                assert(old_view[k] == t);
            }
        }
    }
}

} // verus!
