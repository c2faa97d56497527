//! Which of a list are picked out of it, and in what order the picked stand.

use vstd::prelude::*;

use crate::rank::{before, kept, law_ranking_exists, law_ranking_lists_every_row, ranking};

verus! {

/// Whether `at` lists, from the first on, the places below `n` that are wanted,
/// and no others.
pub open spec fn picks(at: Seq<int>, n: nat, wanted: spec_fn(int) -> bool) -> bool {
    &&& forall|k: int| 0 <= k < at.len() ==> 0 <= #[trigger] at[k] < n && wanted(at[k])
    &&& forall|i: int, j: int| 0 <= i < j < at.len() ==> #[trigger] at[i] < #[trigger] at[j]
    &&& forall|r: int| 0 <= r < n && wanted(r) ==> #[trigger] at.contains(r)
}

/// The places below `n` that are wanted.
pub open spec fn places_where(n: nat, wanted: spec_fn(int) -> bool) -> Seq<int>
    decreases n,
{
    if n == 0 {
        seq![]
    } else if wanted(n - 1) {
        places_where((n - 1) as nat, wanted).push(n - 1)
    } else {
        places_where((n - 1) as nat, wanted)
    }
}

pub proof fn lemma_places_where(n: nat, wanted: spec_fn(int) -> bool)
    ensures
        picks(places_where(n, wanted), n, wanted),
    decreases n,
{
    if n > 0 {
        let m = (n - 1) as nat;
        lemma_places_where(m, wanted);
        let a = places_where(m, wanted);
        let b = places_where(n, wanted);
        assert forall|k: int| 0 <= k < b.len() implies 0 <= #[trigger] b[k] < n && wanted(
            b[k],
        ) by {
            if k < a.len() {
                assert(b[k] == a[k]);
            }
        }
        assert forall|i: int, j: int| 0 <= i < j < b.len() implies #[trigger] b[i]
            < #[trigger] b[j] by {
            assert(b[i] == a[i]);
            if j < a.len() {
                assert(b[j] == a[j]);
            }
        }
        assert forall|r: int| 0 <= r < n && wanted(r) implies #[trigger] b.contains(r) by {
            if r < m {
                assert(a.contains(r));
                let k = choose|k: int| 0 <= k < a.len() && a[k] == r;
                assert(b[k] == r);
            } else {
                assert(b[a.len() as int] == r);
            }
        }
    }
}

/// Whether the row at `a` stands before that at `b`: it has the larger key, or
/// the same key and came first.
pub open spec fn stands_before(key: spec_fn(int) -> u64, a: int, b: int) -> bool {
    key(a) > key(b) || (key(a) == key(b) && a < b)
}

/// Whether `at` lists the top of the places below `n` that are wanted: none
/// twice, the larger key first and of equal keys the one that came first, and
/// none left out but where the limit is reached, by such as stand behind all
/// that are listed.
pub open spec fn tops(
    at: Seq<int>,
    n: nat,
    wanted: spec_fn(int) -> bool,
    key: spec_fn(int) -> u64,
    limit: Option<usize>,
) -> bool {
    &&& at.no_duplicates()
    &&& forall|k: int| 0 <= k < at.len() ==> 0 <= #[trigger] at[k] < n && wanted(at[k])
    &&& forall|i: int, j: int|
        0 <= i < j < at.len() ==> stands_before(key, #[trigger] at[i], #[trigger] at[j])
    &&& limit matches Some(l) ==> at.len() <= l
    &&& forall|r: int|
        0 <= r < n && wanted(r) && !(#[trigger] at.contains(r)) ==> {
            &&& limit matches Some(l) && at.len() == l
            &&& forall|k: int| 0 <= k < at.len() ==> stands_before(key, #[trigger] at[k], r)
        }
}

/// The places of the first rows of a ranking.
pub open spec fn ranked_places(shown: Seq<int>, keys: Seq<u64>, limit: Option<usize>) -> Seq<int> {
    Seq::new(kept(keys.len(), limit), |i: int| shown[ranking(keys)[i]])
}

pub proof fn lemma_ranked_places(
    shown: Seq<int>,
    n: nat,
    wanted: spec_fn(int) -> bool,
    key: spec_fn(int) -> u64,
    limit: Option<usize>,
)
    requires
        picks(shown, n, wanted),
    ensures
        tops(
            ranked_places(shown, Seq::new(shown.len(), |i: int| key(shown[i])), limit),
            n,
            wanted,
            key,
            limit,
        ),
{
    let keys = Seq::new(shown.len(), |i: int| key(shown[i]));
    let order = ranking(keys);
    let at = ranked_places(shown, keys, limit);
    law_ranking_exists(keys);
    law_ranking_lists_every_row(keys, order);
    assert forall|i: int, j: int| 0 <= i < j < order.len() implies stands_before(
        key,
        shown[#[trigger] order[i]],
        shown[#[trigger] order[j]],
    ) by {
        assert(before(keys, order[i], order[j]));
    }
    assert forall|i: int, j: int| 0 <= i < j < at.len() implies stands_before(
        key,
        #[trigger] at[i],
        #[trigger] at[j],
    ) by {
        assert(at[i] == shown[order[i]] && at[j] == shown[order[j]]);
    }
    assert forall|k: int| 0 <= k < at.len() implies 0 <= #[trigger] at[k] < n && wanted(at[k]) by {
        assert(0 <= order[k] < shown.len());
        assert(at[k] == shown[order[k]]);
    }
    assert forall|i: int, j: int|
        0 <= i < at.len() && 0 <= j < at.len() && i != j implies at[i] != at[j] by {
        if i < j {
            assert(stands_before(key, at[i], at[j]));
        } else {
            assert(stands_before(key, at[j], at[i]));
        }
    }
    assert forall|r: int| 0 <= r < n && wanted(r) && !(#[trigger] at.contains(r)) implies {
        &&& limit matches Some(l) && at.len() == l
        &&& forall|k: int| 0 <= k < at.len() ==> stands_before(key, #[trigger] at[k], r)
    } by {
        assert(shown.contains(r));
        let s = choose|s: int| 0 <= s < shown.len() && shown[s] == r;
        assert(order.contains(s));
        let p = choose|p: int| 0 <= p < order.len() && order[p] == s;
        assert(p >= at.len()) by {
            if p < at.len() {
                assert(at[p] == r);
            }
        }
        assert forall|k: int| 0 <= k < at.len() implies stands_before(
            key,
            #[trigger] at[k],
            r,
        ) by {
            assert(at[k] == shown[order[k]]);
            assert(stands_before(key, shown[order[k]], shown[order[p]]));
        }
    }
}

} // verus!
