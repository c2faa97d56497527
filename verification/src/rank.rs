//! Stable ranking: the order in which rows stand once they are sorted by their
//! keys, with equal keys left in the order in which they came.

use vstd::prelude::*;
use vstd::set_lib::*;

use crate::text::to_chars;

verus! {

/// The order of the keys that rows are sorted by.
pub trait Key: Sized {
    /// Whether a row with this key may stand before a row with the key `other`.
    spec fn leads(self, other: Self) -> bool;

    proof fn leads_total(a: Self, b: Self)
        ensures
            a.leads(b) || b.leads(a),
    ;

    proof fn leads_transitive(a: Self, b: Self, c: Self)
        requires
            a.leads(b),
            b.leads(c),
        ensures
            a.leads(c),
    ;
}

/// A value that rows can be sorted by.
pub trait RankKey: Sized {
    type K: Key;

    /// The key that the value stands for.
    spec fn key(&self) -> Self::K;

    /// Whether a row with this key may stand before a row with the key `other`.
    fn may_lead(&self, other: &Self) -> (r: bool)
        ensures
            r == self.key().leads(other.key()),
    ;
}

/// Numbers rank from the largest down.
impl Key for u64 {
    open spec fn leads(self, other: Self) -> bool {
        self >= other
    }

    proof fn leads_total(a: Self, b: Self) {
    }

    proof fn leads_transitive(a: Self, b: Self, c: Self) {
    }
}

impl RankKey for u64 {
    type K = u64;

    open spec fn key(&self) -> u64 {
        *self
    }

    fn may_lead(&self, other: &Self) -> (r: bool) {
        *self >= *other
    }
}

/// Whether `a` comes no later than `b` in the order of words: by the first
/// character in which they differ, a word before its continuations.
pub open spec fn word_le(a: Seq<char>, b: Seq<char>) -> bool
    decreases a.len(),
{
    if a.len() == 0 {
        true
    } else if b.len() == 0 {
        false
    } else if a[0] != b[0] {
        a[0] < b[0]
    } else {
        word_le(a.skip(1), b.skip(1))
    }
}

/// Any two words can be put in order.
pub proof fn lemma_word_le_total(a: Seq<char>, b: Seq<char>)
    ensures
        word_le(a, b) || word_le(b, a),
    decreases a.len(),
{
    if a.len() > 0 && b.len() > 0 {
        lemma_word_le_total(a.skip(1), b.skip(1));
    }
}

/// The order of words is transitive.
pub proof fn lemma_word_le_transitive(a: Seq<char>, b: Seq<char>, c: Seq<char>)
    requires
        word_le(a, b),
        word_le(b, c),
    ensures
        word_le(a, c),
    decreases a.len(),
{
    if a.len() > 0 && b.len() > 0 && c.len() > 0 && a[0] == b[0] && b[0] == c[0] {
        lemma_word_le_transitive(a.skip(1), b.skip(1), c.skip(1));
    }
}

/// Only equal words come no later than each other.
pub proof fn lemma_word_le_antisymmetric(a: Seq<char>, b: Seq<char>)
    requires
        word_le(a, b),
        word_le(b, a),
    ensures
        a == b,
    decreases a.len(),
{
    if a.len() == 0 || b.len() == 0 {
        assert(a =~= b);
    } else {
        lemma_word_le_antisymmetric(a.skip(1), b.skip(1));
        assert(a =~= seq![a[0]] + a.skip(1));
        assert(b =~= seq![b[0]] + b.skip(1));
    }
}

/// Words rank in their order.
impl Key for Seq<char> {
    open spec fn leads(self, other: Self) -> bool {
        word_le(self, other)
    }

    proof fn leads_total(a: Self, b: Self) {
        lemma_word_le_total(a, b);
    }

    proof fn leads_transitive(a: Self, b: Self, c: Self) {
        lemma_word_le_transitive(a, b, c);
    }
}

impl RankKey for Vec<char> {
    type K = Seq<char>;

    open spec fn key(&self) -> Seq<char> {
        self@
    }

    fn may_lead(&self, other: &Self) -> (r: bool) {
        let mut i: usize = 0;
        assert(self@.skip(0) =~= self@);
        assert(other@.skip(0) =~= other@);
        while i < self.len()
            invariant
                i <= self@.len(),
                i <= other@.len(),
                word_le(self@, other@) == word_le(self@.skip(i as int), other@.skip(i as int)),
            decreases self.len() - i,
        {
            if i >= other.len() {
                return false;
            }
            if self[i] != other[i] {
                return self[i] < other[i];
            }
            assert(self@.skip(i as int).skip(1) =~= self@.skip(i + 1));
            assert(other@.skip(i as int).skip(1) =~= other@.skip(i + 1));
            i = i + 1;
        }
        true
    }
}

/// The keys that a list of values stands for.
pub open spec fn keys_of<R: RankKey>(v: Seq<R>) -> Seq<R::K> {
    Seq::new(v.len(), |i: int| v[i].key())
}

/// Whether row `a` stands before row `b`: its key leads, and where the keys are
/// equal it came first.
pub open spec fn before<K: Key>(keys: Seq<K>, a: int, b: int) -> bool {
    keys[a].leads(keys[b]) && (keys[b].leads(keys[a]) ==> a < b)
}

/// Whether `order` lists the rows in the order in which they stand.
pub open spec fn is_ranking<K: Key>(keys: Seq<K>, order: Seq<int>) -> bool {
    &&& order.len() == keys.len()
    &&& forall|i: int| 0 <= i < order.len() ==> 0 <= #[trigger] order[i] < keys.len()
    &&& forall|i: int, j: int|
        0 <= i < j < order.len() ==> before(keys, #[trigger] order[i], #[trigger] order[j])
}

/// The order in which the rows with these keys stand.
pub open spec fn ranking<K: Key>(keys: Seq<K>) -> Seq<int> {
    choose|order: Seq<int>| is_ranking(keys, order)
}

/// Rows are in a strict order.
pub proof fn lemma_before<K: Key>(keys: Seq<K>, a: int, b: int, c: int)
    ensures
        !before(keys, a, a),
        !(before(keys, a, b) && before(keys, b, a)),
        before(keys, a, b) && before(keys, b, c) ==> before(keys, a, c),
        a != b ==> before(keys, a, b) || before(keys, b, a),
{
    K::leads_total(keys[a], keys[a]);
    K::leads_total(keys[a], keys[b]);
    if before(keys, a, b) && before(keys, b, c) {
        K::leads_transitive(keys[a], keys[b], keys[c]);
        if keys[c].leads(keys[a]) {
            K::leads_transitive(keys[c], keys[a], keys[b]);
            K::leads_transitive(keys[b], keys[c], keys[a]);
        }
    }
}

/// A ranking lists every row exactly once.
pub proof fn law_ranking_lists_every_row<K: Key>(keys: Seq<K>, order: Seq<int>)
    requires
        is_ranking(keys, order),
    ensures
        order.no_duplicates(),
        forall|r: int| 0 <= r < keys.len() ==> #[trigger] order.contains(r),
{
    assert forall|i: int, j: int|
        0 <= i < order.len() && 0 <= j < order.len() && i != j implies order[i] != order[j] by {
        lemma_before(keys, order[i], order[j], order[i]);
        if i < j {
            assert(before(keys, order[i], order[j]));
        } else {
            assert(before(keys, order[j], order[i]));
        }
    }
    order.unique_seq_to_set();
    lemma_int_range(0, keys.len() as int);
    assert(order.to_set().subset_of(set_int_range(0, keys.len() as int)));
    lemma_len_subset(order.to_set(), set_int_range(0, keys.len() as int));
    lemma_subset_equality(order.to_set(), set_int_range(0, keys.len() as int));
    assert forall|r: int| 0 <= r < keys.len() implies #[trigger] order.contains(r) by {
        assert(set_int_range(0, keys.len() as int).contains(r));
        assert(order.to_set().contains(r));
    }
}

/// The keys alone decide the ranking.
pub proof fn law_ranking_is_unique<K: Key>(keys: Seq<K>, a: Seq<int>, b: Seq<int>)
    requires
        is_ranking(keys, a),
        is_ranking(keys, b),
    ensures
        a == b,
{
    law_ranking_lists_every_row(keys, a);
    law_ranking_lists_every_row(keys, b);
    lemma_same_prefix(keys, a, b, keys.len() as int);
    assert(a =~= b);
}

proof fn lemma_same_prefix<K: Key>(keys: Seq<K>, a: Seq<int>, b: Seq<int>, k: int)
    requires
        is_ranking(keys, a),
        is_ranking(keys, b),
        a.no_duplicates(),
        b.no_duplicates(),
        forall|r: int| 0 <= r < keys.len() ==> #[trigger] a.contains(r),
        forall|r: int| 0 <= r < keys.len() ==> #[trigger] b.contains(r),
        0 <= k <= keys.len(),
    ensures
        forall|i: int| 0 <= i < k ==> a[i] == b[i],
    decreases k,
{
    if k > 0 {
        lemma_same_prefix(keys, a, b, k - 1);
        let i = k - 1;
        if a[i] != b[i] {
            assert(b.contains(a[i]) && a.contains(b[i]));
            let m = choose|m: int| 0 <= m < b.len() && b[m] == a[i];
            let n = choose|n: int| 0 <= n < a.len() && a[n] == b[i];
            assert(m > i) by {
                if m < i {
                    assert(a[m] == b[m]);
                }
            }
            assert(n > i) by {
                if n < i {
                    assert(a[n] == b[n]);
                }
            }
            assert(before(keys, b[i], b[m]));
            assert(before(keys, a[i], a[n]));
            lemma_before(keys, a[i], b[i], a[i]);
        }
    }
}

/// How many rows of `order` stand before a row that came after all of them.
spec fn place_of<K: Key>(keys: Seq<K>, order: Seq<int>, row: int) -> nat
    decreases order.len(),
{
    if order.len() == 0 {
        0
    } else if before(keys, order.last(), row) {
        order.len()
    } else {
        place_of(keys, order.drop_last(), row)
    }
}

proof fn lemma_place_of<K: Key>(keys: Seq<K>, order: Seq<int>, row: int)
    requires
        forall|i: int, j: int|
            0 <= i < j < order.len() ==> before(keys, #[trigger] order[i], #[trigger] order[j]),
        forall|i: int| 0 <= i < order.len() ==> #[trigger] order[i] != row,
    ensures
        place_of(keys, order, row) <= order.len(),
        forall|i: int|
            0 <= i < place_of(keys, order, row) ==> before(keys, #[trigger] order[i], row),
        forall|i: int|
            place_of(keys, order, row) <= i < order.len() ==> before(keys, row, #[trigger] order[i]),
    decreases order.len(),
{
    if order.len() > 0 {
        let last = order.last();
        if before(keys, last, row) {
            assert forall|i: int| 0 <= i < order.len() implies before(
                keys,
                #[trigger] order[i],
                row,
            ) by {
                lemma_before(keys, order[i], last, row);
            }
        } else {
            let rest = order.drop_last();
            lemma_place_of(keys, rest, row);
            lemma_before(keys, last, row, last);
            assert forall|i: int| 0 <= i < place_of(keys, order, row) implies before(
                keys,
                #[trigger] order[i],
                row,
            ) by {
                assert(order[i] == rest[i]);
            }
            assert forall|i: int|
                place_of(keys, order, row) <= i < order.len() implies before(
                keys,
                row,
                #[trigger] order[i],
            ) by {
                if i < rest.len() {
                    assert(order[i] == rest[i]);
                }
            }
        }
    }
}

/// Any keys have a ranking, so `ranking` is one.
pub proof fn law_ranking_exists<K: Key>(keys: Seq<K>)
    ensures
        is_ranking(keys, ranking(keys)),
    decreases keys.len(),
{
    if keys.len() == 0 {
        assert(is_ranking(keys, Seq::<int>::empty()));
    } else {
        let rest = keys.drop_last();
        let row = keys.len() - 1;
        law_ranking_exists(rest);
        let order = ranking(rest);
        assert forall|i: int, j: int| 0 <= i < j < order.len() implies before(
            keys,
            #[trigger] order[i],
            #[trigger] order[j],
        ) by {
            assert(before(rest, order[i], order[j]));
        }
        lemma_place_of(keys, order, row);
        let p = place_of(keys, order, row) as int;
        let whole = order.insert(p, row);
        assert forall|i: int, j: int| 0 <= i < j < whole.len() implies before(
            keys,
            #[trigger] whole[i],
            #[trigger] whole[j],
        ) by {
            let a = if i < p {
                i
            } else {
                i - 1
            };
            let b = if j < p {
                j
            } else {
                j - 1
            };
            if i == p {
                assert(whole[j] == order[b]);
            } else if j == p {
                assert(whole[i] == order[a]);
            } else {
                assert(whole[i] == order[a] && whole[j] == order[b]);
            }
        }
        assert forall|i: int| 0 <= i < whole.len() implies 0 <= #[trigger] whole[i] < keys.len() by {
            if i < p {
                assert(whole[i] == order[i]);
            } else if i > p {
                assert(whole[i] == order[i - 1]);
            }
        }
        assert(is_ranking(keys, whole));
    }
}

/// The integers that a list of places holds.
pub open spec fn places(v: Seq<usize>) -> Seq<int> {
    Seq::new(v.len(), |i: int| v[i] as int)
}

/// Whether `v` lists rows from `lo` up to `hi`, in the order in which they stand.
spec fn is_run<K: Key>(keys: Seq<K>, v: Seq<usize>, lo: int, hi: int) -> bool {
    &&& forall|i: int| 0 <= i < v.len() ==> lo <= #[trigger] v[i] < hi
    &&& forall|i: int, j: int|
        0 <= i < j < v.len() ==> before(keys, #[trigger] v[i] as int, #[trigger] v[j] as int)
}

/// Merges two runs of rows into one.
fn merge<R: RankKey>(
    keys: &[R],
    left: Vec<usize>,
    right: Vec<usize>,
    Ghost(lo): Ghost<int>,
    Ghost(mid): Ghost<int>,
    Ghost(hi): Ghost<int>,
) -> (r: Vec<usize>)
    requires
        0 <= lo <= mid <= hi <= keys.len(),
        left@.len() + right@.len() <= keys.len(),
        is_run(keys_of(keys@), left@, lo, mid),
        is_run(keys_of(keys@), right@, mid, hi),
    ensures
        r@.len() == left@.len() + right@.len(),
        is_run(keys_of(keys@), r@, lo, hi),
{
    let mut r: Vec<usize> = Vec::new();
    let mut i: usize = 0;
    let mut j: usize = 0;
    while i < left.len() || j < right.len()
        invariant
            0 <= lo <= mid <= hi <= keys.len(),
            left@.len() + right@.len() <= keys.len(),
            is_run(keys_of(keys@), left@, lo, mid),
            is_run(keys_of(keys@), right@, mid, hi),
            i <= left.len(),
            j <= right.len(),
            r@.len() == i + j,
            is_run(keys_of(keys@), r@, lo, hi),
            forall|a: int, b: int|
                0 <= a < r@.len() && i <= b < left@.len() ==> before(
                    keys_of(keys@),
                    #[trigger] r@[a] as int,
                    #[trigger] left@[b] as int,
                ),
            forall|a: int, b: int|
                0 <= a < r@.len() && j <= b < right@.len() ==> before(
                    keys_of(keys@),
                    #[trigger] r@[a] as int,
                    #[trigger] right@[b] as int,
                ),
        decreases left.len() - i + right.len() - j,
    {
        let from_left: bool = if i < left.len() {
            if j < right.len() {
                assert(lo <= left@[i as int] < mid);
                assert(mid <= right@[j as int] < hi);
                keys[left[i]].may_lead(&keys[right[j]])
            } else {
                true
            }
        } else {
            false
        };
        let ghost prev = r@;
        if from_left {
            let ghost x = left@[i as int] as int;
            proof {
                assert forall|b: int| j <= b < right@.len() implies before(
                    keys_of(keys@),
                    x,
                    #[trigger] right@[b] as int,
                ) by {
                    assert(x < mid <= right@[j as int]);
                    assert(before(keys_of(keys@), x, right@[j as int] as int));
                    lemma_before(keys_of(keys@), x, right@[j as int] as int, right@[b] as int);
                }
            }
            r.push(left[i]);
            i = i + 1;
        } else {
            let ghost x = right@[j as int] as int;
            proof {
                assert forall|b: int| i <= b < left@.len() implies before(
                    keys_of(keys@),
                    x,
                    #[trigger] left@[b] as int,
                ) by {
                    R::K::leads_total(keys_of(keys@)[x], keys_of(keys@)[left@[i as int] as int]);
                    assert(before(keys_of(keys@), x, left@[i as int] as int));
                    lemma_before(keys_of(keys@), x, left@[i as int] as int, left@[b] as int);
                }
            }
            r.push(right[j]);
            j = j + 1;
        }
        assert forall|a: int, b: int| 0 <= a < b < r@.len() implies before(
            keys_of(keys@),
            #[trigger] r@[a] as int,
            #[trigger] r@[b] as int,
        ) by {
            assert(r@[a] == prev[a]);
            if b < prev.len() {
                assert(r@[b] == prev[b]);
            }
        }
    }
    r
}

/// Lists the rows from `lo` up to `hi` in the order in which they stand.
fn rank_range<R: RankKey>(keys: &[R], lo: usize, hi: usize) -> (r: Vec<usize>)
    requires
        lo <= hi <= keys.len(),
    ensures
        r@.len() == hi - lo,
        is_run(keys_of(keys@), r@, lo as int, hi as int),
    decreases hi - lo,
{
    if hi - lo <= 1 {
        let mut r: Vec<usize> = Vec::new();
        if lo < hi {
            r.push(lo);
        }
        r
    } else {
        let mid = lo + (hi - lo) / 2;
        let left = rank_range(keys, lo, mid);
        let right = rank_range(keys, mid, hi);
        merge(keys, left, right, Ghost(lo as int), Ghost(mid as int), Ghost(hi as int))
    }
}

/// Lists the rows with these keys in the order in which they stand.
pub fn rank<R: RankKey>(keys: &[R]) -> (r: Vec<usize>)
    ensures
        places(r@) == ranking(keys_of(keys@)),
        is_ranking(keys_of(keys@), places(r@)),
{
    let r = rank_range(keys, 0, keys.len());
    proof {
        assert(is_ranking(keys_of(keys@), places(r@)));
        law_ranking_exists(keys_of(keys@));
        law_ranking_is_unique(keys_of(keys@), places(r@), ranking(keys_of(keys@)));
    }
    r
}

/// How many of `n` rows a limit lets through.
pub open spec fn kept(n: nat, limit: Option<usize>) -> nat {
    match limit {
        Some(l) => if l < n {
            l as nat
        } else {
            n
        },
        None => n,
    }
}

/// The rows in the order in which they stand, cut off at the limit.
pub open spec fn ranked<T, K: Key>(rows: Seq<T>, keys: Seq<K>, limit: Option<usize>) -> Seq<T> {
    Seq::new(kept(keys.len(), limit), |i: int| rows[ranking(keys)[i]])
}

/// Sorts the rows by their keys and cuts them off at the limit.
pub fn rank_rows<T: Copy, R: RankKey>(rows: &[T], keys: &[R], limit: Option<usize>) -> (r: Vec<T>)
    requires
        rows.len() == keys.len(),
    ensures
        r@ == ranked(rows@, keys_of(keys@), limit),
{
    let order = rank(keys);
    let mut n: usize = order.len();
    if let Some(l) = limit {
        if l < n {
            n = l;
        }
    }
    let mut r: Vec<T> = Vec::new();
    let mut i: usize = 0;
    while i < n
        invariant
            i <= n,
            n == kept(keys@.len(), limit),
            n <= order@.len(),
            rows@.len() == keys@.len(),
            places(order@) == ranking(keys_of(keys@)),
            is_ranking(keys_of(keys@), places(order@)),
            r@ =~= ranked(rows@, keys_of(keys@), limit).take(i as int),
        decreases n - i,
    {
        assert(places(order@)[i as int] == order@[i as int]);
        r.push(rows[order[i]]);
        i = i + 1;
    }
    r
}

/// Something that is listed by its name.
pub trait Named: View + Sized {
    /// The name that it is listed by.
    spec fn label(&self) -> Seq<char>;

    /// The name that it is listed by.
    fn label_text(&self) -> (r: &String)
        ensures
            r@ == self.label(),
    ;

    /// Another that says the same.
    fn duplicate(&self) -> (r: Self)
        ensures
            r@ == self@,
    ;
}

/// What the items of a list say.
pub open spec fn views<T: View>(v: Seq<T>) -> Seq<T::V> {
    Seq::new(v.len(), |i: int| v[i]@)
}

/// The names that the items of a list are listed by.
pub open spec fn labels<T: Named>(v: Seq<T>) -> Seq<Seq<char>> {
    Seq::new(v.len(), |i: int| v[i].label())
}

/// Lists items by name.
pub fn sort_by_name<T: Named>(items: &[T]) -> (r: Vec<T>)
    ensures
        views(r@) == ranked(views(items@), labels(items@), None),
{
    let ghost names = labels(items@);
    let mut keys: Vec<Vec<char>> = Vec::new();
    let mut i: usize = 0;
    while i < items.len()
        invariant
            i <= items.len(),
            keys@.len() == i,
            forall|j: int| 0 <= j < i ==> (#[trigger] keys@[j])@ == items@[j].label(),
        decreases items.len() - i,
    {
        keys.push(to_chars(items[i].label_text().as_str()));
        i = i + 1;
    }
    assert(keys_of(keys@) =~= names);
    let order = rank(keys.as_slice());
    let mut r: Vec<T> = Vec::new();
    let mut k: usize = 0;
    while k < order.len()
        invariant
            k <= order.len(),
            names == labels(items@),
            places(order@) == ranking(names),
            is_ranking(names, places(order@)),
            views(r@) =~= ranked(views(items@), names, None).take(k as int),
        decreases order.len() - k,
    {
        assert(places(order@)[k as int] == order@[k as int]);
        let ghost prev = views(r@);
        let x = items[order[k]].duplicate();
        let ghost y = x@;
        r.push(x);
        assert(views(r@) =~= prev.push(y));
        assert(views(items@)[order@[k as int] as int] == y);
        k = k + 1;
    }
    r
}

/// A ranked list is as long as the limit allows, its keys never rise, and no
/// row that was cut off has a key that leads that of a row that stayed.
pub proof fn law_ranked_keeps_the_leaders<T>(rows: Seq<T>, keys: Seq<u64>, limit: Option<usize>)
    requires
        rows.len() == keys.len(),
    ensures
        ranked(rows, keys, limit).len() == kept(rows.len(), limit),
        forall|i: int|
            0 <= i < ranked(rows, keys, limit).len() ==> 0 <= #[trigger] ranking(keys)[i]
                < rows.len() && ranked(rows, keys, limit)[i] == rows[ranking(keys)[i]],
        forall|i: int, j: int|
            0 <= i < j < keys.len() ==> keys[#[trigger] ranking(keys)[i]]
                >= keys[#[trigger] ranking(keys)[j]],
{
    law_ranking_exists(keys);
    assert forall|i: int, j: int| 0 <= i < j < keys.len() implies keys[#[trigger] ranking(
        keys,
    )[i]] >= keys[#[trigger] ranking(keys)[j]] by {
        assert(before(keys, ranking(keys)[i], ranking(keys)[j]));
    }
}

} // verus!
