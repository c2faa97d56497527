//! Disk devices as a tree: a partition is nested under the device whose name is
//! the longest proper prefix of its own.

use vstd::prelude::*;

use crate::rank::{lemma_word_le_antisymmetric, word_le, Named};
use crate::text::{starts_with, to_chars};

verus! {

/// The rates of one device.
#[derive(Debug, PartialEq, Eq)]
pub struct DiskRate {
    pub name: String,
    pub read_bytes_per_sec: u64,
    pub write_bytes_per_sec: u64,
}

/// What a `DiskRate` says.
pub struct DiskRateView {
    pub name: Seq<char>,
    pub read_bytes_per_sec: u64,
    pub write_bytes_per_sec: u64,
}

impl View for DiskRate {
    type V = DiskRateView;

    open spec fn view(&self) -> DiskRateView {
        DiskRateView {
            name: self.name@,
            read_bytes_per_sec: self.read_bytes_per_sec,
            write_bytes_per_sec: self.write_bytes_per_sec,
        }
    }
}

/// Devices are listed by name.
impl Named for DiskRate {
    open spec fn label(&self) -> Seq<char> {
        self.name@
    }

    fn label_text(&self) -> (r: &String) {
        &self.name
    }

    fn duplicate(&self) -> (r: Self) {
        DiskRate {
            name: self.name.clone(),
            read_bytes_per_sec: self.read_bytes_per_sec,
            write_bytes_per_sec: self.write_bytes_per_sec,
        }
    }
}

/// One device of the output, with the devices nested under it.
#[derive(Debug, PartialEq, Eq)]
pub struct DiskOut {
    pub name: String,
    pub read_bytes_per_sec: u64,
    pub write_bytes_per_sec: u64,
    pub partitions: Vec<DiskOut>,
}

/// What a `DiskOut` says.
pub struct DiskNode {
    pub name: Seq<char>,
    pub read_bytes_per_sec: u64,
    pub write_bytes_per_sec: u64,
    pub partitions: Seq<DiskNode>,
}

impl DiskOut {
    pub open spec fn node(self) -> DiskNode
        decreases self,
    {
        DiskNode {
            name: self.name@,
            read_bytes_per_sec: self.read_bytes_per_sec,
            write_bytes_per_sec: self.write_bytes_per_sec,
            partitions: Seq::new(
                self.partitions@.len(),
                |i: int|
                    if 0 <= i < self.partitions@.len() {
                        self.partitions@[i].node()
                    } else {
                        arbitrary()
                    },
            ),
        }
    }
}

/// What a list of rates says.
pub open spec fn rates(v: Seq<DiskRate>) -> Seq<DiskRateView> {
    Seq::new(v.len(), |i: int| v[i]@)
}

/// What a list of devices says.
pub open spec fn nodes(v: Seq<DiskOut>) -> Seq<DiskNode> {
    Seq::new(v.len(), |i: int| v[i].node())
}

/// How many devices at the start of `s` have a name that starts with `name`.
pub open spec fn family(s: Seq<DiskRateView>, name: Seq<char>) -> nat
    decreases s.len(),
{
    if s.len() == 0 || !name.is_prefix_of(s[0].name) {
        0
    } else {
        1 + family(s.skip(1), name)
    }
}

/// The family is a part of the list, and the device after it is not of it.
pub proof fn lemma_family(s: Seq<DiskRateView>, name: Seq<char>)
    ensures
        family(s, name) <= s.len(),
        forall|i: int| 0 <= i < family(s, name) ==> name.is_prefix_of(#[trigger] s[i].name),
        family(s, name) < s.len() ==> !name.is_prefix_of(s[family(s, name) as int].name),
    decreases s.len(),
{
    if s.len() > 0 && name.is_prefix_of(s[0].name) {
        let rest = s.skip(1);
        lemma_family(rest, name);
        assert forall|i: int| 0 <= i < family(s, name) implies name.is_prefix_of(
            #[trigger] s[i].name,
        ) by {
            if i > 0 {
                assert(s[i] == rest[i - 1]);
            }
        }
    }
}

/// The tree of devices that are listed by name: each device holds the devices
/// that follow it and whose names start with its own.
pub open spec fn forest(s: Seq<DiskRateView>) -> Seq<DiskNode>
    decreases s.len(),
{
    if s.len() == 0 {
        seq![]
    } else {
        let n = family(s.skip(1), s[0].name) as int;
        proof {
            lemma_family(s.skip(1), s[0].name);
        }
        seq![
            DiskNode {
                name: s[0].name,
                read_bytes_per_sec: s[0].read_bytes_per_sec,
                write_bytes_per_sec: s[0].write_bytes_per_sec,
                partitions: forest(s.subrange(1, 1 + n)),
            },
        ] + forest(s.skip(1 + n))
    }
}

/// Builds the tree of devices that are listed by name.
pub fn build_forest(s: &[DiskRate]) -> (r: Vec<DiskOut>)
    ensures
        nodes(r@) == forest(rates(s@)),
    decreases s.len(),
{
    let ghost all = rates(s@);
    let mut r: Vec<DiskOut> = Vec::new();
    let mut i: usize = 0;
    assert(all.skip(0) =~= all);
    while i < s.len()
        invariant
            i <= s.len(),
            all == rates(s@),
            nodes(r@) + forest(all.skip(i as int)) =~= forest(all),
        decreases s.len() - i,
    {
        let ghost rest = all.skip(i as int);
        let ghost before = nodes(r@);
        let name = to_chars(s[i].name.as_str());
        let mut end: usize = i + 1;
        assert(rest.skip(1) =~= all.skip(i + 1));
        while end < s.len() && starts_with(
            to_chars(s[end].name.as_str()).as_slice(),
            name.as_slice(),
        )
            invariant
                i < end <= s.len(),
                all == rates(s@),
                name@ == s@[i as int].name@,
                family(all.skip(i + 1), name@) == end - i - 1 + family(
                    all.skip(end as int),
                    name@,
                ),
            decreases s.len() - end,
        {
            assert(all.skip(end as int).skip(1) =~= all.skip(end + 1));
            assert(all.skip(end as int)[0] == s@[end as int]@);
            end = end + 1;
        }
        assert(end < s.len() ==> all.skip(end as int)[0] == s@[end as int]@);
        let inner = &s[i + 1..end];
        let partitions = build_forest(inner);
        let ghost n = end - i - 1;
        assert(rates(inner@) =~= rest.subrange(1, 1 + n));
        assert(rest.skip(1 + n) =~= all.skip(end as int));
        let dev = DiskOut {
            name: s[i].name.clone(),
            read_bytes_per_sec: s[i].read_bytes_per_sec,
            write_bytes_per_sec: s[i].write_bytes_per_sec,
            partitions,
        };
        assert(dev.node().partitions =~= nodes(partitions@));
        let ghost node = dev.node();
        r.push(dev);
        assert(nodes(r@) =~= before + seq![node]);
        i = end;
    }
    assert(all.skip(i as int) =~= seq![]);
    r
}

/// The devices of a tree, each before the devices that it holds.
pub open spec fn flat(t: Seq<DiskNode>) -> Seq<DiskRateView>
    decreases t,
{
    if t.len() == 0 {
        seq![]
    } else {
        seq![
            DiskRateView {
                name: t[0].name,
                read_bytes_per_sec: t[0].read_bytes_per_sec,
                write_bytes_per_sec: t[0].write_bytes_per_sec,
            },
        ] + flat(t[0].partitions) + flat(t.skip(1))
    }
}

/// A tree holds every device of the list exactly once, in the order of the list.
pub proof fn law_forest_holds_every_device(s: Seq<DiskRateView>)
    ensures
        flat(forest(s)) == s,
    decreases s.len(),
{
    if s.len() > 0 {
        let n = family(s.skip(1), s[0].name) as int;
        lemma_family(s.skip(1), s[0].name);
        law_forest_holds_every_device(s.subrange(1, 1 + n));
        law_forest_holds_every_device(s.skip(1 + n));
        let t = forest(s);
        assert(t.skip(1) =~= forest(s.skip(1 + n)));
        assert(s =~= seq![s[0]] + s.subrange(1, 1 + n) + s.skip(1 + n));
    }
}

/// Whether `p` is a prefix of `c` and another name.
pub open spec fn properly_prefixes(p: Seq<char>, c: Seq<char>) -> bool {
    p.is_prefix_of(c) && p != c
}

/// Whether `parent` is the device of the list that `c` is a partition of: the
/// one whose name is the longest proper prefix of `c`, if there is any.
pub open spec fn is_parent(
    s: Seq<DiskRateView>,
    parent: Option<Seq<char>>,
    c: Seq<char>,
) -> bool {
    match parent {
        Some(p) => {
            &&& properly_prefixes(p, c)
            &&& exists|i: int| 0 <= i < s.len() && #[trigger] s[i].name == p
            &&& forall|i: int|
                0 <= i < s.len() && properly_prefixes(#[trigger] s[i].name, c) ==> s[i].name.len()
                    <= p.len()
        },
        None => forall|i: int|
            0 <= i < s.len() ==> !properly_prefixes(#[trigger] s[i].name, c),
    }
}

/// Whether each device of the tree `t` stands directly under its parent among
/// the devices `s`, where `parent` is what the tree itself stands under.
pub open spec fn nested(
    t: Seq<DiskNode>,
    s: Seq<DiskRateView>,
    parent: Option<Seq<char>>,
) -> bool
    decreases t,
{
    if t.len() == 0 {
        true
    } else {
        &&& is_parent(s, parent, t[0].name)
        &&& nested(t[0].partitions, s, Some(t[0].name))
        &&& nested(t.skip(1), s, parent)
    }
}

/// Whether the devices are listed by name, each name once.
pub open spec fn by_name(s: Seq<DiskRateView>) -> bool {
    forall|i: int, j: int|
        0 <= i < j < s.len() ==> word_le(#[trigger] s[i].name, #[trigger] s[j].name) && s[i].name
            != s[j].name
}

/// A name comes no later than its continuations.
proof fn lemma_prefix_comes_first(p: Seq<char>, c: Seq<char>)
    requires
        p.is_prefix_of(c),
    ensures
        word_le(p, c),
    decreases p.len(),
{
    if p.len() > 0 {
        assert(p[0] == c[0]) by {
            assert(p[0] == c.subrange(0, p.len() as int)[0]);
        }
        assert(p.skip(1) =~= c.skip(1).subrange(0, p.len() - 1));
        lemma_prefix_comes_first(p.skip(1), c.skip(1));
    }
}

/// The continuations of a name follow it without a gap.
proof fn lemma_continuations_are_together(p: Seq<char>, b: Seq<char>, c: Seq<char>)
    requires
        p.is_prefix_of(c),
        word_le(p, b),
        word_le(b, c),
    ensures
        p.is_prefix_of(b),
    decreases p.len(),
{
    if p.len() == 0 {
        assert(p =~= b.subrange(0, 0));
    } else {
        assert(p[0] == c.subrange(0, p.len() as int)[0]);
        assert(p.skip(1) =~= c.skip(1).subrange(0, p.len() - 1));
        lemma_continuations_are_together(p.skip(1), b.skip(1), c.skip(1));
        assert(b.skip(1).subrange(0, p.len() - 1) =~= p.skip(1));
        assert forall|i: int| 0 <= i < p.len() implies p[i] == #[trigger] b[i] by {
            if i > 0 {
                assert(p.skip(1)[i - 1] == b.skip(1).subrange(0, p.len() - 1)[i - 1]);
            }
        }
        assert(p =~= b.subrange(0, p.len() as int));
    }
}

/// Of two prefixes of a name the shorter is a prefix of the longer.
proof fn lemma_prefixes_chain(a: Seq<char>, b: Seq<char>, c: Seq<char>)
    requires
        a.is_prefix_of(c),
        b.is_prefix_of(c),
        a.len() <= b.len(),
    ensures
        a.is_prefix_of(b),
{
    assert forall|i: int| 0 <= i < a.len() implies a[i] == #[trigger] b[i] by {
        assert(a[i] == c.subrange(0, a.len() as int)[i]);
        assert(b[i] == c.subrange(0, b.len() as int)[i]);
    }
    assert(a =~= b.subrange(0, a.len() as int));
}

/// A prefix of a prefix is a prefix.
proof fn lemma_prefix_transitive(a: Seq<char>, b: Seq<char>, c: Seq<char>)
    requires
        a.is_prefix_of(b),
        b.is_prefix_of(c),
    ensures
        a.is_prefix_of(c),
{
    assert forall|i: int| 0 <= i < a.len() implies a[i] == #[trigger] c[i] by {
        assert(a[i] == b.subrange(0, a.len() as int)[i]);
        assert(b[i] == c.subrange(0, b.len() as int)[i]);
    }
    assert(a =~= c.subrange(0, a.len() as int));
}

/// The name that stands at place `q`, if any.
spec fn name_at(s: Seq<DiskRateView>, q: int) -> Option<Seq<char>> {
    if q < 0 {
        None
    } else {
        Some(s[q].name)
    }
}

/// Whether the devices from `lo` up to `hi` continue the name at `q`, and no
/// name between `q` and `lo`.
spec fn hangs_on(s: Seq<DiskRateView>, q: int, lo: int, hi: int) -> bool {
    forall|r: int| #![trigger s[r]]
        lo <= r < hi ==> {
            &&& q >= 0 ==> s[q].name.is_prefix_of(s[r].name)
            &&& forall|j: int|
                q < j < lo && 0 <= j ==> !(#[trigger] s[j].name).is_prefix_of(s[r].name)
        }
}

/// The first device of a stretch has what the stretch hangs on as its parent.
proof fn lemma_parent_of_first(s: Seq<DiskRateView>, q: int, lo: int, hi: int)
    requires
        by_name(s),
        -1 <= q < lo < hi <= s.len(),
        hangs_on(s, q, lo, hi),
    ensures
        is_parent(s, name_at(s, q), s[lo].name),
{
    let c = s[lo].name;
    assert forall|i: int| 0 <= i < s.len() && i > q implies !properly_prefixes(
        #[trigger] s[i].name,
        c,
    ) by {
        if i > lo && s[i].name.is_prefix_of(c) {
            lemma_prefix_comes_first(s[i].name, c);
            assert(word_le(s[lo].name, s[i].name));
            lemma_word_le_antisymmetric(s[i].name, c);
        }
    }
    if q >= 0 {
        let p = s[q].name;
        assert forall|i: int|
            0 <= i < s.len() && properly_prefixes(#[trigger] s[i].name, c) implies s[i].name.len()
            <= p.len() by {
            if i < q && s[i].name.len() > p.len() {
                lemma_prefixes_chain(p, s[i].name, c);
                lemma_prefix_comes_first(p, s[i].name);
                assert(word_le(s[i].name, p));
                lemma_word_le_antisymmetric(s[i].name, p);
            }
        }
        assert(s[q].name == p);
    }
}

proof fn lemma_forest_nested(s: Seq<DiskRateView>, q: int, lo: int, hi: int)
    requires
        by_name(s),
        -1 <= q < lo <= hi <= s.len(),
        hangs_on(s, q, lo, hi),
    ensures
        nested(forest(s.subrange(lo, hi)), s, name_at(s, q)),
    decreases hi - lo,
{
    let part = s.subrange(lo, hi);
    if lo < hi {
        let rest = part.skip(1);
        let name = s[lo].name;
        let n = family(rest, name) as int;
        lemma_family(rest, name);
        let mid = lo + 1 + n;
        assert forall|i: int| 0 <= i < rest.len() implies #[trigger] rest[i] == s[lo + 1 + i] by {}
        assert(part.subrange(1, 1 + n) =~= s.subrange(lo + 1, mid));
        assert(part.skip(1 + n) =~= s.subrange(mid, hi));
        lemma_parent_of_first(s, q, lo, hi);
        assert(hangs_on(s, lo, lo + 1, mid)) by {
            assert forall|r: int| #![trigger s[r]] lo + 1 <= r < mid implies name.is_prefix_of(
                s[r].name,
            ) by {
                assert(rest[r - lo - 1] == s[r]);
            }
        }
        lemma_forest_nested(s, lo, lo + 1, mid);
        assert(hangs_on(s, q, mid, hi)) by {
            assert forall|r: int| #![trigger s[r]] mid <= r < hi implies {
                &&& q >= 0 ==> s[q].name.is_prefix_of(s[r].name)
                &&& forall|j: int|
                    q < j < mid && 0 <= j ==> !(#[trigger] s[j].name).is_prefix_of(s[r].name)
            } by {
                assert(!name.is_prefix_of(s[r].name)) by {
                    if name.is_prefix_of(s[r].name) {
                        assert(rest[n] == s[mid]);
                        assert(word_le(s[lo].name, s[mid].name));
                        if r > mid {
                            assert(word_le(s[mid].name, s[r].name));
                            lemma_continuations_are_together(name, s[mid].name, s[r].name);
                        }
                    }
                }
                assert forall|j: int| q < j < mid && 0 <= j implies !(#[trigger] s[j].name)
                    .is_prefix_of(s[r].name) by {
                    if j > lo && s[j].name.is_prefix_of(s[r].name) {
                        assert(rest[j - lo - 1] == s[j]);
                        lemma_prefix_transitive(name, s[j].name, s[r].name);
                    }
                }
            }
        }
        lemma_forest_nested(s, q, mid, hi);
        let t = forest(part);
        assert(t.skip(1) =~= forest(s.subrange(mid, hi)));
    }
}

/// In the tree of devices listed by name each device stands directly under the
/// device whose name is the longest proper prefix of its own, and at the top
/// where there is none.
pub proof fn law_forest_nests_by_longest_prefix(s: Seq<DiskRateView>)
    requires
        by_name(s),
    ensures
        nested(forest(s), s, None),
{
    assert(s.subrange(0, s.len() as int) =~= s);
    lemma_forest_nested(s, -1, 0, s.len() as int);
}

} // verus!
