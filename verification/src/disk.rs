//! Disk devices: their counters, and their rates as a tree.

use vstd::prelude::*;

use crate::number::{word_u64, word_u64_at};
use crate::rank::{
    before, labels, law_ranking_exists, law_ranking_lists_every_row, ranked, ranking, sort_by_name,
    views, word_le,
};
use crate::rate::{bytes_per_sec, bytes_per_sec_fits, gain, rate, rate_fits};
use crate::text::{
    lines, split_lines, split_words, starts_with, texts, to_chars, to_text, words, Class,
};
use crate::tree::{
    build_forest, by_name, flat, forest, law_forest_holds_every_device,
    law_forest_nests_by_longest_prefix, nested, nodes, rates, DiskNode, DiskOut, DiskRate,
    DiskRateView,
};

verus! {

/// Bytes in a sector.
pub const SECTOR: u64 = 512;

/// What one disk device has read and written so far.
#[derive(Debug, PartialEq, Eq)]
pub struct DiskDevSample {
    pub name: String,
    pub read_bytes: u64,
    pub write_bytes: u64,
}

/// What a `DiskDevSample` says.
pub struct DiskDevView {
    pub name: Seq<char>,
    pub read_bytes: u64,
    pub write_bytes: u64,
}

impl View for DiskDevSample {
    type V = DiskDevView;

    open spec fn view(&self) -> DiskDevView {
        DiskDevView {
            name: self.name@,
            read_bytes: self.read_bytes,
            write_bytes: self.write_bytes,
        }
    }
}

/// What a list of devices says.
pub open spec fn devs(v: Seq<DiskDevSample>) -> Seq<DiskDevView> {
    Seq::new(v.len(), |i: int| v[i]@)
}

/// The device that a line is about: its third word, but for loop and memory
/// devices.
pub open spec fn dev_name_on(line: Seq<char>) -> Option<Seq<char>> {
    let ws = words(line, Class::Space);
    if ws.len() <= 2 || "loop"@.is_prefix_of(ws[2]) || "ram"@.is_prefix_of(ws[2]) {
        None
    } else {
        Some(ws[2])
    }
}

/// The device that one line of the table says: the sectors read are the sixth
/// word, those written the tenth.
pub open spec fn dev_on(line: Seq<char>) -> Option<DiskDevView> {
    match dev_name_on(line) {
        Some(name) => Some(
            DiskDevView {
                name,
                read_bytes: (word_u64(line, 5) * SECTOR) as u64,
                write_bytes: (word_u64(line, 9) * SECTOR) as u64,
            },
        ),
        None => None,
    }
}

/// Whether the bytes that a line says are numbers of 64 bits.
pub open spec fn dev_line_fits(line: Seq<char>) -> bool {
    dev_name_on(line) is Some ==> word_u64(line, 5) * SECTOR <= u64::MAX && word_u64(line, 9)
        * SECTOR <= u64::MAX
}

/// The devices that a list of lines says.
pub open spec fn devs_on(ls: Seq<Seq<char>>) -> Seq<DiskDevView>
    decreases ls.len(),
{
    if ls.len() == 0 {
        seq![]
    } else {
        match dev_on(ls.last()) {
            Some(x) => devs_on(ls.drop_last()).push(x),
            None => devs_on(ls.drop_last()),
        }
    }
}

/// Whether the bytes that the file says are numbers of 64 bits.
pub open spec fn disk_fits(content: Seq<char>) -> bool {
    forall|i: int| 0 <= i < lines(content).len() ==> dev_line_fits(#[trigger] lines(content)[i])
}

/// The name of the device that a line is about.
fn read_dev_name(line: &[char]) -> (r: Option<String>)
    ensures
        match r {
            Some(name) => dev_name_on(line@) == Some(name@),
            None => dev_name_on(line@) is None,
        },
{
    let ws = split_words(line, Class::Space);
    if ws.len() <= 2 {
        assert(texts(ws@).len() <= 2);
        return None;
    }
    assert(texts(ws@)[2] == ws@[2]@);
    if starts_with(ws[2], to_chars("loop").as_slice()) || starts_with(
        ws[2],
        to_chars("ram").as_slice(),
    ) {
        None
    } else {
        Some(to_text(ws[2]))
    }
}

/// Whether the bytes that the file says are numbers of 64 bits.
pub fn disk_sample_fits(content: &str) -> (r: bool)
    ensures
        r == disk_fits(content@),
{
    let chars = to_chars(content);
    let all = split_lines(chars.as_slice());
    let ghost ls = lines(content@);
    let mut i: usize = 0;
    while i < all.len()
        invariant
            i <= all.len(),
            texts(all@) == ls,
            ls == lines(content@),
            forall|j: int| 0 <= j < i ==> dev_line_fits(#[trigger] ls[j]),
        decreases all.len() - i,
    {
        assert(ls[i as int] == all@[i as int]@);
        if read_dev_name(all[i]).is_some() {
            if word_u64_at(all[i], 5) > u64::MAX / SECTOR || word_u64_at(all[i], 9) > u64::MAX
                / SECTOR {
                assert(!dev_line_fits(lines(content@)[i as int]));
                return false;
            }
        }
        i = i + 1;
    }
    true
}

/// Reads the disk devices from the text of `/proc/diskstats`.
pub fn read_disk(content: &str) -> (r: Vec<DiskDevSample>)
    requires
        disk_fits(content@),
    ensures
        devs(r@) == devs_on(lines(content@)),
{
    let chars = to_chars(content);
    let all = split_lines(chars.as_slice());
    let ghost ls = lines(content@);
    let mut r: Vec<DiskDevSample> = Vec::new();
    let mut i: usize = 0;
    assert(ls.take(0) =~= seq![]);
    assert(devs(r@) =~= seq![]);
    while i < all.len()
        invariant
            i <= all.len(),
            texts(all@) == ls,
            ls == lines(content@),
            disk_fits(content@),
            devs(r@) == devs_on(ls.take(i as int)),
        decreases all.len() - i,
    {
        let ghost prev = devs(r@);
        proof {
            assert(ls[i as int] == all@[i as int]@);
            assert(dev_line_fits(lines(content@)[i as int]));
            assert(ls.take(i + 1).drop_last() =~= ls.take(i as int));
        }
        if let Some(name) = read_dev_name(all[i]) {
            let x = DiskDevSample {
                name,
                read_bytes: word_u64_at(all[i], 5) * SECTOR,
                write_bytes: word_u64_at(all[i], 9) * SECTOR,
            };
            let ghost y = x@;
            r.push(x);
            assert(devs(r@) =~= prev.push(y));
        }
        i = i + 1;
    }
    assert(ls.take(i as int) =~= ls);
    r
}

/// Loop and memory devices are never listed.
pub proof fn law_loop_and_ram_are_left_out(ls: Seq<Seq<char>>)
    ensures
        forall|i: int|
            0 <= i < devs_on(ls).len() ==> !"loop"@.is_prefix_of(
                (#[trigger] devs_on(ls)[i]).name,
            ) && !"ram"@.is_prefix_of(devs_on(ls)[i].name),
    decreases ls.len(),
{
    if ls.len() > 0 {
        let rest = ls.drop_last();
        law_loop_and_ram_are_left_out(rest);
        assert forall|i: int| 0 <= i < devs_on(ls).len() implies !"loop"@.is_prefix_of(
            (#[trigger] devs_on(ls)[i]).name,
        ) && !"ram"@.is_prefix_of(devs_on(ls)[i].name) by {
            if i < devs_on(rest).len() {
                assert(devs_on(ls)[i] == devs_on(rest)[i]);
            }
        }
    }
}

/// The last device of a list with this name.
pub open spec fn dev_named(s: Seq<DiskDevView>, name: Seq<char>) -> Option<DiskDevView>
    decreases s.len(),
{
    if s.len() == 0 {
        None
    } else if s.last().name == name {
        Some(s.last())
    } else {
        dev_named(s.drop_last(), name)
    }
}

/// The devices of a list, of those with one name only the last.
pub open spec fn latest(s: Seq<DiskDevView>) -> Seq<DiskDevView>
    decreases s.len(),
{
    if s.len() == 0 {
        seq![]
    } else if dev_named(s.skip(1), s[0].name) is Some {
        latest(s.skip(1))
    } else {
        seq![s[0]] + latest(s.skip(1))
    }
}

/// What a device has read since the earlier list; nothing where that lacks it.
pub open spec fn read_gain(prev: Seq<DiskDevView>, d: DiskDevView) -> u64 {
    match dev_named(prev, d.name) {
        Some(p) => gain(d.read_bytes, p.read_bytes),
        None => 0,
    }
}

/// What a device has written since the earlier list; nothing where that lacks it.
pub open spec fn write_gain(prev: Seq<DiskDevView>, d: DiskDevView) -> u64 {
    match dev_named(prev, d.name) {
        Some(p) => gain(d.write_bytes, p.write_bytes),
        None => 0,
    }
}

/// The rates of a device since the earlier list.
pub open spec fn dev_rate(
    prev: Seq<DiskDevView>,
    d: DiskDevView,
    elapsed_ns: u64,
) -> DiskRateView {
    DiskRateView {
        name: d.name,
        read_bytes_per_sec: rate(read_gain(prev, d), elapsed_ns),
        write_bytes_per_sec: rate(write_gain(prev, d), elapsed_ns),
    }
}

/// The rates of all devices, in the order in which they are listed.
pub open spec fn dev_rates(
    prev: Seq<DiskDevView>,
    s: Seq<DiskDevView>,
    elapsed_ns: u64,
) -> Seq<DiskRateView> {
    Seq::new(s.len(), |i: int| dev_rate(prev, s[i], elapsed_ns))
}

/// The names of a list of rates.
pub open spec fn rate_names(s: Seq<DiskRateView>) -> Seq<Seq<char>> {
    Seq::new(s.len(), |i: int| s[i].name)
}

/// The rates of all devices, listed by name.
pub open spec fn disk_rates(
    prev: Seq<DiskDevView>,
    curr: Seq<DiskDevView>,
    elapsed_ns: u64,
) -> Seq<DiskRateView> {
    let all = dev_rates(prev, latest(curr), elapsed_ns);
    ranked(all, rate_names(all), None)
}

/// The rates of all devices, as a tree.
pub open spec fn disk_tree(
    prev: Seq<DiskDevView>,
    curr: Seq<DiskDevView>,
    elapsed_ns: u64,
) -> Seq<DiskNode> {
    forest(disk_rates(prev, curr, elapsed_ns))
}

/// Whether the rates of all devices are numbers of 64 bits.
pub open spec fn disk_rates_fit(
    prev: Seq<DiskDevView>,
    curr: Seq<DiskDevView>,
    elapsed_ns: u64,
) -> bool {
    forall|i: int| #![trigger curr[i]]
        0 <= i < curr.len() ==> rate_fits(read_gain(prev, curr[i]), elapsed_ns) && rate_fits(
            write_gain(prev, curr[i]),
            elapsed_ns,
        )
}

/// The place of the last device with this name.
fn find_dev(s: &[DiskDevSample], name: &String) -> (r: Option<usize>)
    ensures
        match r {
            Some(i) => i < s.len() && dev_named(devs(s@), name@) == Some(s@[i as int]@),
            None => dev_named(devs(s@), name@) is None,
        },
{
    let ghost all = devs(s@);
    let mut i: usize = s.len();
    assert(all.take(i as int) =~= all);
    while i > 0
        invariant
            i <= s.len(),
            all == devs(s@),
            dev_named(all, name@) == dev_named(all.take(i as int), name@),
        decreases i,
    {
        assert(all.take(i as int).drop_last() =~= all.take(i - 1));
        assert(all.take(i as int).last() == s@[i - 1]@);
        if s[i - 1].name == *name {
            return Some(i - 1);
        }
        i = i - 1;
    }
    None
}

/// What a device has read and written since the earlier list.
fn dev_gains(prev: &[DiskDevSample], d: &DiskDevSample) -> (r: (u64, u64))
    ensures
        r.0 == read_gain(devs(prev@), d@),
        r.1 == write_gain(devs(prev@), d@),
{
    match find_dev(prev, &d.name) {
        Some(i) => (
            d.read_bytes.saturating_sub(prev[i].read_bytes),
            d.write_bytes.saturating_sub(prev[i].write_bytes),
        ),
        None => (0, 0),
    }
}

/// Whether the rates of all devices are numbers of 64 bits.
pub fn diff_disk_fits(
    prev: &[DiskDevSample],
    curr: &[DiskDevSample],
    elapsed_ns: u64,
) -> (r: bool)
    ensures
        r == disk_rates_fit(devs(prev@), devs(curr@), elapsed_ns),
{
    let mut i: usize = 0;
    while i < curr.len()
        invariant
            i <= curr.len(),
            forall|j: int| #![trigger devs(curr@)[j]]
                0 <= j < i ==> rate_fits(
                    read_gain(devs(prev@), devs(curr@)[j]),
                    elapsed_ns,
                ) && rate_fits(write_gain(devs(prev@), devs(curr@)[j]), elapsed_ns),
        decreases curr.len() - i,
    {
        let (rd, wd) = dev_gains(prev, &curr[i]);
        assert(devs(curr@)[i as int] == curr@[i as int]@);
        if !bytes_per_sec_fits(rd, elapsed_ns) || !bytes_per_sec_fits(wd, elapsed_ns) {
            return false;
        }
        i = i + 1;
    }
    true
}

/// The rates of all devices, of those with one name only the last.
fn latest_rates(
    prev: &[DiskDevSample],
    curr: &[DiskDevSample],
    elapsed_ns: u64,
) -> (r: Vec<DiskRate>)
    requires
        disk_rates_fit(devs(prev@), devs(curr@), elapsed_ns),
    ensures
        rates(r@) == dev_rates(devs(prev@), latest(devs(curr@)), elapsed_ns),
{
    let ghost p = devs(prev@);
    let ghost all = devs(curr@);
    let mut r: Vec<DiskRate> = Vec::new();
    let mut i: usize = 0;
    assert(all.skip(0) =~= all);
    assert(rates(r@) =~= seq![]);
    while i < curr.len()
        invariant
            i <= curr.len(),
            p == devs(prev@),
            all == devs(curr@),
            disk_rates_fit(p, all, elapsed_ns),
            rates(r@) + dev_rates(p, latest(all.skip(i as int)), elapsed_ns) =~= dev_rates(
                p,
                latest(all),
                elapsed_ns,
            ),
        decreases curr.len() - i,
    {
        let ghost before = rates(r@);
        let ghost rest = all.skip(i as int);
        let later = &curr[i + 1..curr.len()];
        proof {
            assert(all[i as int] == curr@[i as int]@);
            assert(rest[0] == all[i as int]);
            assert(rest.skip(1) =~= all.skip(i + 1));
            assert(devs(later@) =~= all.skip(i + 1));
        }
        if find_dev(later, &curr[i].name).is_none() {
            let (rd, wd) = dev_gains(prev, &curr[i]);
            let x = DiskRate {
                name: curr[i].name.clone(),
                read_bytes_per_sec: bytes_per_sec(rd, elapsed_ns),
                write_bytes_per_sec: bytes_per_sec(wd, elapsed_ns),
            };
            let ghost y = x@;
            r.push(x);
            proof {
                assert(rates(r@) =~= before + seq![y]);
                assert(dev_rates(p, latest(rest), elapsed_ns) =~= seq![y] + dev_rates(
                    p,
                    latest(rest.skip(1)),
                    elapsed_ns,
                ));
            }
        }
        i = i + 1;
    }
    assert(all.skip(i as int) =~= seq![]);
    r
}

/// The rates of all devices since the earlier list, as a tree.
pub fn diff_disk(
    prev: &[DiskDevSample],
    curr: &[DiskDevSample],
    elapsed_ns: u64,
) -> (r: Vec<DiskOut>)
    requires
        disk_rates_fit(devs(prev@), devs(curr@), elapsed_ns),
    ensures
        nodes(r@) == disk_tree(devs(prev@), devs(curr@), elapsed_ns),
{
    let all = latest_rates(prev, curr, elapsed_ns);
    let sorted = sort_by_name(all.as_slice());
    proof {
        assert(views(all@) =~= rates(all@));
        assert(labels(all@) =~= rate_names(rates(all@)));
        assert(rates(sorted@) =~= views(sorted@));
    }
    build_forest(sorted.as_slice())
}

/// The last device with a name is found in what follows the first, or is the first.
proof fn lemma_dev_named_front(s: Seq<DiskDevView>, name: Seq<char>)
    requires
        s.len() > 0,
    ensures
        dev_named(s, name) == (if dev_named(s.skip(1), name) is Some {
            dev_named(s.skip(1), name)
        } else if s[0].name == name {
            Some(s[0])
        } else {
            None
        }),
    decreases s.len(),
{
    let rest = s.skip(1);
    if s.len() == 1 {
        assert(s.drop_last() =~= seq![]);
        assert(rest =~= seq![]);
    } else {
        lemma_dev_named_front(s.drop_last(), name);
        assert(s.drop_last().skip(1) =~= rest.drop_last());
        assert(rest.last() == s.last());
    }
}

/// The devices that stay are the last with their names, and no name is lost.
proof fn lemma_latest(s: Seq<DiskDevView>)
    ensures
        forall|i: int|
            0 <= i < latest(s).len() ==> dev_named(s, (#[trigger] latest(s)[i]).name) == Some(
                latest(s)[i],
            ),
        forall|i: int, j: int|
            0 <= i < j < latest(s).len() ==> (#[trigger] latest(s)[i]).name != (
            #[trigger] latest(s)[j]).name,
        forall|name: Seq<char>|
            (#[trigger] dev_named(s, name)) is Some ==> latest(s).contains(
                dev_named(s, name)->0,
            ),
    decreases s.len(),
{
    if s.len() > 0 {
        let rest = s.skip(1);
        let l = latest(s);
        let m = latest(rest);
        lemma_latest(rest);
        assert forall|name: Seq<char>| (#[trigger] dev_named(s, name)) is Some implies l.contains(
            dev_named(s, name)->0,
        ) by {
            lemma_dev_named_front(s, name);
            if dev_named(rest, name) is Some {
                let d = dev_named(rest, name)->0;
                assert(m.contains(d));
                let k = choose|k: int| 0 <= k < m.len() && m[k] == d;
                if l.len() > m.len() {
                    assert(l[k + 1] == d);
                } else {
                    assert(l[k] == d);
                }
            } else {
                assert(l[0] == s[0]);
            }
        }
        assert forall|i: int| 0 <= i < l.len() implies dev_named(s, (#[trigger] l[i]).name) == Some(
            l[i],
        ) by {
            lemma_dev_named_front(s, l[i].name);
            if l.len() > m.len() {
                if i > 0 {
                    assert(l[i] == m[i - 1]);
                }
            } else {
                assert(l[i] == m[i]);
            }
        }
        assert forall|i: int, j: int| 0 <= i < j < l.len() implies (#[trigger] l[i]).name != (
        #[trigger] l[j]).name by {
            if l.len() > m.len() {
                assert(l[j] == m[j - 1]);
                if i > 0 {
                    assert(l[i] == m[i - 1]);
                }
            } else {
                assert(l[i] == m[i] && l[j] == m[j]);
            }
        }
    }
}

/// The rates are listed by name, each name once, and they are those of the
/// devices that were sampled: for each name the last device with it.
pub proof fn law_disk_rates_list_every_device(
    prev: Seq<DiskDevView>,
    curr: Seq<DiskDevView>,
    elapsed_ns: u64,
)
    ensures
        by_name(disk_rates(prev, curr, elapsed_ns)),
        forall|name: Seq<char>|
            (#[trigger] dev_named(curr, name)) is Some ==> disk_rates(
                prev,
                curr,
                elapsed_ns,
            ).contains(dev_rate(prev, dev_named(curr, name)->0, elapsed_ns)),
        forall|i: int|
            0 <= i < disk_rates(prev, curr, elapsed_ns).len() ==> {
                let r = #[trigger] disk_rates(prev, curr, elapsed_ns)[i];
                dev_named(curr, r.name) is Some && r == dev_rate(
                    prev,
                    dev_named(curr, r.name)->0,
                    elapsed_ns,
                )
            },
{
    let l = latest(curr);
    let all = dev_rates(prev, l, elapsed_ns);
    let names = rate_names(all);
    let order = ranking(names);
    let out = disk_rates(prev, curr, elapsed_ns);
    lemma_latest(curr);
    law_ranking_exists(names);
    law_ranking_lists_every_row(names, order);
    assert forall|i: int, j: int| 0 <= i < j < out.len() implies word_le(
        #[trigger] out[i].name,
        #[trigger] out[j].name,
    ) && out[i].name != out[j].name by {
        assert(before(names, order[i], order[j]));
        assert(order[i] != order[j]);
        if order[i] < order[j] {
            assert(l[order[i]].name != l[order[j]].name);
        } else {
            assert(l[order[j]].name != l[order[i]].name);
        }
    }
    assert forall|name: Seq<char>| (#[trigger] dev_named(curr, name)) is Some implies out.contains(
        dev_rate(prev, dev_named(curr, name)->0, elapsed_ns),
    ) by {
        let d = dev_named(curr, name)->0;
        assert(l.contains(d));
        let k = choose|k: int| 0 <= k < l.len() && l[k] == d;
        assert(order.contains(k));
        let m = choose|m: int| 0 <= m < order.len() && order[m] == k;
        assert(out[m] == dev_rate(prev, d, elapsed_ns));
    }
    assert forall|i: int| 0 <= i < out.len() implies {
        let r = #[trigger] out[i];
        dev_named(curr, r.name) is Some && r == dev_rate(
            prev,
            dev_named(curr, r.name)->0,
            elapsed_ns,
        )
    } by {
        assert(out[i] == all[order[i]]);
        assert(l[order[i]].name == out[i].name);
    }
}

/// The disk tree holds every listed device exactly once, each directly under
/// the device whose name is the longest proper prefix of its own, and at the top
/// where there is none.
pub proof fn law_disk_tree_nests_every_device(
    prev: Seq<DiskDevView>,
    curr: Seq<DiskDevView>,
    elapsed_ns: u64,
)
    ensures
        flat(disk_tree(prev, curr, elapsed_ns)) == disk_rates(prev, curr, elapsed_ns),
        nested(disk_tree(prev, curr, elapsed_ns), disk_rates(prev, curr, elapsed_ns), None),
{
    law_disk_rates_list_every_device(prev, curr, elapsed_ns);
    law_forest_holds_every_device(disk_rates(prev, curr, elapsed_ns));
    law_forest_nests_by_longest_prefix(disk_rates(prev, curr, elapsed_ns));
}

} // verus!
