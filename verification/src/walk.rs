//! The walk over all processes: what each uses of the processors, of memory and
//! of the graphics cards.

use vstd::prelude::*;

use crate::fdinfo::{fd_pdev, fdinfo, parse_fd_pdev, parse_fdinfo, Vendor};
use crate::gpu::{cards_of, CardView, GpuCardMeta};
use crate::number::{parse_u32, parse_u64, unsigned};
use crate::text::{
    find_last, last_place, opt_text, split_words, starts_with, strings, texts, to_chars, words,
    Class,
};

verus! {

/// What one process has used so far.
#[derive(Clone, Copy, Debug, PartialEq, Eq)]
pub struct ProcSample {
    pub pid: u32,
    pub cpu_ticks: u64,
    pub rss_bytes: u64,
}

/// What one process uses of a graphics card.
#[derive(Clone, Copy, Debug, PartialEq, Eq)]
pub struct GpuProcSample {
    pub pid: u32,
    pub vram_kib: u64,
    pub engine_gfx_ns: u64,
}

/// What was read of one entry of the process file system.
#[derive(Debug, PartialEq, Eq)]
pub struct ProcReading {
    pub name: String,
    /// The text of the entry's status line, if it could be read.
    pub stat: Option<String>,
    /// Where the entry's open files lead.
    pub links: Vec<String>,
    /// The texts of the information files of the entry's open files.
    pub fdinfo: Vec<String>,
}

/// What a `ProcReading` says.
pub struct ProcReadingView {
    pub name: Seq<char>,
    pub stat: Option<Seq<char>>,
    pub links: Seq<Seq<char>>,
    pub fdinfo: Seq<Seq<char>>,
}

impl View for ProcReading {
    type V = ProcReadingView;

    open spec fn view(&self) -> ProcReadingView {
        ProcReadingView {
            name: self.name@,
            stat: opt_text(self.stat),
            links: strings(self.links@),
            fdinfo: strings(self.fdinfo@),
        }
    }
}

/// What a list of readings says.
pub open spec fn readings_of(v: Seq<ProcReading>) -> Seq<ProcReadingView> {
    Seq::new(v.len(), |i: int| v[i]@)
}

/// User time and system time in ticks, and resident pages.
#[derive(Clone, Copy, Debug, PartialEq, Eq)]
pub struct StatFields {
    pub utime: u64,
    pub stime: u64,
    pub rss_pages: u64,
}

/// The words of a status line after the process name. The name stands in
/// brackets and may hold anything, so they start after the last closing bracket
/// and the one-byte character that follows it.
pub open spec fn stat_words(content: Seq<char>) -> Option<Seq<Seq<char>>> {
    let end = last_place(content, ')');
    if end < 0 || end + 1 >= content.len() || content[end + 1] > '\u{7f}' {
        None
    } else {
        Some(words(content.skip(end + 2), Class::AsciiSpace))
    }
}

/// The fields of a status line: words 12, 13 and 22 after the process name.
pub open spec fn stat_fields(content: Seq<char>) -> Option<StatFields> {
    match stat_words(content) {
        Some(ws) => if ws.len() > 21 && unsigned(ws[11], u64::MAX as int) is Some && unsigned(
            ws[12],
            u64::MAX as int,
        ) is Some && unsigned(ws[21], u64::MAX as int) is Some {
            Some(
                StatFields {
                    utime: unsigned(ws[11], u64::MAX as int)->0 as u64,
                    stime: unsigned(ws[12], u64::MAX as int)->0 as u64,
                    rss_pages: unsigned(ws[21], u64::MAX as int)->0 as u64,
                },
            )
        } else {
            None
        },
        None => None,
    }
}

/// Ticks used and bytes resident that a status line says.
pub open spec fn stat_usage(content: Seq<char>, page_size: u64) -> Option<(int, int)> {
    match stat_fields(content) {
        Some(f) => Some((f.utime + f.stime, f.rss_pages * page_size)),
        None => None,
    }
}

/// Whether ticks and bytes that a status line says are numbers of 64 bits.
pub open spec fn stat_fits(content: Seq<char>, page_size: u64) -> bool {
    stat_fields(content) matches Some(f) ==> f.utime + f.stime <= u64::MAX && f.rss_pages
        * page_size <= u64::MAX
}

/// The fields of a status line.
pub fn read_stat_fields(content: &str) -> (r: Option<StatFields>)
    ensures
        r == stat_fields(content@),
{
    let chars = to_chars(content);
    match find_last(chars.as_slice(), ')') {
        Some(end) => {
            if end + 1 >= chars.len() || chars[end + 1] > '\u{7f}' {
                return None;
            }
            let after = &chars.as_slice()[end + 2..chars.len()];
            assert(after@ =~= content@.skip(end + 2));
            let ws = split_words(after, Class::AsciiSpace);
            let ghost all = words(after@, Class::AsciiSpace);
            assert(texts(ws@) == all);
            if ws.len() <= 21 {
                assert(all.len() <= 21);
                return None;
            }
            assert(all[11] == ws@[11]@);
            assert(all[12] == ws@[12]@);
            assert(all[21] == ws@[21]@);
            match (parse_u64(ws[11]), parse_u64(ws[12]), parse_u64(ws[21])) {
                (Some(utime), Some(stime), Some(rss_pages)) => Some(
                    StatFields { utime, stime, rss_pages },
                ),
                _ => None,
            }
        },
        None => None,
    }
}

/// Whether ticks and bytes that a status line says are numbers of 64 bits.
pub fn proc_stat_fits(content: &str, page_size: u64) -> (r: bool)
    ensures
        r == stat_fits(content@, page_size),
{
    match read_stat_fields(content) {
        Some(f) => f.utime.checked_add(f.stime).is_some() && f.rss_pages.checked_mul(
            page_size,
        ).is_some(),
        None => true,
    }
}

/// Reads ticks used and bytes resident from the text of a process's status line.
pub fn read_proc_stat(content: &str, page_size: u64) -> (r: Option<(u64, u64)>)
    requires
        stat_fits(content@, page_size),
    ensures
        match r {
            Some((ticks, rss)) => {
                &&& stat_fields(content@) is Some
                &&& ticks == (stat_fields(content@)->0).utime + (stat_fields(content@)->0).stime
                &&& rss == (stat_fields(content@)->0).rss_pages * page_size
            },
            None => stat_fields(content@) is None,
        },
        stat_usage(content@, page_size) == (match r {
            Some((ticks, rss)) => Some((ticks as int, rss as int)),
            None => None,
        }),
{
    match read_stat_fields(content) {
        Some(f) => Some((f.utime + f.stime, f.rss_pages * page_size)),
        None => None,
    }
}

/// The process that an entry is, with its fields: its name must be a process
/// number and its status line readable.
pub open spec fn proc_of(r: ProcReadingView) -> Option<(u32, StatFields)> {
    match (unsigned(r.name, u32::MAX as int), r.stat) {
        (Some(pid), Some(stat)) => match stat_fields(stat) {
            Some(f) => Some((pid as u32, f)),
            None => None,
        },
        _ => None,
    }
}

/// What the processes among the entries have used.
pub open spec fn procs_in(rs: Seq<ProcReadingView>, page_size: u64) -> Seq<ProcSample>
    decreases rs.len(),
{
    if rs.len() == 0 {
        seq![]
    } else {
        match proc_of(rs.last()) {
            Some((pid, f)) => procs_in(rs.drop_last(), page_size).push(
                ProcSample {
                    pid,
                    cpu_ticks: (f.utime + f.stime) as u64,
                    rss_bytes: (f.rss_pages * page_size) as u64,
                },
            ),
            None => procs_in(rs.drop_last(), page_size),
        }
    }
}

/// One open file of a process on a card: memory in KiB, engine time in
/// nanoseconds.
#[derive(Clone, Copy, Debug, PartialEq, Eq)]
pub struct GpuUse {
    pub pid: u32,
    pub vram_kib: u64,
    pub ns: u64,
}

/// The vendor of the last card with this bus address.
pub open spec fn vendor_at(cards: Seq<CardView>, pdev: Seq<char>) -> Option<Vendor>
    decreases cards.len(),
{
    if cards.len() == 0 {
        None
    } else if cards.last().pdev == pdev {
        Some(cards.last().vendor)
    } else {
        vendor_at(cards.drop_last(), pdev)
    }
}

/// What an information file says about the card with this bus address.
pub open spec fn use_of(cards: Seq<CardView>, pdev: Seq<char>, content: Seq<char>) -> Option<
    (u64, u64),
> {
    if fd_pdev(content) == pdev && vendor_at(cards, pdev) is Some {
        fdinfo(vendor_at(cards, pdev)->0, content)
    } else {
        None
    }
}

/// What the open files of one process say about the card.
pub open spec fn uses_of_files(
    cards: Seq<CardView>,
    pdev: Seq<char>,
    pid: u32,
    files: Seq<Seq<char>>,
) -> Seq<GpuUse>
    decreases files.len(),
{
    if files.len() == 0 {
        seq![]
    } else {
        match use_of(cards, pdev, files.last()) {
            Some((vram_kib, ns)) => uses_of_files(cards, pdev, pid, files.drop_last()).push(
                GpuUse { pid, vram_kib, ns },
            ),
            None => uses_of_files(cards, pdev, pid, files.drop_last()),
        }
    }
}

/// Whether some open file leads to a graphics device.
pub open spec fn has_dri(links: Seq<Seq<char>>) -> bool {
    exists|i: int| 0 <= i < links.len() && "/dev/dri/"@.is_prefix_of(#[trigger] links[i])
}

/// What one entry says about the card. Only the files of processes that have a
/// graphics device open count.
pub open spec fn uses_of_proc(
    cards: Seq<CardView>,
    pdev: Seq<char>,
    r: ProcReadingView,
) -> Seq<GpuUse> {
    match proc_of(r) {
        Some((pid, _)) => if has_dri(r.links) {
            uses_of_files(cards, pdev, pid, r.fdinfo)
        } else {
            seq![]
        },
        None => seq![],
    }
}

/// What all entries say about the card.
pub open spec fn uses_in(
    cards: Seq<CardView>,
    pdev: Seq<char>,
    rs: Seq<ProcReadingView>,
) -> Seq<GpuUse>
    decreases rs.len(),
{
    if rs.len() == 0 {
        seq![]
    } else {
        uses_in(cards, pdev, rs.drop_last()) + uses_of_proc(cards, pdev, rs.last())
    }
}

/// What one process uses of a card in all.
pub struct Tally {
    pub pid: u32,
    pub vram_kib: u64,
    pub ns: nat,
}

/// The place of a process among the tallies, or -1.
pub open spec fn tally_place(t: Seq<Tally>, pid: u32) -> int
    decreases t.len(),
{
    if t.len() == 0 {
        -1
    } else if t.last().pid == pid {
        t.len() - 1
    } else {
        tally_place(t.drop_last(), pid)
    }
}

/// One tally per process, in the order in which the processes first occur: the
/// most memory of all its files, and the engine times of all its files together.
pub open spec fn tallies(uses: Seq<GpuUse>) -> Seq<Tally>
    decreases uses.len(),
{
    if uses.len() == 0 {
        seq![]
    } else {
        let t = tallies(uses.drop_last());
        let u = uses.last();
        let k = tally_place(t, u.pid);
        if k < 0 {
            t.push(Tally { pid: u.pid, vram_kib: u.vram_kib, ns: u.ns as nat })
        } else {
            t.update(
                k,
                Tally {
                    pid: u.pid,
                    vram_kib: if t[k].vram_kib >= u.vram_kib {
                        t[k].vram_kib
                    } else {
                        u.vram_kib
                    },
                    ns: t[k].ns + u.ns as nat,
                },
            )
        }
    }
}

/// Whether all engine times are numbers of 64 bits.
pub open spec fn tallies_fit(t: Seq<Tally>) -> bool {
    forall|i: int| 0 <= i < t.len() ==> (#[trigger] t[i]).ns <= u64::MAX
}

/// The tallies as samples.
pub open spec fn tally_samples(t: Seq<Tally>) -> Seq<GpuProcSample> {
    Seq::new(
        t.len(),
        |i: int|
            GpuProcSample {
                pid: t[i].pid,
                vram_kib: t[i].vram_kib,
                engine_gfx_ns: t[i].ns as u64,
            },
    )
}

/// What each process uses of the card with this bus address.
pub open spec fn gpu_procs_in(
    cards: Seq<CardView>,
    pdev: Seq<char>,
    rs: Seq<ProcReadingView>,
) -> Seq<GpuProcSample> {
    tally_samples(tallies(uses_in(cards, pdev, rs)))
}

/// Whether all numbers that the walk computes are numbers of 64 bits.
pub open spec fn walk_fits(
    cards: Seq<CardView>,
    rs: Seq<ProcReadingView>,
    page_size: u64,
) -> bool {
    &&& forall|i: int| #![trigger rs[i]]
        0 <= i < rs.len() && proc_of(rs[i]) is Some ==> stat_fits(rs[i].stat->0, page_size)
    &&& forall|i: int| #![trigger cards[i]]
        0 <= i < cards.len() ==> tallies_fit(tallies(uses_in(cards, cards[i].pdev, rs)))
}

/// The process number that the name of an entry is.
pub fn parse_pid(name: &str) -> (r: Option<u32>)
    ensures
        match r {
            Some(pid) => unsigned(name@, u32::MAX as int) == Some(pid as int),
            None => unsigned(name@, u32::MAX as int) is None,
        },
{
    let chars = to_chars(name);
    parse_u32(chars.as_slice())
}

/// Whether an open file leads to a graphics device.
pub fn is_dri_link(link: &str) -> (r: bool)
    ensures
        r == "/dev/dri/"@.is_prefix_of(link@),
{
    let chars = to_chars(link);
    starts_with(chars.as_slice(), to_chars("/dev/dri/").as_slice())
}

/// Whether some open file leads to a graphics device.
fn any_dri_link(links: &Vec<String>) -> (r: bool)
    ensures
        r == has_dri(strings(links@)),
{
    let ghost all = strings(links@);
    let mut i: usize = 0;
    while i < links.len()
        invariant
            i <= links.len(),
            all == strings(links@),
            forall|j: int| 0 <= j < i ==> !"/dev/dri/"@.is_prefix_of(#[trigger] all[j]),
        decreases links.len() - i,
    {
        assert(all[i as int] == links@[i as int]@);
        if is_dri_link(links[i].as_str()) {
            assert("/dev/dri/"@.is_prefix_of(all[i as int]));
            return true;
        }
        i = i + 1;
    }
    false
}

/// The process that an entry is, with its fields.
fn read_proc(r: &ProcReading) -> (p: Option<(u32, StatFields)>)
    ensures
        p == proc_of(r@),
{
    match (parse_pid(r.name.as_str()), &r.stat) {
        (Some(pid), Some(stat)) => match read_stat_fields(stat.as_str()) {
            Some(f) => Some((pid, f)),
            None => None,
        },
        _ => None,
    }
}

/// The vendor of the last card with this bus address.
fn find_vendor(cards: &[GpuCardMeta], pdev: &String) -> (r: Option<Vendor>)
    ensures
        r == vendor_at(cards_of(cards@), pdev@),
{
    let ghost all = cards_of(cards@);
    let mut i: usize = cards.len();
    assert(all.take(i as int) =~= all);
    while i > 0
        invariant
            i <= cards.len(),
            all == cards_of(cards@),
            vendor_at(all, pdev@) == vendor_at(all.take(i as int), pdev@),
        decreases i,
    {
        assert(all.take(i as int).drop_last() =~= all.take(i - 1));
        assert(all.take(i as int).last() == cards@[i - 1]@);
        if cards[i - 1].pdev == *pdev {
            return Some(cards[i - 1].vendor);
        }
        i = i - 1;
    }
    None
}

/// Collects what the open files of one process say about the card.
fn collect_file_uses(
    cards: &[GpuCardMeta],
    pdev: &String,
    pid: u32,
    files: &Vec<String>,
) -> (r: Vec<GpuUse>)
    ensures
        r@ == uses_of_files(cards_of(cards@), pdev@, pid, strings(files@)),
{
    let ghost cs = cards_of(cards@);
    let ghost all = strings(files@);
    let mut r: Vec<GpuUse> = Vec::new();
    let vendor = find_vendor(cards, pdev);
    let mut i: usize = 0;
    assert(all.take(0) =~= seq![]);
    while i < files.len()
        invariant
            i <= files.len(),
            cs == cards_of(cards@),
            all == strings(files@),
            vendor == vendor_at(cs, pdev@),
            r@ == uses_of_files(cs, pdev@, pid, all.take(i as int)),
        decreases files.len() - i,
    {
        proof {
            assert(all.take(i + 1).drop_last() =~= all.take(i as int));
            assert(all.take(i + 1).last() == files@[i as int]@);
        }
        let content = files[i].as_str();
        if let Some(v) = vendor {
            if parse_fd_pdev(content) == *pdev {
                if let Some((vram_kib, ns)) = parse_fdinfo(&v, content) {
                    r.push(GpuUse { pid, vram_kib, ns });
                }
            }
        }
        i = i + 1;
    }
    assert(all.take(i as int) =~= all);
    r
}

/// Collects what all entries say about the card.
fn collect_uses(
    cards: &[GpuCardMeta],
    pdev: &String,
    readings: &[ProcReading],
) -> (r: Vec<GpuUse>)
    ensures
        r@ == uses_in(cards_of(cards@), pdev@, readings_of(readings@)),
{
    let ghost cs = cards_of(cards@);
    let ghost rs = readings_of(readings@);
    let mut r: Vec<GpuUse> = Vec::new();
    let mut i: usize = 0;
    assert(rs.take(0) =~= seq![]);
    while i < readings.len()
        invariant
            i <= readings.len(),
            cs == cards_of(cards@),
            rs == readings_of(readings@),
            r@ == uses_in(cs, pdev@, rs.take(i as int)),
        decreases readings.len() - i,
    {
        proof {
            assert(rs.take(i + 1).drop_last() =~= rs.take(i as int));
            assert(rs.take(i + 1).last() == readings@[i as int]@);
        }
        let ghost prev = r@;
        if let Some((pid, _)) = read_proc(&readings[i]) {
            if any_dri_link(&readings[i].links) {
                let mut more = collect_file_uses(cards, pdev, pid, &readings[i].fdinfo);
                r.append(&mut more);
            }
        }
        assert(r@ =~= prev + uses_of_proc(cs, pdev@, rs[i as int]));
        i = i + 1;
    }
    assert(rs.take(i as int) =~= rs);
    r
}

/// The tallies never shrink as more uses are added.
proof fn lemma_tallies_grow(uses: Seq<GpuUse>, k: int)
    requires
        0 <= k <= uses.len(),
    ensures
        tallies(uses.take(k)).len() <= tallies(uses).len(),
        forall|i: int|
            0 <= i < tallies(uses.take(k)).len() ==> (#[trigger] tallies(uses.take(k))[i]).ns
                <= tallies(uses)[i].ns,
    decreases uses.len() - k,
{
    if k == uses.len() {
        assert(uses.take(k) =~= uses);
    } else {
        lemma_tallies_grow(uses, k + 1);
        assert(uses.take(k + 1).drop_last() =~= uses.take(k));
        let a = tallies(uses.take(k));
        let b = tallies(uses.take(k + 1));
        assert(uses.take(k + 1).last() == uses[k]);
        lemma_tally_place(a, uses[k].pid);
        assert forall|i: int| 0 <= i < a.len() implies (#[trigger] a[i]).ns <= tallies(uses)[i].ns by {
            assert(a[i].ns <= b[i].ns);
        }
    }
}

/// The place of a process lies within the tallies, and the tally there is its.
pub proof fn lemma_tally_place(t: Seq<Tally>, pid: u32)
    ensures
        -1 <= tally_place(t, pid) < t.len(),
        tally_place(t, pid) >= 0 ==> t[tally_place(t, pid)].pid == pid,
        tally_place(t, pid) < 0 ==> forall|i: int| 0 <= i < t.len() ==> (#[trigger] t[i]).pid != pid,
    decreases t.len(),
{
    if t.len() > 0 && t.last().pid != pid {
        let rest = t.drop_last();
        lemma_tally_place(rest, pid);
        if tally_place(t, pid) < 0 {
            assert forall|i: int| 0 <= i < t.len() implies (#[trigger] t[i]).pid != pid by {
                if i < rest.len() {
                    assert(t[i] == rest[i]);
                }
            }
        }
    }
}

/// The place of a process among the samples.
fn find_sample(samples: &Vec<GpuProcSample>, pid: u32, Ghost(t): Ghost<Seq<Tally>>) -> (r: Option<
    usize,
>)
    requires
        samples@ == tally_samples(t),
    ensures
        match r {
            Some(i) => i < samples@.len() && i == tally_place(t, pid),
            None => tally_place(t, pid) == -1,
        },
{
    let mut i: usize = samples.len();
    assert(t.take(i as int) =~= t);
    while i > 0
        invariant
            i <= samples@.len(),
            samples@ == tally_samples(t),
            tally_place(t, pid) == tally_place(t.take(i as int), pid),
        decreases i,
    {
        assert(t.take(i as int).drop_last() =~= t.take(i - 1));
        assert(samples@[i - 1].pid == t[i - 1].pid);
        if samples[i - 1].pid == pid {
            return Some(i - 1);
        }
        i = i - 1;
    }
    None
}

/// Tallies the uses; `None` where an engine time exceeds 64 bits.
fn tally_uses(uses: &Vec<GpuUse>) -> (r: Option<Vec<GpuProcSample>>)
    ensures
        match r {
            Some(v) => tallies_fit(tallies(uses@)) && v@ == tally_samples(tallies(uses@)),
            None => !tallies_fit(tallies(uses@)),
        },
{
    let mut v: Vec<GpuProcSample> = Vec::new();
    let mut i: usize = 0;
    assert(uses@.take(0) =~= seq![]);
    assert(v@ =~= tally_samples(tallies(uses@.take(0))));
    while i < uses.len()
        invariant
            i <= uses.len(),
            tallies_fit(tallies(uses@.take(i as int))),
            v@ == tally_samples(tallies(uses@.take(i as int))),
        decreases uses.len() - i,
    {
        let ghost t = tallies(uses@.take(i as int));
        let ghost t2 = tallies(uses@.take(i + 1));
        let u = uses[i];
        proof {
            assert(uses@.take(i + 1).drop_last() =~= uses@.take(i as int));
            lemma_tally_place(t, u.pid);
            lemma_tallies_grow(uses@, i + 1);
        }
        match find_sample(&v, u.pid, Ghost(t)) {
            Some(k) => {
                let s = v[k];
                assert(s.engine_gfx_ns == t[k as int].ns);
                if u.ns > u64::MAX - s.engine_gfx_ns {
                    assert(t2[k as int].ns > u64::MAX);
                    assert(tallies(uses@)[k as int].ns > u64::MAX);
                    return None;
                }
                let vram_kib = if s.vram_kib >= u.vram_kib {
                    s.vram_kib
                } else {
                    u.vram_kib
                };
                v.set(
                    k,
                    GpuProcSample { pid: u.pid, vram_kib, engine_gfx_ns: s.engine_gfx_ns + u.ns },
                );
            },
            None => {
                v.push(
                    GpuProcSample { pid: u.pid, vram_kib: u.vram_kib, engine_gfx_ns: u.ns },
                );
            },
        }
        assert(v@ =~= tally_samples(t2));
        i = i + 1;
    }
    assert(uses@.take(i as int) =~= uses@);
    Some(v)
}

/// Whether all numbers that the walk computes are numbers of 64 bits.
pub fn walk_proc_fits(
    cards: &[GpuCardMeta],
    readings: &[ProcReading],
    page_size: u64,
) -> (r: bool)
    ensures
        r == walk_fits(cards_of(cards@), readings_of(readings@), page_size),
{
    let ghost cs = cards_of(cards@);
    let ghost rs = readings_of(readings@);
    let mut i: usize = 0;
    while i < readings.len()
        invariant
            i <= readings.len(),
            rs == readings_of(readings@),
            forall|j: int| #![trigger rs[j]]
                0 <= j < i && proc_of(rs[j]) is Some ==> stat_fits(rs[j].stat->0, page_size),
        decreases readings.len() - i,
    {
        assert(rs[i as int] == readings@[i as int]@);
        if read_proc(&readings[i]).is_some() {
            if let Some(stat) = &readings[i].stat {
                if !proc_stat_fits(stat.as_str(), page_size) {
                    return false;
                }
            }
        }
        i = i + 1;
    }
    let mut k: usize = 0;
    while k < cards.len()
        invariant
            k <= cards.len(),
            cs == cards_of(cards@),
            rs == readings_of(readings@),
            forall|j: int| #![trigger cs[j]]
                0 <= j < k ==> tallies_fit(tallies(uses_in(cs, cs[j].pdev, rs))),
        decreases cards.len() - k,
    {
        assert(cs[k as int] == cards@[k as int]@);
        let uses = collect_uses(cards, &cards[k].pdev, readings);
        if tally_uses(&uses).is_none() {
            return false;
        }
        k = k + 1;
    }
    true
}

/// Lists what the processes among the entries have used.
fn collect_procs(readings: &[ProcReading], page_size: u64) -> (r: Vec<ProcSample>)
    requires
        forall|i: int| #![trigger readings_of(readings@)[i]]
            0 <= i < readings@.len() && proc_of(readings_of(readings@)[i]) is Some ==> stat_fits(
                readings_of(readings@)[i].stat->0,
                page_size,
            ),
    ensures
        r@ == procs_in(readings_of(readings@), page_size),
{
    let ghost rs = readings_of(readings@);
    let mut r: Vec<ProcSample> = Vec::new();
    let mut i: usize = 0;
    assert(rs.take(0) =~= seq![]);
    while i < readings.len()
        invariant
            i <= readings.len(),
            rs == readings_of(readings@),
            forall|j: int| #![trigger rs[j]]
                0 <= j < readings@.len() && proc_of(rs[j]) is Some ==> stat_fits(
                    rs[j].stat->0,
                    page_size,
                ),
            r@ == procs_in(rs.take(i as int), page_size),
        decreases readings.len() - i,
    {
        proof {
            assert(rs.take(i + 1).drop_last() =~= rs.take(i as int));
            assert(rs.take(i + 1).last() == readings@[i as int]@);
            assert(rs[i as int] == readings@[i as int]@);
        }
        if let Some((pid, f)) = read_proc(&readings[i]) {
            r.push(
                ProcSample {
                    pid,
                    cpu_ticks: f.utime + f.stime,
                    rss_bytes: f.rss_pages * page_size,
                },
            );
        }
        i = i + 1;
    }
    assert(rs.take(i as int) =~= rs);
    r
}

/// Lists what the processes among the entries have used, and for each card what
/// each process uses of it.
pub fn walk_proc(
    cards: &[GpuCardMeta],
    readings: &[ProcReading],
    page_size: u64,
) -> (r: (Vec<ProcSample>, Vec<Vec<GpuProcSample>>))
    requires
        walk_fits(cards_of(cards@), readings_of(readings@), page_size),
    ensures
        r.0@ == procs_in(readings_of(readings@), page_size),
        r.1@.len() == cards@.len(),
        forall|i: int|
            0 <= i < cards@.len() ==> (#[trigger] r.1@[i])@ == gpu_procs_in(
                cards_of(cards@),
                cards@[i].pdev@,
                readings_of(readings@),
            ),
{
    let procs = collect_procs(readings, page_size);
    let ghost cs = cards_of(cards@);
    let ghost rs = readings_of(readings@);
    let mut by_card: Vec<Vec<GpuProcSample>> = Vec::new();
    let mut k: usize = 0;
    while k < cards.len()
        invariant
            k <= cards.len(),
            cs == cards_of(cards@),
            rs == readings_of(readings@),
            walk_fits(cs, rs, page_size),
            by_card@.len() == k,
            forall|i: int|
                0 <= i < k ==> (#[trigger] by_card@[i])@ == gpu_procs_in(cs, cards@[i].pdev@, rs),
        decreases cards.len() - k,
    {
        assert(cs[k as int] == cards@[k as int]@);
        let uses = collect_uses(cards, &cards[k].pdev, readings);
        assert(tallies_fit(tallies(uses@)));
        if let Some(v) = tally_uses(&uses) {
            by_card.push(v);
        }
        k = k + 1;
    }
    (procs, by_card)
}

} // verus!
