//! What a sample says of the graphics cards, and what processes use of them.

use vstd::prelude::*;

use super::files::{is_process, lemma_proc_of, spells};
use super::picks::{lemma_places_where, places_where};
use super::texts::law_the_line_with_a_key;
use super::{all_ns, law_tallies, most_vram};
use crate::disk::disk_fits;
use crate::fdinfo::{fd_pdev, fdinfo, fdinfo_value, has_driver, names_driver, Vendor};
use crate::gpu::{
    card_names, card_of, cards_in, discovered, is_card, pdev_of, second_part, stats_of,
    sysfs_value, vendor_of, CardEntryView, CardReadingView, CardView,
};
use crate::number::{signed, unsigned};
use crate::rank::{before, law_ranking_exists, law_ranking_lists_every_row, ranking, word_le};
use crate::request::Request;
use crate::procfs::{mem_fits, sum, tick_fields};
use crate::sample::{gpu_sampled, readings_fit, sampled, ReadingsView};
use crate::text::{
    cut, lemma_run_len, line_with, lines, occurs_in, run_len, trim, words, Class,
};
use crate::walk::{
    gpu_procs_in, has_dri, lemma_tally_place, proc_of, stat_fits, tallies, tallies_fit,
    tally_place, use_of, uses_in, uses_of_files, uses_of_proc, vendor_at, walk_fits,
    GpuProcSample, GpuUse, ProcReadingView,
};

verus! {

/// Whether line `i` is the first that starts with `key`.
pub open spec fn is_first_line(ls: Seq<Seq<char>>, i: int, key: Seq<char>) -> bool {
    &&& 0 <= i < ls.len()
    &&& key.is_prefix_of(ls[i])
    &&& forall|j: int| 0 <= j < i ==> !key.is_prefix_of(#[trigger] ls[j])
}

/// Whether no line starts with `key`.
pub open spec fn no_line(ls: Seq<Seq<char>>, key: Seq<char>) -> bool {
    forall|j: int| 0 <= j < ls.len() ==> !key.is_prefix_of(#[trigger] ls[j])
}

/// Whether `n` is the second word of the first line that starts with `key`; 0
/// where there is no such line.
pub open spec fn says_number(n: u64, ls: Seq<Seq<char>>, key: Seq<char>) -> bool {
    &&& no_line(ls, key) ==> n == 0
    &&& forall|i: int| #[trigger]
        is_first_line(ls, i, key) ==> spells(n, words(ls[i], Class::Space), 1)
}

proof fn lemma_line_with(ls: Seq<Seq<char>>, key: Seq<char>)
    ensures
        no_line(ls, key) <==> line_with(ls, key) is None,
        forall|i: int| #[trigger] is_first_line(ls, i, key) ==> line_with(ls, key) == Some(ls[i]),
    decreases ls.len(),
{
    law_the_line_with_a_key(ls, key);
    if ls.len() > 0 {
        lemma_line_with(ls.skip(1), key);
        if !key.is_prefix_of(ls[0]) && line_with(ls, key) is None {
            assert forall|j: int| 0 <= j < ls.len() implies !key.is_prefix_of(#[trigger] ls[j]) by {
                if j > 0 {
                    assert(ls.skip(1)[j - 1] == ls[j]);
                }
            }
        }
    }
}

/// The number of a key is the second word of the first line that starts with it.
pub proof fn law_the_number_of_a_key(ls: Seq<Seq<char>>, key: Seq<char>)
    ensures
        says_number(fdinfo_value(ls, key), ls, key),
{
    lemma_line_with(ls, key);
}

/// Whether some line names a driver with this part in its name.
pub open spec fn driver_line(ls: Seq<Seq<char>>, part: Seq<char>) -> bool {
    exists|i: int|
        0 <= i < ls.len() && "drm-driver:"@.is_prefix_of(#[trigger] ls[i]) && occurs_in(
            part,
            ls[i],
        )
}

proof fn lemma_driver_line(ls: Seq<Seq<char>>, part: Seq<char>)
    ensures
        has_driver(ls, part) <==> driver_line(ls, part),
{
    if has_driver(ls, part) {
        let i = choose|i: int| 0 <= i < ls.len() && names_driver(#[trigger] ls[i], part);
        assert("drm-driver:"@.is_prefix_of(ls[i]));
    }
    if driver_line(ls, part) {
        let i = choose|i: int|
            0 <= i < ls.len() && "drm-driver:"@.is_prefix_of(#[trigger] ls[i]) && occurs_in(
                part,
                ls[i],
            );
        assert(names_driver(ls[i], part));
    }
}

/// The information file of an AMD device names its driver, and says card memory
/// and the time of the graphics engine.
pub proof fn law_amd_files(content: Seq<char>)
    ensures
        fdinfo(Vendor::Amd, content) is Some <==> driver_line(lines(content), "amdgpu"@),
        fdinfo(Vendor::Amd, content) matches Some((kib, ns)) ==> says_number(
            kib,
            lines(content),
            "drm-memory-vram:"@,
        ) && says_number(ns, lines(content), "drm-engine-gfx:"@),
{
    let ls = lines(content);
    lemma_driver_line(ls, "amdgpu"@);
    law_the_number_of_a_key(ls, "drm-memory-vram:"@);
    law_the_number_of_a_key(ls, "drm-engine-gfx:"@);
}

/// The information file of an NVIDIA device names its driver, and says device
/// memory and the time of the graphics engine; where it says nothing of that
/// engine, that of the compute engine.
pub proof fn law_nvidia_files(content: Seq<char>)
    ensures
        fdinfo(Vendor::Nvidia, content) is Some <==> driver_line(lines(content), "nvidia"@),
        fdinfo(Vendor::Nvidia, content) matches Some((kib, ns)) ==> {
            &&& says_number(kib, lines(content), "drm-memory-device:"@)
            &&& !no_line(lines(content), "drm-engine-graphics:"@) ==> says_number(
                ns,
                lines(content),
                "drm-engine-graphics:"@,
            )
            &&& no_line(lines(content), "drm-engine-graphics:"@) ==> says_number(
                ns,
                lines(content),
                "drm-engine-compute:"@,
            )
        },
{
    let ls = lines(content);
    lemma_driver_line(ls, "nvidia"@);
    law_the_number_of_a_key(ls, "drm-memory-device:"@);
    law_the_number_of_a_key(ls, "drm-engine-graphics:"@);
    law_the_number_of_a_key(ls, "drm-engine-compute:"@);
    lemma_line_with(ls, "drm-engine-graphics:"@);
}

/// The information file of an Intel device names one of its two drivers, and says
/// device memory and the time of the render engine; where it says no device
/// memory, system memory.
pub proof fn law_intel_files(content: Seq<char>)
    ensures
        fdinfo(Vendor::Intel, content) is Some <==> driver_line(lines(content), "i915"@)
            || driver_line(lines(content), "xe"@),
        fdinfo(Vendor::Intel, content) matches Some((kib, ns)) ==> {
            &&& forall|d: u64| #[trigger]
                says_number(d, lines(content), "drm-memory-device:"@) && d > 0 ==> kib == d
            &&& says_number(0, lines(content), "drm-memory-device:"@) ==> says_number(
                kib,
                lines(content),
                "drm-memory-system:"@,
            )
            &&& says_number(ns, lines(content), "drm-engine-render:"@)
        },
{
    let ls = lines(content);
    lemma_driver_line(ls, "i915"@);
    lemma_driver_line(ls, "xe"@);
    law_the_number_of_a_key(ls, "drm-memory-device:"@);
    law_the_number_of_a_key(ls, "drm-memory-system:"@);
    law_the_number_of_a_key(ls, "drm-engine-render:"@);
    assert forall|d: u64| #[trigger] says_number(d, ls, "drm-memory-device:"@) implies d
        == fdinfo_value(ls, "drm-memory-device:"@) by {
        lemma_one_number(ls, "drm-memory-device:"@, d);
    }
}

proof fn lemma_one_number(ls: Seq<Seq<char>>, key: Seq<char>, d: u64)
    requires
        says_number(d, ls, key),
    ensures
        d == fdinfo_value(ls, key),
{
    law_the_number_of_a_key(ls, key);
    if !no_line(ls, key) {
        lemma_first_line(ls, key);
        let i = choose|i: int| is_first_line(ls, i, key);
        assert(spells(d, words(ls[i], Class::Space), 1));
        assert(spells(fdinfo_value(ls, key), words(ls[i], Class::Space), 1));
    }
}

proof fn lemma_first_line(ls: Seq<Seq<char>>, key: Seq<char>)
    requires
        !no_line(ls, key),
    ensures
        exists|i: int| is_first_line(ls, i, key),
    decreases ls.len(),
{
    let j = choose|j: int| 0 <= j < ls.len() && key.is_prefix_of(#[trigger] ls[j]);
    if key.is_prefix_of(ls[0]) {
        assert(is_first_line(ls, 0, key));
    } else {
        let rest = ls.skip(1);
        assert(rest[j - 1] == ls[j]);
        lemma_first_line(rest, key);
        let i = choose|i: int| is_first_line(rest, i, key);
        assert(is_first_line(ls, i + 1, key)) by {
            assert(rest[i] == ls[i + 1]);
            assert forall|k: int| 0 <= k < i + 1 implies !key.is_prefix_of(#[trigger] ls[k]) by {
                if k > 0 {
                    assert(rest[k - 1] == ls[k]);
                }
            }
        }
    }
}

/// The bus address of an information file is the second word of its first line
/// about it, and empty where there is none.
pub proof fn law_the_bus_address_of_a_file(content: Seq<char>)
    ensures
        no_line(lines(content), "drm-pdev:"@) ==> fd_pdev(content).len() == 0,
        forall|i: int| #[trigger]
            is_first_line(lines(content), i, "drm-pdev:"@) ==> {
                let ws = words(lines(content)[i], Class::Space);
                &&& ws.len() >= 2 ==> fd_pdev(content) == ws[1]
                &&& ws.len() < 2 ==> fd_pdev(content).len() == 0
            },
{
    lemma_line_with(lines(content), "drm-pdev:"@);
}

/// Whether an entry is a process that has a graphics device open.
pub open spec fn has_device_open(x: ProcReadingView) -> bool {
    is_process(x) && exists|l: int|
        0 <= l < x.links.len() && "/dev/dri/"@.is_prefix_of(#[trigger] x.links[l])
}

/// What an information file says of the card with this bus address and vendor, if
/// it is about that card and its driver is the vendor's.
pub open spec fn says_of_card(
    content: Seq<char>,
    pdev: Seq<char>,
    vendor: Vendor,
) -> Option<(u64, u64)> {
    if fd_pdev(content) == pdev {
        fdinfo(vendor, content)
    } else {
        None
    }
}

/// Whether file `f` of entry `x` counts for the card.
pub open spec fn is_use(
    xs: Seq<ProcReadingView>,
    x: int,
    f: int,
    pdev: Seq<char>,
    vendor: Vendor,
) -> bool {
    &&& 0 <= x < xs.len()
    &&& has_device_open(xs[x])
    &&& 0 <= f < xs[x].fdinfo.len()
    &&& says_of_card(xs[x].fdinfo[f], pdev, vendor) is Some
}

/// The process number of an entry.
pub open spec fn pid_of(x: ProcReadingView) -> int {
    unsigned(x.name, 0xffff_ffff)->0
}

/// The engine times that the files say of the card, together.
pub open spec fn files_time(files: Seq<Seq<char>>, pdev: Seq<char>, vendor: Vendor) -> int
    decreases files.len(),
{
    if files.len() == 0 {
        0
    } else {
        files_time(files.drop_last(), pdev, vendor) + match says_of_card(
            files.last(),
            pdev,
            vendor,
        ) {
            Some((_, ns)) => ns as int,
            None => 0,
        }
    }
}

/// The engine times that all files of a process say of the card, together.
pub open spec fn proc_time(
    xs: Seq<ProcReadingView>,
    pid: u32,
    pdev: Seq<char>,
    vendor: Vendor,
) -> int
    decreases xs.len(),
{
    if xs.len() == 0 {
        0
    } else {
        proc_time(xs.drop_last(), pid, pdev, vendor) + if has_device_open(xs.last()) && pid_of(
            xs.last(),
        ) == pid {
            files_time(xs.last().fdinfo, pdev, vendor)
        } else {
            0
        }
    }
}

/// Whether the card at `j` is the last with this bus address.
pub open spec fn is_last_card(cards: Seq<CardView>, j: int, pdev: Seq<char>) -> bool {
    &&& 0 <= j < cards.len()
    &&& cards[j].pdev == pdev
    &&& forall|k: int| j < k < cards.len() ==> (#[trigger] cards[k]).pdev != pdev
}

proof fn lemma_vendor_at(cards: Seq<CardView>, j: int, pdev: Seq<char>)
    requires
        is_last_card(cards, j, pdev),
    ensures
        vendor_at(cards, pdev) == Some(cards[j].vendor),
    decreases cards.len(),
{
    if j < cards.len() - 1 {
        let rest = cards.drop_last();
        assert(cards[cards.len() - 1].pdev != pdev);
        assert(is_last_card(rest, j, pdev)) by {
            assert forall|k: int| j < k < rest.len() implies (#[trigger] rest[k]).pdev != pdev by {
                assert(cards[k].pdev != pdev);
            }
        }
        lemma_vendor_at(rest, j, pdev);
    }
}

proof fn lemma_all_ns_split(a: Seq<GpuUse>, b: Seq<GpuUse>, pid: u32)
    ensures
        all_ns(a + b, pid) == all_ns(a, pid) + all_ns(b, pid),
    decreases b.len(),
{
    if b.len() == 0 {
        assert(a + b =~= a);
    } else {
        assert((a + b).drop_last() =~= a + b.drop_last());
        lemma_all_ns_split(a, b.drop_last(), pid);
    }
}

proof fn lemma_files_time(
    cards: Seq<CardView>,
    pdev: Seq<char>,
    vendor: Vendor,
    pid: u32,
    files: Seq<Seq<char>>,
    other: u32,
)
    requires
        vendor_at(cards, pdev) == Some(vendor),
    ensures
        all_ns(uses_of_files(cards, pdev, pid, files), other) == (if other == pid {
            files_time(files, pdev, vendor)
        } else {
            0
        }),
    decreases files.len(),
{
    if files.len() > 0 {
        let rest = files.drop_last();
        lemma_files_time(cards, pdev, vendor, pid, rest, other);
        let last = files.last();
        assert(use_of(cards, pdev, last) == says_of_card(last, pdev, vendor));
        if says_of_card(last, pdev, vendor) is Some {
            assert(uses_of_files(cards, pdev, pid, files).drop_last() =~= uses_of_files(
                cards,
                pdev,
                pid,
                rest,
            ));
        }
    }
}

proof fn lemma_use_has_file(
    cards: Seq<CardView>,
    pdev: Seq<char>,
    vendor: Vendor,
    pid: u32,
    files: Seq<Seq<char>>,
    k: int,
) -> (f: int)
    requires
        vendor_at(cards, pdev) == Some(vendor),
        0 <= k < uses_of_files(cards, pdev, pid, files).len(),
    ensures
        0 <= f < files.len(),
        uses_of_files(cards, pdev, pid, files)[k].pid == pid,
        says_of_card(files[f], pdev, vendor) == Some(
            (
                uses_of_files(cards, pdev, pid, files)[k].vram_kib,
                uses_of_files(cards, pdev, pid, files)[k].ns,
            ),
        ),
    decreases files.len(),
{
    let rest = files.drop_last();
    let a = uses_of_files(cards, pdev, pid, rest);
    assert(use_of(cards, pdev, files.last()) == says_of_card(files.last(), pdev, vendor));
    if k < a.len() {
        let f = lemma_use_has_file(cards, pdev, vendor, pid, rest, k);
        assert(rest[f] == files[f]);
        assert(uses_of_files(cards, pdev, pid, files)[k] == a[k]);
        f
    } else {
        files.len() - 1
    }
}

proof fn lemma_file_has_use(
    cards: Seq<CardView>,
    pdev: Seq<char>,
    vendor: Vendor,
    pid: u32,
    files: Seq<Seq<char>>,
    f: int,
) -> (k: int)
    requires
        vendor_at(cards, pdev) == Some(vendor),
        0 <= f < files.len(),
        says_of_card(files[f], pdev, vendor) is Some,
    ensures
        0 <= k < uses_of_files(cards, pdev, pid, files).len(),
        uses_of_files(cards, pdev, pid, files)[k].pid == pid,
        says_of_card(files[f], pdev, vendor) == Some(
            (
                uses_of_files(cards, pdev, pid, files)[k].vram_kib,
                uses_of_files(cards, pdev, pid, files)[k].ns,
            ),
        ),
    decreases files.len(),
{
    let rest = files.drop_last();
    let a = uses_of_files(cards, pdev, pid, rest);
    assert(use_of(cards, pdev, files.last()) == says_of_card(files.last(), pdev, vendor));
    if f < rest.len() {
        assert(rest[f] == files[f]);
        let k = lemma_file_has_use(cards, pdev, vendor, pid, rest, f);
        assert(uses_of_files(cards, pdev, pid, files)[k] == a[k]);
        k
    } else {
        a.len() as int
    }
}

/// Whether a use is what file `f` of entry `x` says.
pub open spec fn is_use_of(
    u: GpuUse,
    xs: Seq<ProcReadingView>,
    x: int,
    f: int,
    pdev: Seq<char>,
    vendor: Vendor,
) -> bool {
    &&& is_use(xs, x, f, pdev, vendor)
    &&& u.pid == pid_of(xs[x])
    &&& says_of_card(xs[x].fdinfo[f], pdev, vendor) == Some((u.vram_kib, u.ns))
}

proof fn lemma_uses_of_proc(cards: Seq<CardView>, pdev: Seq<char>, x: ProcReadingView)
    ensures
        uses_of_proc(cards, pdev, x) == (if has_device_open(x) {
            uses_of_files(cards, pdev, pid_of(x) as u32, x.fdinfo)
        } else {
            seq![]
        }),
        is_process(x) ==> 0 <= pid_of(x) <= u32::MAX,
{
    lemma_proc_of(x);
    assert(has_dri(x.links) <==> exists|l: int|
        0 <= l < x.links.len() && "/dev/dri/"@.is_prefix_of(#[trigger] x.links[l]));
}

proof fn lemma_proc_time(
    cards: Seq<CardView>,
    pdev: Seq<char>,
    vendor: Vendor,
    xs: Seq<ProcReadingView>,
    pid: u32,
)
    requires
        vendor_at(cards, pdev) == Some(vendor),
    ensures
        all_ns(uses_in(cards, pdev, xs), pid) == proc_time(xs, pid, pdev, vendor),
    decreases xs.len(),
{
    if xs.len() > 0 {
        let rest = xs.drop_last();
        let x = xs.last();
        lemma_proc_time(cards, pdev, vendor, rest, pid);
        lemma_uses_of_proc(cards, pdev, x);
        lemma_all_ns_split(uses_in(cards, pdev, rest), uses_of_proc(cards, pdev, x), pid);
        lemma_files_time(cards, pdev, vendor, pid_of(x) as u32, x.fdinfo, pid);
    }
}

proof fn lemma_use_has_place(
    cards: Seq<CardView>,
    pdev: Seq<char>,
    vendor: Vendor,
    xs: Seq<ProcReadingView>,
    k: int,
) -> (xf: (int, int))
    requires
        vendor_at(cards, pdev) == Some(vendor),
        0 <= k < uses_in(cards, pdev, xs).len(),
    ensures
        is_use_of(uses_in(cards, pdev, xs)[k], xs, xf.0, xf.1, pdev, vendor),
    decreases xs.len(),
{
    let rest = xs.drop_last();
    let x = xs.last();
    let a = uses_in(cards, pdev, rest);
    let b = uses_of_proc(cards, pdev, x);
    lemma_uses_of_proc(cards, pdev, x);
    if k < a.len() {
        let (y, f) = lemma_use_has_place(cards, pdev, vendor, rest, k);
        assert(rest[y] == xs[y]);
        assert(uses_in(cards, pdev, xs)[k] == a[k]);
        (y, f)
    } else {
        assert(uses_in(cards, pdev, xs)[k] == b[k - a.len()]);
        let f = lemma_use_has_file(
            cards,
            pdev,
            vendor,
            pid_of(x) as u32,
            x.fdinfo,
            k - a.len(),
        );
        (xs.len() - 1, f)
    }
}

proof fn lemma_place_has_use(
    cards: Seq<CardView>,
    pdev: Seq<char>,
    vendor: Vendor,
    xs: Seq<ProcReadingView>,
    x: int,
    f: int,
) -> (k: int)
    requires
        vendor_at(cards, pdev) == Some(vendor),
        is_use(xs, x, f, pdev, vendor),
    ensures
        0 <= k < uses_in(cards, pdev, xs).len(),
        is_use_of(uses_in(cards, pdev, xs)[k], xs, x, f, pdev, vendor),
    decreases xs.len(),
{
    let rest = xs.drop_last();
    let a = uses_in(cards, pdev, rest);
    if x < rest.len() {
        assert(rest[x] == xs[x]);
        let k = lemma_place_has_use(cards, pdev, vendor, rest, x, f);
        assert(uses_in(cards, pdev, xs)[k] == a[k]);
        k
    } else {
        let last = xs.last();
        lemma_uses_of_proc(cards, pdev, last);
        let k = lemma_file_has_use(cards, pdev, vendor, pid_of(last) as u32, last.fdinfo, f);
        assert(uses_in(cards, pdev, xs)[a.len() + k] == uses_of_proc(cards, pdev, last)[k]);
        a.len() + k
    }
}

proof fn lemma_most_vram(uses: Seq<GpuUse>, pid: u32)
    ensures
        forall|k: int|
            0 <= k < uses.len() && (#[trigger] uses[k]).pid == pid ==> uses[k].vram_kib
                <= most_vram(uses, pid),
        (exists|k: int| 0 <= k < uses.len() && (#[trigger] uses[k]).pid == pid) ==> exists|k: int|
            0 <= k < uses.len() && (#[trigger] uses[k]).pid == pid && uses[k].vram_kib == most_vram(
                uses,
                pid,
            ),
    decreases uses.len(),
{
    if uses.len() > 0 {
        let rest = uses.drop_last();
        lemma_most_vram(rest, pid);
        assert(uses[uses.len() - 1] == uses.last());
        assert forall|k: int| 0 <= k < uses.len() && (#[trigger] uses[k]).pid == pid implies
            uses[k].vram_kib <= most_vram(uses, pid) by {
            if k < rest.len() {
                assert(rest[k] == uses[k]);
            }
        }
        if exists|k: int| 0 <= k < uses.len() && (#[trigger] uses[k]).pid == pid {
            if uses.last().pid == pid && uses.last().vram_kib >= most_vram(rest, pid) {
                assert(uses[uses.len() - 1].vram_kib == most_vram(uses, pid));
            } else {
                let j = choose|j: int| 0 <= j < uses.len() && (#[trigger] uses[j]).pid == pid;
                if j < rest.len() {
                    assert(rest[j].pid == pid);
                } else {
                    assert(most_vram(rest, pid) > 0);
                    lemma_some_use(rest, pid);
                }
                let k = choose|k: int|
                    0 <= k < rest.len() && (#[trigger] rest[k]).pid == pid && rest[k].vram_kib
                        == most_vram(rest, pid);
                assert(uses[k] == rest[k]);
            }
        }
    }
}

proof fn lemma_some_use(uses: Seq<GpuUse>, pid: u32)
    requires
        most_vram(uses, pid) > 0,
    ensures
        exists|k: int| 0 <= k < uses.len() && (#[trigger] uses[k]).pid == pid,
    decreases uses.len(),
{
    if uses.len() > 0 {
        if uses.last().pid == pid {
            assert(uses[uses.len() - 1].pid == pid);
        } else {
            lemma_some_use(uses.drop_last(), pid);
            let k = choose|k: int|
                0 <= k < uses.drop_last().len() && (#[trigger] uses.drop_last()[k]).pid == pid;
            assert(uses[k].pid == pid);
        }
    }
}

/// Whether a process has a file that counts for the card and says as much memory
/// as the sample of the process.
#[verifier::opaque]
pub open spec fn has_use(
    p: GpuProcSample,
    xs: Seq<ProcReadingView>,
    pdev: Seq<char>,
    vendor: Vendor,
) -> bool {
    exists|x: int, f: int|
        {
            &&& #[trigger] is_use(xs, x, f, pdev, vendor)
            &&& p.pid == pid_of(xs[x])
            &&& p.vram_kib == (says_of_card(xs[x].fdinfo[f], pdev, vendor)->0).0
        }
}

/// Whether the process of each file that counts for the card is listed, with no
/// less memory than the file says.
#[verifier::opaque]
pub open spec fn uses_have_procs(
    xs: Seq<ProcReadingView>,
    ps: Seq<GpuProcSample>,
    pdev: Seq<char>,
    vendor: Vendor,
) -> bool {
    forall|x: int, f: int| #[trigger]
        is_use(xs, x, f, pdev, vendor) ==> exists|a: int|
            {
                &&& 0 <= a < ps.len()
                &&& (#[trigger] ps[a]).pid == pid_of(xs[x])
                &&& ps[a].vram_kib >= (says_of_card(xs[x].fdinfo[f], pdev, vendor)->0).0
            }
}

/// Whether the processes are those that use the card with this bus address and
/// vendor, each once: with the most memory that any of its files says, and the
/// engine times of all its files together, where these are a number of 64 bits.
pub open spec fn lists_card_procs(
    ps: Seq<GpuProcSample>,
    xs: Seq<ProcReadingView>,
    pdev: Seq<char>,
    vendor: Vendor,
) -> bool {
    &&& forall|a: int, b: int|
        0 <= a < b < ps.len() ==> (#[trigger] ps[a]).pid != (#[trigger] ps[b]).pid
    &&& forall|a: int| 0 <= a < ps.len() ==> has_use(#[trigger] ps[a], xs, pdev, vendor)
    &&& uses_have_procs(xs, ps, pdev, vendor)
    &&& forall|a: int|
        0 <= a < ps.len() && proc_time(xs, (#[trigger] ps[a]).pid, pdev, vendor) <= u64::MAX
            ==> ps[a].engine_gfx_ns == proc_time(xs, ps[a].pid, pdev, vendor)
}

proof fn lemma_has_use(
    cards: Seq<CardView>,
    pdev: Seq<char>,
    vendor: Vendor,
    xs: Seq<ProcReadingView>,
    a: int,
)
    requires
        vendor_at(cards, pdev) == Some(vendor),
        0 <= a < gpu_procs_in(cards, pdev, xs).len(),
    ensures
        has_use(gpu_procs_in(cards, pdev, xs)[a], xs, pdev, vendor),
{
    reveal(has_use);
    let uses = uses_in(cards, pdev, xs);
    let pid = tallies(uses)[a].pid;
    law_tallies(uses);
    lemma_most_vram(uses, pid);
    let k = choose|k: int|
        0 <= k < uses.len() && (#[trigger] uses[k]).pid == pid && uses[k].vram_kib == most_vram(
            uses,
            pid,
        );
    let (x, f) = lemma_use_has_place(cards, pdev, vendor, xs, k);
    assert(is_use(xs, x, f, pdev, vendor));
}

proof fn lemma_uses_have_procs(
    cards: Seq<CardView>,
    pdev: Seq<char>,
    vendor: Vendor,
    xs: Seq<ProcReadingView>,
)
    requires
        vendor_at(cards, pdev) == Some(vendor),
    ensures
        uses_have_procs(xs, gpu_procs_in(cards, pdev, xs), pdev, vendor),
{
    reveal(uses_have_procs);
    let ps = gpu_procs_in(cards, pdev, xs);
    let uses = uses_in(cards, pdev, xs);
    let t = tallies(uses);
    law_tallies(uses);
    assert forall|x: int, f: int| #[trigger] is_use(xs, x, f, pdev, vendor) implies exists|a: int|
        {
            &&& 0 <= a < ps.len()
            &&& (#[trigger] ps[a]).pid == pid_of(xs[x])
            &&& ps[a].vram_kib >= (says_of_card(xs[x].fdinfo[f], pdev, vendor)->0).0
        } by {
        let k = lemma_place_has_use(cards, pdev, vendor, xs, x, f);
        let pid = uses[k].pid;
        let a = tally_place(t, pid);
        lemma_tally_place(t, pid);
        lemma_most_vram(uses, pid);
        assert(t[a].vram_kib == most_vram(uses, pid));
        assert(ps[a].pid == pid);
    }
}

/// The processes of the sample of a card are those that have a graphics device
/// open and an information file with the card's own bus address and a driver of
/// its vendor, each once: with the most memory that any of these files says, and
/// their engine times together. The vendor is that of the last card with the
/// address.
pub proof fn law_processes_of_a_card(
    cards: Seq<CardView>,
    req: Request,
    r: ReadingsView,
    i: int,
    j: int,
)
    requires
        req.gpu,
        req.procs,
        0 <= i < cards.len(),
        is_last_card(cards, j, cards[i].pdev),
    ensures
        lists_card_procs(
            sampled(cards, req, r).gpus[i].procs,
            r.procs,
            cards[i].pdev,
            cards[j].vendor,
        ),
{
    let (pdev, vendor) = (cards[i].pdev, cards[j].vendor);
    let ps = sampled(cards, req, r).gpus[i].procs;
    let uses = uses_in(cards, pdev, r.procs);
    let t = tallies(uses);
    assert(sampled(cards, req, r).gpus[i] == gpu_sampled(cards, req, r, i));
    assert(ps == gpu_procs_in(cards, pdev, r.procs));
    lemma_vendor_at(cards, j, pdev);
    lemma_uses_have_procs(cards, pdev, vendor, r.procs);
    law_tallies(uses);
    assert forall|a: int, b: int| 0 <= a < b < ps.len() implies (#[trigger] ps[a]).pid != (
    #[trigger] ps[b]).pid by {
        assert(t[a].pid != t[b].pid);
    }
    assert forall|a: int| 0 <= a < ps.len() implies has_use(
        #[trigger] ps[a],
        r.procs,
        pdev,
        vendor,
    ) by {
        lemma_has_use(cards, pdev, vendor, r.procs, a);
    }
    assert forall|a: int|
        0 <= a < ps.len() && proc_time(r.procs, (#[trigger] ps[a]).pid, pdev, vendor) <= u64::MAX
        implies ps[a].engine_gfx_ns == proc_time(r.procs, ps[a].pid, pdev, vendor) by {
        assert(t[a].ns == all_ns(uses, t[a].pid));
        lemma_proc_time(cards, pdev, vendor, r.procs, t[a].pid);
    }
}

/// A process all of whose information files name another bus address is not in
/// the list of the card.
pub proof fn law_processes_of_other_cards(
    cards: Seq<CardView>,
    req: Request,
    r: ReadingsView,
    i: int,
    j: int,
    pid: u32,
)
    requires
        req.gpu,
        req.procs,
        0 <= i < cards.len(),
        is_last_card(cards, j, cards[i].pdev),
        forall|x: int, f: int| #![trigger r.procs[x].fdinfo[f]]
            0 <= x < r.procs.len() && 0 <= f < r.procs[x].fdinfo.len() && pid_of(r.procs[x]) == pid
                ==> fd_pdev(r.procs[x].fdinfo[f]) != cards[i].pdev,
    ensures
        forall|a: int|
            0 <= a < sampled(cards, req, r).gpus[i].procs.len() ==> (#[trigger] sampled(
                cards,
                req,
                r,
            ).gpus[i].procs[a]).pid != pid,
{
    law_processes_of_a_card(cards, req, r, i, j);
    reveal(has_use);
    let ps = sampled(cards, req, r).gpus[i].procs;
    assert forall|a: int| 0 <= a < ps.len() implies (#[trigger] ps[a]).pid != pid by {
        let (x, f) = choose|x: int, f: int|
            {
                &&& #[trigger] is_use(r.procs, x, f, cards[i].pdev, cards[j].vendor)
                &&& ps[a].pid == pid_of(r.procs[x])
                &&& ps[a].vram_kib == (says_of_card(
                    r.procs[x].fdinfo[f],
                    cards[i].pdev,
                    cards[j].vendor,
                )->0).0
            };
        assert(fd_pdev(r.procs[x].fdinfo[f]) == cards[i].pdev);
    }
}

/// What processes use of a card can be read exactly if the engine time of each
/// is a number of 64 bits.
pub proof fn law_engine_times_that_fit(
    cards: Seq<CardView>,
    xs: Seq<ProcReadingView>,
    pdev: Seq<char>,
    j: int,
)
    requires
        is_last_card(cards, j, pdev),
    ensures
        tallies_fit(tallies(uses_in(cards, pdev, xs))) <==> forall|pid: u32| #[trigger]
            proc_time(xs, pid, pdev, cards[j].vendor) <= u64::MAX,
{
    let uses = uses_in(cards, pdev, xs);
    let t = tallies(uses);
    lemma_vendor_at(cards, j, pdev);
    law_tallies(uses);
    if tallies_fit(t) {
        assert forall|pid: u32| #[trigger] proc_time(xs, pid, pdev, cards[j].vendor)
            <= u64::MAX by {
            let k = tally_place(t, pid);
            lemma_tally_place(t, pid);
            lemma_proc_time(cards, pdev, cards[j].vendor, xs, pid);
            if k >= 0 {
                assert(t[k].ns <= u64::MAX);
            }
        }
    }
    if forall|pid: u32| #[trigger] proc_time(xs, pid, pdev, cards[j].vendor) <= u64::MAX {
        assert forall|k: int| 0 <= k < t.len() implies (#[trigger] t[k]).ns <= u64::MAX by {
            assert(proc_time(xs, t[k].pid, pdev, cards[j].vendor) <= u64::MAX);
            lemma_proc_time(cards, pdev, cards[j].vendor, xs, t[k].pid);
        }
    }
}

/// The walk can be made exactly if each process's status line can be read, and
/// what all processes use of each card.
pub proof fn law_walks_that_fit(
    cards: Seq<CardView>,
    xs: Seq<ProcReadingView>,
    page_size: u64,
)
    ensures
        walk_fits(cards, xs, page_size) <==> {
            &&& forall|x: int|
                0 <= x < xs.len() && is_process(#[trigger] xs[x]) ==> stat_fits(
                    xs[x].stat->0,
                    page_size,
                )
            &&& forall|i: int|
                0 <= i < cards.len() ==> tallies_fit(
                    tallies(uses_in(cards, (#[trigger] cards[i]).pdev, xs)),
                )
        },
{
    assert forall|x: int| 0 <= x < xs.len() implies (proc_of(#[trigger] xs[x]) is Some
        <==> is_process(xs[x])) by {
        lemma_proc_of(xs[x]);
    }
}

/// What is asked for can be sampled exactly if each part of it can be read; for
/// cards that are not asked for nothing is read of what processes use of them.
pub proof fn law_what_can_be_sampled(cards: Seq<CardView>, req: Request, r: ReadingsView)
    ensures
        readings_fit(cards, req, r) <==> {
            &&& req.cpu ==> sum(tick_fields(r.stat)) <= u64::MAX
            &&& req.mem ==> mem_fits(r.meminfo)
            &&& req.disk ==> disk_fits(r.diskstats)
            &&& req.procs && req.gpu ==> walk_fits(cards, r.procs, r.page_size)
            &&& req.procs && !req.gpu ==> walk_fits(seq![], r.procs, r.page_size)
        },
{
}

/// Whether `n` is the number that a number file says; 0 where it says none of 64
/// bits.
pub open spec fn is_file_number(n: int, content: Seq<char>) -> bool {
    match unsigned(trim(content), 0xffff_ffff_ffff_ffff) {
        Some(m) => n == m,
        None => n == 0,
    }
}

/// Whether temperature and power are what the sensor files say: degrees in
/// thousandths as they stand, and watts in thousandths of what stands there in
/// millionths, rounded down.
pub open spec fn shows_sensors(temp_mc: i32, power_mw: u32, r: CardReadingView) -> bool {
    &&& match signed(trim(r.temp), 0x7fff_ffff) {
        Some(t) => temp_mc == t,
        None => temp_mc == 0,
    }
    &&& forall|p: int| #[trigger]
        is_file_number(p, r.power) ==> {
            &&& p < 4_294_967_296_000 ==> power_mw * 1000 <= p < (power_mw + 1) * 1000
            &&& power_mw == (p / 1000) % 4_294_967_296
        }
}

/// A sample has each card in its place, with its name and what its sensors say.
pub proof fn law_each_card_is_sampled(
    cards: Seq<CardView>,
    req: Request,
    r: ReadingsView,
    i: int,
)
    requires
        req.gpu,
        0 <= i < cards.len(),
    ensures
        sampled(cards, req, r).gpus.len() == cards.len(),
        sampled(cards, req, r).gpus[i].card == cards[i].card,
        !req.procs ==> sampled(cards, req, r).gpus[i].procs.len() == 0,
        shows_sensors(
            sampled(cards, req, r).gpus[i].stats.temp_mc,
            sampled(cards, req, r).gpus[i].stats.power_mw,
            r.cards[i],
        ),
{
    assert(sampled(cards, req, r).gpus[i] == gpu_sampled(cards, req, r, i));
    let s = stats_of(cards[i].vendor, r.cards[i]);
    let power = r.cards[i].power;
    assert forall|p: int| #[trigger] is_file_number(p, power) implies {
        &&& p < 4_294_967_296_000 ==> s.power_mw * 1000 <= p < (s.power_mw + 1) * 1000
        &&& s.power_mw == (p / 1000) % 4_294_967_296
    } by {
        assert(p == sysfs_value(power));
    }
}

/// The load and the memory of a card are those in its own files; an Intel card
/// does not say its load.
pub proof fn law_files_of_a_card(cards: Seq<CardView>, req: Request, r: ReadingsView, i: int)
    requires
        req.gpu,
        0 <= i < cards.len(),
        cards[i].vendor is Amd || cards[i].vendor is Intel,
    ensures
        is_file_number(
            sampled(cards, req, r).gpus[i].stats.vram_used as int,
            r.cards[i].vram_used,
        ),
        is_file_number(
            sampled(cards, req, r).gpus[i].stats.vram_total as int,
            r.cards[i].vram_total,
        ),
        cards[i].vendor is Intel ==> sampled(cards, req, r).gpus[i].stats.busy == 0,
        cards[i].vendor is Amd ==> forall|b: int| #[trigger]
            is_file_number(b, r.cards[i].busy) ==> sampled(cards, req, r).gpus[i].stats.busy == b
                % 256,
{
    assert(sampled(cards, req, r).gpus[i] == gpu_sampled(cards, req, r, i));
    assert forall|b: int| #[trigger] is_file_number(b, r.cards[i].busy) implies b == sysfs_value(
        r.cards[i].busy,
    ) by {
    }
}

/// The load and the memory of an NVIDIA card are what its library answers, each
/// where the question for it succeeded, and otherwise 0.
pub proof fn law_answers_about_a_card(cards: Seq<CardView>, req: Request, r: ReadingsView, i: int)
    requires
        req.gpu,
        0 <= i < cards.len(),
        cards[i].vendor is Nvidia,
    ensures
        ({
            let s = sampled(cards, req, r).gpus[i].stats;
            &&& r.cards[i].nvml is None ==> s.busy == 0 && s.vram_used == 0 && s.vram_total == 0
            &&& r.cards[i].nvml matches Some(n) ==> {
                &&& n.util_ret == 0 ==> s.busy == n.gpu as int % 256
                &&& n.util_ret != 0 ==> s.busy == 0
                &&& n.mem_ret == 0 ==> s.vram_used == n.used && s.vram_total == n.total
                &&& n.mem_ret != 0 ==> s.vram_used == 0 && s.vram_total == 0
            }
        }),
{
    assert(sampled(cards, req, r).gpus[i] == gpu_sampled(cards, req, r, i));
}

/// The vendor of a card is known by its number, with any white space around it,
/// and its entry by a name that starts with `card` and has no dash.
pub proof fn law_vendors_and_card_names(content: Seq<char>, name: Seq<char>)
    ensures
        vendor_of(content) == Some(Vendor::Amd) <==> trim(content) == "0x1002"@,
        vendor_of(content) == Some(Vendor::Nvidia) <==> trim(content) == "0x10de"@,
        vendor_of(content) == Some(Vendor::Intel) <==> trim(content) == "0x8086"@,
        is_card(name) <==> "card"@.is_prefix_of(name) && !name.contains('-'),
{
    reveal_strlit("0x1002");
    reveal_strlit("0x10de");
    reveal_strlit("0x8086");
    assert("0x1002"@[2] == '1' && "0x10de"@[2] == '1' && "0x8086"@[2] == '8');
    assert("0x1002"@[4] == '0' && "0x10de"@[4] == 'd');
}

/// An entry is a card exactly if its name starts with `card`, has no dash, and its
/// vendor is one of the three that are known.
pub proof fn law_which_entries_are_cards(e: CardEntryView)
    ensures
        card_of(e) is Some <==> {
            &&& "card"@.is_prefix_of(e.name)
            &&& !e.name.contains('-')
            &&& trim(e.vendor) == "0x1002"@ || trim(e.vendor) == "0x10de"@ || trim(e.vendor)
                == "0x8086"@
        },
        card_of(e) matches Some(c) ==> {
            &&& c.card == e.name
            &&& c.vendor is Amd <==> trim(e.vendor) == "0x1002"@
            &&& c.vendor is Nvidia <==> trim(e.vendor) == "0x10de"@
            &&& c.vendor is Intel <==> trim(e.vendor) == "0x8086"@
            &&& c.hwmon_path == e.hwmon_path
            &&& c.path_busy == "/sys/class/drm/"@ + e.name + "/device"@ + "/gpu_busy_percent"@
            &&& c.path_vram_used == "/sys/class/drm/"@ + e.name + "/device"@
                + "/mem_info_vram_used"@
            &&& c.path_vram_total == "/sys/class/drm/"@ + e.name + "/device"@
                + "/mem_info_vram_total"@
        },
{
    reveal_strlit("0x1002");
    reveal_strlit("0x10de");
    reveal_strlit("0x8086");
    assert("0x1002"@[2] == '1' && "0x10de"@[2] == '1' && "0x8086"@[2] == '8');
    assert("0x1002"@[4] == '0' && "0x10de"@[4] == 'd');
}

/// Whether the cards are those among the entries, each once, at these places and
/// by name.
pub open spec fn lists_cards(rows: Seq<CardView>, at: Seq<int>, es: Seq<CardEntryView>) -> bool {
    &&& rows.len() == at.len()
    &&& at.no_duplicates()
    &&& forall|k: int|
        0 <= k < at.len() ==> 0 <= #[trigger] at[k] < es.len() && card_of(es[at[k]]) == Some(
            rows[k],
        )
    &&& forall|j: int|
        0 <= j < es.len() && card_of(#[trigger] es[j]) is Some ==> at.contains(j)
    &&& forall|i: int, j: int|
        0 <= i < j < rows.len() ==> word_le((#[trigger] rows[i]).card, (#[trigger] rows[j]).card)
}

proof fn lemma_cards_among(es: Seq<CardEntryView>, m: nat)
    requires
        m <= es.len(),
    ensures
        ({
            let rows = cards_in(es.take(m as int));
            let at = places_where(m, |i: int| card_of(es[i]) is Some);
            &&& rows.len() == at.len()
            &&& forall|k: int|
                0 <= k < rows.len() ==> card_of(es[at[k]]) == Some(#[trigger] rows[k])
        }),
    decreases m,
{
    if m > 0 {
        let wanted = |i: int| card_of(es[i]) is Some;
        lemma_cards_among(es, (m - 1) as nat);
        assert(es.take(m as int).drop_last() =~= es.take(m - 1));
        let a = cards_in(es.take(m - 1));
        let rows = cards_in(es.take(m as int));
        let shorter = places_where((m - 1) as nat, wanted);
        let at = places_where(m, wanted);
        assert forall|k: int| 0 <= k < rows.len() implies card_of(es[at[k]]) == Some(
            #[trigger] rows[k],
        ) by {
            if k < a.len() {
                assert(rows[k] == a[k]);
                assert(at[k] == shorter[k]);
            }
        }
    }
}

/// The cards that are found are those among the entries, each once and by name.
pub proof fn law_found_cards(es: Seq<CardEntryView>)
    ensures
        exists|at: Seq<int>| #[trigger] lists_cards(discovered(es), at, es),
{
    let wanted = |i: int| card_of(es[i]) is Some;
    let shown = places_where(es.len(), wanted);
    let all = cards_in(es);
    let names = card_names(all);
    let order = ranking(names);
    let rows = discovered(es);
    lemma_cards_among(es, es.len());
    assert(es.take(es.len() as int) =~= es);
    lemma_places_where(es.len(), wanted);
    law_ranking_exists(names);
    law_ranking_lists_every_row(names, order);
    let at = Seq::new(order.len(), |k: int| shown[order[k]]);
    assert forall|i: int, j: int|
        0 <= i < at.len() && 0 <= j < at.len() && i != j implies at[i] != at[j] by {
        assert(order[i] != order[j]);
        if order[i] < order[j] {
            assert(shown[order[i]] < shown[order[j]]);
        } else {
            assert(shown[order[j]] < shown[order[i]]);
        }
    }
    assert forall|k: int| 0 <= k < at.len() implies 0 <= #[trigger] at[k] < es.len() && card_of(
        es[at[k]],
    ) == Some(rows[k]) by {
        assert(0 <= order[k] < shown.len());
        assert(rows[k] == all[order[k]]);
        assert(0 <= shown[order[k]] < es.len());
    }
    assert forall|j: int| 0 <= j < es.len() && card_of(#[trigger] es[j]) is Some implies at.contains(
        j,
    ) by {
        assert(wanted(j));
        assert(shown.contains(j));
        let q = choose|q: int| 0 <= q < shown.len() && shown[q] == j;
        assert(order.contains(q));
        let k = choose|k: int| 0 <= k < order.len() && order[k] == q;
        assert(at[k] == j);
    }
    assert forall|i: int, j: int| 0 <= i < j < rows.len() implies word_le(
        (#[trigger] rows[i]).card,
        (#[trigger] rows[j]).card,
    ) by {
        assert(before(names, order[i], order[j]));
    }
    assert(lists_cards(rows, at, es));
}

/// The bus address of a card is what follows the key on the first such line of its
/// event file, up to the next equals sign, without white space around it; empty
/// where there is no such line.
pub proof fn law_the_bus_address_of_a_card(e: CardEntryView, i: int, a: Seq<char>, b: Seq<char>)
    requires
        card_of(e) is Some,
        !a.contains('='),
    ensures
        no_line(lines(e.uevent), "PCI_SLOT_NAME="@) ==> (card_of(e)->0).pdev.len() == 0,
        is_first_line(lines(e.uevent), i, "PCI_SLOT_NAME="@) && (lines(e.uevent)[i]
            == "PCI_SLOT_NAME="@ + a || lines(e.uevent)[i] == "PCI_SLOT_NAME="@ + a + seq!['=']
            + b) ==> (card_of(e)->0).pdev == trim(a),
{
    let ls = lines(e.uevent);
    let key = "PCI_SLOT_NAME="@;
    reveal_strlit("PCI_SLOT_NAME=");
    lemma_line_with(ls, key);
    assert((card_of(e)->0).pdev == pdev_of(e.uevent));
    if is_first_line(ls, i, key) && (ls[i] == key + a || ls[i] == key + a + seq!['='] + b) {
        let line = ls[i];
        let n = run_len(line, Class::Is('='), false) as int;
        lemma_run_len(line, Class::Is('='), false);
        assert(key[13] == '=');
        assert forall|k: int| 0 <= k < 13 implies key[k] != '=' by {
        }
        assert(n == 13) by {
            if n < 13 {
                assert(line[n] == key[n]);
            }
            if n > 13 {
                assert(line[13] == key[13]);
                assert(Class::Is('=').has(line[13]) == false);
            }
        }
        let rest = line.skip(14);
        assert(cut(line, '=') == Some((line.take(13), rest)));
        let m = run_len(rest, Class::Is('='), false) as int;
        lemma_run_len(rest, Class::Is('='), false);
        assert(m == a.len()) by {
            if m < a.len() {
                assert(rest[m] == a[m]);
                assert(a.contains(rest[m]));
            }
            if m > a.len() {
                assert(rest[a.len() as int] == '=');
                assert(Class::Is('=').has(rest[a.len() as int]) == false);
            }
        }
        assert(rest.take(m) =~= a);
        assert(second_part(line, '=') == a);
    }
}

} // verus!
