//! What holds of the library as a whole.

pub mod cards;
pub mod files;
pub mod lists;
pub mod picks;
pub mod rates;
pub mod sections;
pub mod settings;
pub mod texts;
pub mod views;

use vstd::prelude::*;

use crate::diff::{
    cpu_section, gpu_cards, iface_names, iface_rate, iface_rates, mem_section, net_rates, shown,
    ticks_add_up,
};
use crate::disk::{dev_named, disk_rates, law_disk_rates_list_every_device, DiskDevView};
use crate::gpu::{
    card_names, card_of, cards_in, discovered, is_card, vendor_of, CardEntryView, CardView,
};
use crate::number::unsigned;
use crate::procfs::{CpuTicks, IfaceView, MemSample};
use crate::proclist::{
    cpu_list, cpu_places, cpu_row, cpu_rows, gain_since, gpu_list, gpu_row, gpu_rows,
    has_no_share, mem_list, mem_row, mem_rows, rss_of, vram_of, weights_at,
};
use crate::rank::{
    before, kept, law_ranking_exists, law_ranking_lists_every_row, ranked, ranking, word_le, Key,
};
use crate::rate::lemma_rate_of_nothing;
use crate::request::{limit_of, requested, Request};
use crate::sample::{sampled, ReadingsView, SampleView};
use crate::session::joined;
use crate::text::{is_space, lemma_run_len, run_len, trim, trim_end, words, Class};
use crate::walk::{
    lemma_tally_place, tallies, tally_place, GpuProcSample, GpuUse, ProcSample,
};

verus! {

/// Whether `w` is not empty and holds no blank.
pub open spec fn is_solid(w: Seq<char>, blank: Class) -> bool {
    w.len() > 0 && forall|j: int| 0 <= j < w.len() ==> !blank.has(#[trigger] w[j])
}

/// Words are not empty and hold no blank.
pub proof fn law_words_are_solid(s: Seq<char>, blank: Class)
    ensures
        forall|i: int|
            0 <= i < words(s, blank).len() ==> is_solid(#[trigger] words(s, blank)[i], blank),
    decreases s.len(),
{
    if s.len() > 0 {
        if blank.has(s[0]) {
            law_words_are_solid(s.skip(1), blank);
            assert(words(s, blank) == words(s.skip(1), blank));
        } else {
            let n = run_len(s, blank, false) as int;
            lemma_run_len(s, blank, false);
            law_words_are_solid(s.skip(n), blank);
            let rest = words(s.skip(n), blank);
            assert forall|i: int| 0 <= i < words(s, blank).len() implies is_solid(
                #[trigger] words(s, blank)[i],
                blank,
            ) by {
                if i > 0 {
                    assert(words(s, blank)[i] == rest[i - 1]);
                } else {
                    assert(words(s, blank)[0] == s.take(n));
                }
            }
        }
    }
}

proof fn lemma_trim_end(s: Seq<char>)
    ensures
        trim_end(s).len() <= s.len(),
        trim_end(s) == s.take(trim_end(s).len() as int),
        trim_end(s).len() > 0 ==> !is_space(trim_end(s).last()),
    decreases s.len(),
{
    if s.len() > 0 && is_space(s.last()) {
        let rest = s.drop_last();
        lemma_trim_end(rest);
        let n = trim_end(rest).len() as int;
        assert(rest.take(n) =~= s.take(n));
    } else {
        assert(s.take(s.len() as int) =~= s);
    }
}

/// What is trimmed neither starts nor ends with white space.
pub proof fn law_trimmed_ends_are_solid(s: Seq<char>)
    requires
        trim(s).len() > 0,
    ensures
        !is_space(trim(s)[0]),
        !is_space(trim(s).last()),
{
    let n = run_len(s, Class::Space, true) as int;
    lemma_run_len(s, Class::Space, true);
    lemma_trim_end(s.skip(n));
    assert(trim(s)[0] == s.skip(n)[0]);
    assert(s.skip(n)[0] == s[n]);
}

/// A run that ends before the end of `a` ends there in what continues `a`, too;
/// one that takes all of `a` ends at a character that does not belong to it.
proof fn lemma_run_in_longer(a: Seq<char>, c: char, b: Seq<char>, blank: Class)
    requires
        blank.has(c),
    ensures
        run_len(a + seq![c] + b, blank, false) == run_len(a, blank, false),
    decreases a.len(),
{
    let whole = a + seq![c] + b;
    if a.len() == 0 {
        assert(whole[0] == c);
    } else {
        assert(whole[0] == a[0]);
        assert(whole.skip(1) =~= a.skip(1) + seq![c] + b);
        lemma_run_in_longer(a.skip(1), c, b, blank);
    }
}

/// The words of two texts with a blank between them are those of the one and
/// then those of the other.
pub proof fn law_words_around_a_blank(a: Seq<char>, c: char, b: Seq<char>, blank: Class)
    requires
        blank.has(c),
    ensures
        words(a + seq![c] + b, blank) == words(a, blank) + words(b, blank),
    decreases a.len(),
{
    let whole = a + seq![c] + b;
    if a.len() == 0 {
        assert(whole[0] == c);
        assert(whole.skip(1) =~= b);
        assert(words(a, blank) + words(b, blank) =~= words(b, blank));
    } else {
        assert(whole[0] == a[0]);
        if blank.has(a[0]) {
            assert(whole.skip(1) =~= a.skip(1) + seq![c] + b);
            law_words_around_a_blank(a.skip(1), c, b, blank);
        } else {
            let n = run_len(a, blank, false) as int;
            lemma_run_len(a, blank, false);
            lemma_run_in_longer(a, c, b, blank);
            assert(whole.take(n) =~= a.take(n));
            assert(whole.skip(n) =~= a.skip(n) + seq![c] + b);
            law_words_around_a_blank(a.skip(n), c, b, blank);
            assert(words(whole, blank) =~= words(a, blank) + words(b, blank));
        }
    }
}

/// The words of all texts, one text after the other.
pub open spec fn all_words(ss: Seq<Seq<char>>) -> Seq<Seq<char>>
    decreases ss.len(),
{
    if ss.len() == 0 {
        seq![]
    } else {
        all_words(ss.drop_last()) + words(ss.last(), Class::Space)
    }
}

/// Arguments on the command line make the same words as one line that holds them
/// all.
pub proof fn law_arguments_are_one_line(ss: Seq<Seq<char>>)
    ensures
        words(joined(ss), Class::Space) == all_words(ss),
    decreases ss.len(),
{
    if ss.len() == 1 {
        assert(ss.drop_last() =~= seq![]);
        assert(all_words(ss.drop_last()) =~= seq![]);
        assert(all_words(ss) =~= words(ss[0], Class::Space));
    } else if ss.len() > 1 {
        law_arguments_are_one_line(ss.drop_last());
        law_words_around_a_blank(joined(ss.drop_last()), ' ', ss.last(), Class::Space);
    }
}

/// In which order and how often words are listed makes no difference to what is
/// on.
pub proof fn law_switches_ignore_order(a: Seq<Seq<char>>, b: Seq<Seq<char>>)
    requires
        forall|w: Seq<char>| #[trigger] a.contains(w) <==> b.contains(w),
    ensures
        ({
            let r = requested(a);
            let q = requested(b);
            &&& r.cpu == q.cpu
            &&& r.mem == q.mem
            &&& r.gpu == q.gpu
            &&& r.net == q.net
            &&& r.disk == q.disk
            &&& r.procs == q.procs
            &&& r.filter_zero == q.filter_zero
        }),
{
}

/// The last limit with a number stands, and a limit of zero is none.
pub proof fn law_last_limit_stands(ws: Seq<Seq<char>>, k: int)
    requires
        0 <= k < ws.len() - 1,
        ws[k] == "limit"@,
        unsigned(ws[k + 1], usize::MAX as int) is Some,
        forall|i: int|
            k < i < ws.len() - 1 && #[trigger] ws[i] == "limit"@ ==> unsigned(
                ws[i + 1],
                usize::MAX as int,
            ) is None,
    ensures
        limit_of(ws) == (if unsigned(ws[k + 1], usize::MAX as int) == Some(0int) {
            None
        } else {
            Some((unsigned(ws[k + 1], usize::MAX as int)->0) as usize)
        }),
    decreases ws.len(),
{
    if k < ws.len() - 2 {
        let rest = ws.drop_last();
        let i = ws.len() - 2;
        assert(ws[i] == "limit"@ ==> unsigned(ws[i + 1], usize::MAX as int) is None);
        assert forall|i: int|
            k < i < rest.len() - 1 && #[trigger] rest[i] == "limit"@ implies unsigned(
            rest[i + 1],
            usize::MAX as int,
        ) is None by {
            assert(ws[i] == "limit"@);
        }
        law_last_limit_stands(rest, k);
    }
}

/// No request caps the lists at nothing.
pub proof fn law_limit_is_not_zero(ws: Seq<Seq<char>>)
    ensures
        limit_of(ws) != Some(0usize),
    decreases ws.len(),
{
    if ws.len() >= 2 {
        law_limit_is_not_zero(ws.drop_last());
    }
}

/// What is not asked for is not sampled; without processes no list of a card
/// holds any.
pub proof fn law_unasked_is_not_sampled(cards: Seq<CardView>, req: Request, r: ReadingsView)
    ensures
        !req.cpu ==> sampled(cards, req, r).cpu == (CpuTicks { total: 0, idle: 0 }),
        !req.cpu ==> sampled(cards, req, r).load is None,
        !req.mem ==> sampled(cards, req, r).mem == (MemSample {
            total_bytes: 0,
            available_bytes: 0,
            swap_total_bytes: 0,
            swap_free_bytes: 0,
        }),
        !req.net ==> sampled(cards, req, r).net.len() == 0,
        !req.disk ==> sampled(cards, req, r).disk.len() == 0,
        !req.gpu ==> sampled(cards, req, r).gpus.len() == 0,
        !req.procs ==> sampled(cards, req, r).procs.len() == 0,
        !req.procs ==> forall|i: int|
            0 <= i < sampled(cards, req, r).gpus.len() ==> (#[trigger] sampled(
                cards,
                req,
                r,
            ).gpus[i]).procs.len() == 0,
{
}

/// The sections that are shown are those that are asked for; where nothing is
/// asked for nothing is shown.
pub proof fn law_sections_are_those_asked_for(
    prev: SampleView,
    curr: SampleView,
    req: Request,
    elapsed_ns: u64,
    weights: Seq<u64>,
)
    ensures
        shown(prev, curr, req, elapsed_ns, weights).cpu is Some <==> req.cpu,
        shown(prev, curr, req, elapsed_ns, weights).memory is Some <==> req.mem,
        shown(prev, curr, req, elapsed_ns, weights).gpu is Some <==> req.gpu,
        shown(prev, curr, req, elapsed_ns, weights).net is Some <==> req.net,
        shown(prev, curr, req, elapsed_ns, weights).disk is Some <==> req.disk,
{
}

/// Without `procs` no section lists a process.
pub proof fn law_without_procs_no_lists(
    prev: SampleView,
    curr: SampleView,
    req: Request,
    weights: Seq<u64>,
)
    requires
        !req.procs,
    ensures
        cpu_section(prev, curr, req, weights).procs.len() == 0,
        mem_section(curr, req).procs.len() == 0,
        forall|i: int|
            0 <= i < curr.gpus.len() ==> (#[trigger] gpu_cards(
                prev.gpus,
                curr.gpus,
                req,
            )[i]).procs.len() == 0,
{
}

/// The share of busy time lies between nothing and all, and no more memory is
/// used than there is.
pub proof fn law_shares_are_parts(
    prev: SampleView,
    curr: SampleView,
    req: Request,
    weights: Seq<u64>,
)
    requires
        ticks_add_up(prev, curr),
    ensures
        cpu_section(prev, curr, req, weights).busy_ticks <= cpu_section(
            prev,
            curr,
            req,
            weights,
        ).total_ticks,
        mem_section(curr, req).used_bytes <= mem_section(curr, req).total_bytes,
        mem_section(curr, req).swap_used_bytes <= mem_section(curr, req).swap_total_bytes,
{
}

/// Without a limit a ranked list holds every row exactly once.
pub proof fn law_ranked_loses_nothing<T, K: Key>(rows: Seq<T>, keys: Seq<K>)
    requires
        rows.len() == keys.len(),
    ensures
        ranked(rows, keys, None).len() == rows.len(),
        ranking(keys).no_duplicates(),
        forall|r: int|
            0 <= r < rows.len() ==> ranking(keys).contains(r) && ranked(rows, keys, None).contains(
                #[trigger] rows[r],
            ),
{
    law_ranking_exists(keys);
    let order = ranking(keys);
    law_ranking_lists_every_row(keys, order);
    let out = ranked(rows, keys, None);
    assert forall|r: int| 0 <= r < rows.len() implies order.contains(r) && out.contains(
        #[trigger] rows[r],
    ) by {
        assert(order.contains(r));
        let i = choose|i: int| 0 <= i < order.len() && order[i] == r;
        assert(out[i] == rows[r]);
    }
}

/// Each row of a ranked list is one of the rows, and a limit takes the top of the
/// whole list.
proof fn lemma_ranked_rows<T, K: Key>(rows: Seq<T>, keys: Seq<K>, limit: Option<usize>)
    requires
        rows.len() == keys.len(),
    ensures
        ranked(rows, keys, limit).len() == kept(rows.len(), limit),
        forall|i: int|
            0 <= i < ranked(rows, keys, limit).len() ==> 0 <= #[trigger] ranking(keys)[i]
                < rows.len() && ranked(rows, keys, limit)[i] == rows[ranking(keys)[i]],
        ranked(rows, keys, limit) == ranked(rows, keys, None).take(
            kept(rows.len(), limit) as int,
        ),
{
    law_ranking_exists(keys);
}

proof fn lemma_mem_rows(curr: Seq<ProcSample>, filter_zero: bool)
    ensures
        filter_zero ==> forall|i: int|
            0 <= i < mem_rows(curr, filter_zero).len() ==> (#[trigger] mem_rows(
                curr,
                filter_zero,
            )[i]).rss > 0,
        forall|r: int|
            0 <= r < curr.len() && (!filter_zero || (#[trigger] curr[r]).rss_bytes > 0)
                ==> mem_rows(curr, filter_zero).contains(mem_row(curr[r])),
        !filter_zero ==> mem_rows(curr, filter_zero).len() == curr.len(),
    decreases curr.len(),
{
    if curr.len() > 0 {
        let rest = curr.drop_last();
        lemma_mem_rows(rest, filter_zero);
        let a = mem_rows(rest, filter_zero);
        let b = mem_rows(curr, filter_zero);
        if filter_zero {
            assert forall|i: int| 0 <= i < b.len() implies (#[trigger] b[i]).rss > 0 by {
                if i < a.len() {
                    assert(b[i] == a[i]);
                }
            }
        }
        assert forall|r: int|
            0 <= r < curr.len() && (!filter_zero || (#[trigger] curr[r]).rss_bytes > 0)
            implies b.contains(mem_row(curr[r])) by {
            if r < rest.len() {
                assert(rest[r] == curr[r]);
                let k = choose|k: int| 0 <= k < a.len() && a[k] == mem_row(curr[r]);
                assert(b[k] == a[k]);
            } else {
                assert(b[a.len() as int] == mem_row(curr[r]));
            }
        }
    }
}

/// The list by memory is as long as the limit allows, is the top of the list
/// without a limit, and never rises; with `nozero` it holds no process without
/// memory; without a limit it holds every other process.
pub proof fn law_mem_list(curr: Seq<ProcSample>, filter_zero: bool, limit: Option<usize>)
    ensures
        mem_list(curr, filter_zero, limit).len() == kept(mem_rows(curr, filter_zero).len(), limit),
        mem_list(curr, filter_zero, limit) == mem_list(curr, filter_zero, None).take(
            mem_list(curr, filter_zero, limit).len() as int,
        ),
        forall|i: int, j: int|
            0 <= i < j < mem_list(curr, filter_zero, limit).len() ==> (#[trigger] mem_list(
                curr,
                filter_zero,
                limit,
            )[i]).rss >= (#[trigger] mem_list(curr, filter_zero, limit)[j]).rss,
        filter_zero ==> forall|i: int|
            0 <= i < mem_list(curr, filter_zero, limit).len() ==> (#[trigger] mem_list(
                curr,
                filter_zero,
                limit,
            )[i]).rss > 0,
        limit is None ==> forall|r: int|
            0 <= r < curr.len() && (!filter_zero || (#[trigger] curr[r]).rss_bytes > 0)
                ==> mem_list(curr, filter_zero, limit).contains(mem_row(curr[r])),
        limit is None && !filter_zero ==> mem_list(curr, filter_zero, limit).len() == curr.len(),
{
    let rows = mem_rows(curr, filter_zero);
    let keys = rss_of(rows);
    let out = mem_list(curr, filter_zero, limit);
    lemma_mem_rows(curr, filter_zero);
    law_ranked_loses_nothing(rows, keys);
    lemma_ranked_rows(rows, keys, limit);
    law_ranking_exists(keys);
    assert forall|i: int, j: int| 0 <= i < j < out.len() implies (#[trigger] out[i]).rss >= (
    #[trigger] out[j]).rss by {
        assert(before(keys, ranking(keys)[i], ranking(keys)[j]));
    }
    if filter_zero {
        assert forall|i: int| 0 <= i < out.len() implies (#[trigger] out[i]).rss > 0 by {
            assert(rows[ranking(keys)[i]].rss > 0);
        }
    }
    if limit is None {
        assert forall|r: int|
            0 <= r < curr.len() && (!filter_zero || (#[trigger] curr[r]).rss_bytes > 0)
            implies out.contains(mem_row(curr[r])) by {
            let k = choose|k: int| 0 <= k < rows.len() && rows[k] == mem_row(curr[r]);
            assert(out.contains(rows[k]));
        }
    }
}

proof fn lemma_gpu_rows(procs: Seq<GpuProcSample>, noted: Map<u32, u64>, filter_zero: bool)
    ensures
        filter_zero ==> forall|i: int|
            0 <= i < gpu_rows(procs, noted, filter_zero).len() ==> (#[trigger] gpu_rows(
                procs,
                noted,
                filter_zero,
            )[i]).vram_kib > 0,
        forall|r: int|
            0 <= r < procs.len() && (!filter_zero || (#[trigger] procs[r]).vram_kib > 0)
                ==> gpu_rows(procs, noted, filter_zero).contains(gpu_row(noted, procs[r])),
        !filter_zero ==> gpu_rows(procs, noted, filter_zero).len() == procs.len(),
    decreases procs.len(),
{
    if procs.len() > 0 {
        let rest = procs.drop_last();
        lemma_gpu_rows(rest, noted, filter_zero);
        let a = gpu_rows(rest, noted, filter_zero);
        let b = gpu_rows(procs, noted, filter_zero);
        if filter_zero {
            assert forall|i: int| 0 <= i < b.len() implies (#[trigger] b[i]).vram_kib > 0 by {
                if i < a.len() {
                    assert(b[i] == a[i]);
                }
            }
        }
        assert forall|r: int|
            0 <= r < procs.len() && (!filter_zero || (#[trigger] procs[r]).vram_kib > 0)
            implies b.contains(gpu_row(noted, procs[r])) by {
            if r < rest.len() {
                assert(rest[r] == procs[r]);
                let k = choose|k: int| 0 <= k < a.len() && a[k] == gpu_row(noted, procs[r]);
                assert(b[k] == a[k]);
            } else {
                assert(b[a.len() as int] == gpu_row(noted, procs[r]));
            }
        }
    }
}

/// The list of a card is as long as the limit allows, is the top of the list
/// without a limit, and never rises; with `nozero` it holds no process without
/// card memory; without a limit it holds every other process.
pub proof fn law_gpu_list(
    procs: Seq<GpuProcSample>,
    noted: Map<u32, u64>,
    filter_zero: bool,
    limit: Option<usize>,
)
    ensures
        gpu_list(procs, noted, filter_zero, limit).len() == kept(
            gpu_rows(procs, noted, filter_zero).len(),
            limit,
        ),
        gpu_list(procs, noted, filter_zero, limit) == gpu_list(
            procs,
            noted,
            filter_zero,
            None,
        ).take(gpu_list(procs, noted, filter_zero, limit).len() as int),
        forall|i: int, j: int|
            0 <= i < j < gpu_list(procs, noted, filter_zero, limit).len() ==> (#[trigger] gpu_list(
                procs,
                noted,
                filter_zero,
                limit,
            )[i]).vram_kib >= (#[trigger] gpu_list(procs, noted, filter_zero, limit)[j]).vram_kib,
        filter_zero ==> forall|i: int|
            0 <= i < gpu_list(procs, noted, filter_zero, limit).len() ==> (#[trigger] gpu_list(
                procs,
                noted,
                filter_zero,
                limit,
            )[i]).vram_kib > 0,
        limit is None ==> forall|r: int|
            0 <= r < procs.len() && (!filter_zero || (#[trigger] procs[r]).vram_kib > 0)
                ==> gpu_list(procs, noted, filter_zero, limit).contains(gpu_row(noted, procs[r])),
        limit is None && !filter_zero ==> gpu_list(procs, noted, filter_zero, limit).len()
            == procs.len(),
{
    let rows = gpu_rows(procs, noted, filter_zero);
    let keys = vram_of(rows);
    let out = gpu_list(procs, noted, filter_zero, limit);
    lemma_gpu_rows(procs, noted, filter_zero);
    law_ranked_loses_nothing(rows, keys);
    lemma_ranked_rows(rows, keys, limit);
    law_ranking_exists(keys);
    assert forall|i: int, j: int| 0 <= i < j < out.len() implies (#[trigger] out[i]).vram_kib >= (
    #[trigger] out[j]).vram_kib by {
        assert(before(keys, ranking(keys)[i], ranking(keys)[j]));
    }
    if filter_zero {
        assert forall|i: int| 0 <= i < out.len() implies (#[trigger] out[i]).vram_kib > 0 by {
            assert(rows[ranking(keys)[i]].vram_kib > 0);
        }
    }
    if limit is None {
        assert forall|r: int|
            0 <= r < procs.len() && (!filter_zero || (#[trigger] procs[r]).vram_kib > 0)
            implies out.contains(gpu_row(noted, procs[r])) by {
            let k = choose|k: int| 0 <= k < rows.len() && rows[k] == gpu_row(noted, procs[r]);
            assert(out.contains(rows[k]));
        }
    }
}

proof fn lemma_cpu_places(
    curr: Seq<ProcSample>,
    noted: Map<u32, u64>,
    total_d: u64,
    filter_zero: bool,
)
    ensures
        forall|i: int|
            0 <= i < cpu_places(curr, noted, total_d, filter_zero).len() ==> 0
                <= #[trigger] cpu_places(curr, noted, total_d, filter_zero)[i] < curr.len(),
        filter_zero ==> forall|i: int|
            0 <= i < cpu_places(curr, noted, total_d, filter_zero).len() ==> !has_no_share(
                noted,
                curr[#[trigger] cpu_places(curr, noted, total_d, filter_zero)[i]],
                total_d,
            ),
        forall|r: int|
            0 <= r < curr.len() && (!filter_zero || !has_no_share(noted, curr[r], total_d))
                ==> #[trigger] cpu_places(curr, noted, total_d, filter_zero).contains(r),
        !filter_zero ==> cpu_places(curr, noted, total_d, filter_zero).len() == curr.len(),
    decreases curr.len(),
{
    if curr.len() > 0 {
        let rest = curr.drop_last();
        lemma_cpu_places(rest, noted, total_d, filter_zero);
        let a = cpu_places(rest, noted, total_d, filter_zero);
        let b = cpu_places(curr, noted, total_d, filter_zero);
        assert forall|i: int| 0 <= i < b.len() implies 0 <= #[trigger] b[i] < curr.len() by {
            if i < a.len() {
                assert(b[i] == a[i]);
            }
        }
        if filter_zero {
            assert forall|i: int| 0 <= i < b.len() implies !has_no_share(
                noted,
                curr[#[trigger] b[i]],
                total_d,
            ) by {
                if i < a.len() {
                    assert(b[i] == a[i]);
                    assert(curr[b[i]] == rest[a[i]]);
                }
            }
        }
        assert forall|r: int|
            0 <= r < curr.len() && (!filter_zero || !has_no_share(noted, curr[r], total_d))
            implies #[trigger] b.contains(r) by {
            if r < rest.len() {
                assert(rest[r] == curr[r]);
                assert(a.contains(r));
                let k = choose|k: int| 0 <= k < a.len() && a[k] == r;
                assert(b[k] == a[k]);
            } else {
                assert(b[a.len() as int] == r);
            }
        }
    }
}

/// The list by processor time is as long as the limit allows and is the top of
/// the list without a limit; with `nozero` it holds no process without a share in
/// the ticks that have passed; without a limit it holds every other process.
pub proof fn law_cpu_list(
    curr: Seq<ProcSample>,
    noted: Map<u32, u64>,
    total_d: u64,
    weights: Seq<u64>,
    filter_zero: bool,
    limit: Option<usize>,
)
    requires
        weights.len() == curr.len(),
    ensures
        cpu_list(curr, noted, total_d, weights, filter_zero, limit).len() == kept(
            cpu_places(curr, noted, total_d, filter_zero).len(),
            limit,
        ),
        cpu_list(curr, noted, total_d, weights, filter_zero, limit) == cpu_list(
            curr,
            noted,
            total_d,
            weights,
            filter_zero,
            None,
        ).take(cpu_list(curr, noted, total_d, weights, filter_zero, limit).len() as int),
        filter_zero && total_d == 0 ==> cpu_list(
            curr,
            noted,
            total_d,
            weights,
            filter_zero,
            limit,
        ).len() == 0,
        filter_zero ==> forall|i: int|
            0 <= i < cpu_list(curr, noted, total_d, weights, filter_zero, limit).len() ==> (
            #[trigger] cpu_list(curr, noted, total_d, weights, filter_zero, limit)[i]).ticks > 0,
        limit is None ==> forall|r: int|
            0 <= r < curr.len() && (!filter_zero || !has_no_share(
                noted,
                #[trigger] curr[r],
                total_d,
            )) ==> cpu_list(curr, noted, total_d, weights, filter_zero, limit).contains(
                cpu_row(noted, curr[r]),
            ),
        limit is None && !filter_zero ==> cpu_list(
            curr,
            noted,
            total_d,
            weights,
            filter_zero,
            limit,
        ).len() == curr.len(),
{
    let at = cpu_places(curr, noted, total_d, filter_zero);
    let rows = cpu_rows(curr, noted, at);
    let keys = weights_at(weights, at);
    let order = ranking(keys);
    let out = cpu_list(curr, noted, total_d, weights, filter_zero, limit);
    lemma_cpu_places(curr, noted, total_d, filter_zero);
    lemma_ranked_rows(rows, keys, limit);
    law_ranked_loses_nothing(rows, keys);
    law_ranking_exists(keys);
    if filter_zero {
        assert(total_d == 0 ==> at.len() == 0) by {
            assert(at.len() > 0 ==> !has_no_share(noted, curr[at[0]], total_d));
        }
        assert forall|i: int| 0 <= i < out.len() implies (#[trigger] out[i]).ticks > 0 by {
            assert(!has_no_share(noted, curr[at[order[i]]], total_d));
        }
    }
    if limit is None {
        assert forall|r: int|
            0 <= r < curr.len() && (!filter_zero || !has_no_share(
                noted,
                #[trigger] curr[r],
                total_d,
            )) implies out.contains(cpu_row(noted, curr[r])) by {
            assert(at.contains(r));
            let k = choose|k: int| 0 <= k < at.len() && at[k] == r;
            assert(rows[k] == cpu_row(noted, curr[r]));
            assert(out.contains(rows[k]));
        }
    }
}

/// Where the weight of a process is its share, made of the ticks that it has
/// used, the shares in the list by processor time never rise, and no process that
/// the limit cuts off has a larger share than one that is listed.
pub proof fn law_cpu_shares_never_rise(
    curr: Seq<ProcSample>,
    noted: Map<u32, u64>,
    total_d: u64,
    weights: Seq<u64>,
    share: spec_fn(u64) -> u64,
    filter_zero: bool,
    limit: Option<usize>,
)
    requires
        weights.len() == curr.len(),
        forall|r: int|
            0 <= r < curr.len() ==> #[trigger] weights[r] == share(
                gain_since(noted, curr[r].pid, curr[r].cpu_ticks),
            ),
    ensures
        forall|i: int, j: int|
            0 <= i < j < cpu_list(curr, noted, total_d, weights, filter_zero, limit).len()
                ==> share(
                (#[trigger] cpu_list(curr, noted, total_d, weights, filter_zero, limit)[i]).ticks,
            ) >= share(
                (#[trigger] cpu_list(curr, noted, total_d, weights, filter_zero, limit)[j]).ticks,
            ),
        forall|i: int, j: int|
            0 <= i < cpu_list(curr, noted, total_d, weights, filter_zero, limit).len() <= j
                < cpu_list(curr, noted, total_d, weights, filter_zero, None).len() ==> share(
                (#[trigger] cpu_list(curr, noted, total_d, weights, filter_zero, limit)[i]).ticks,
            ) >= share(
                (#[trigger] cpu_list(curr, noted, total_d, weights, filter_zero, None)[j]).ticks,
            ),
{
    let at = cpu_places(curr, noted, total_d, filter_zero);
    let rows = cpu_rows(curr, noted, at);
    let keys = weights_at(weights, at);
    let order = ranking(keys);
    let out = cpu_list(curr, noted, total_d, weights, filter_zero, limit);
    let whole = cpu_list(curr, noted, total_d, weights, filter_zero, None);
    lemma_cpu_places(curr, noted, total_d, filter_zero);
    lemma_ranked_rows(rows, keys, limit);
    lemma_ranked_rows(rows, keys, None);
    law_ranking_exists(keys);
    assert forall|i: int, j: int| 0 <= i < j < whole.len() implies share(
        (#[trigger] whole[i]).ticks,
    ) >= share((#[trigger] whole[j]).ticks) by {
        assert(before(keys, order[i], order[j]));
        assert(weights[at[order[i]]] == share(whole[i].ticks));
        assert(weights[at[order[j]]] == share(whole[j].ticks));
    }
    assert forall|i: int| 0 <= i < out.len() implies #[trigger] out[i] == whole[i] by {
    }
}

/// The most card memory of all uses of a process.
pub open spec fn most_vram(uses: Seq<GpuUse>, pid: u32) -> u64
    decreases uses.len(),
{
    if uses.len() == 0 {
        0
    } else {
        let m = most_vram(uses.drop_last(), pid);
        if uses.last().pid == pid && uses.last().vram_kib > m {
            uses.last().vram_kib
        } else {
            m
        }
    }
}

/// The engine times of all uses of a process together.
pub open spec fn all_ns(uses: Seq<GpuUse>, pid: u32) -> nat
    decreases uses.len(),
{
    if uses.len() == 0 {
        0
    } else {
        all_ns(uses.drop_last(), pid) + if uses.last().pid == pid {
            uses.last().ns as nat
        } else {
            0
        }
    }
}

/// Each process that uses a card is tallied once, and no other: with the most
/// memory that any of its files says, and the engine times of all its files
/// together.
pub proof fn law_tallies(uses: Seq<GpuUse>)
    ensures
        forall|i: int, j: int|
            0 <= i < j < tallies(uses).len() ==> (#[trigger] tallies(uses)[i]).pid != (
            #[trigger] tallies(uses)[j]).pid,
        forall|i: int|
            0 <= i < tallies(uses).len() ==> (#[trigger] tallies(uses)[i]).vram_kib == most_vram(
                uses,
                tallies(uses)[i].pid,
            ) && tallies(uses)[i].ns == all_ns(uses, tallies(uses)[i].pid),
        forall|pid: u32|
            #[trigger] tally_place(tallies(uses), pid) < 0 ==> most_vram(uses, pid) == 0 && all_ns(
                uses,
                pid,
            ) == 0,
        forall|i: int|
            0 <= i < uses.len() ==> tally_place(tallies(uses), (#[trigger] uses[i]).pid) >= 0,
        forall|i: int| #![trigger tallies(uses)[i]]
            0 <= i < tallies(uses).len() ==> exists|j: int|
                0 <= j < uses.len() && (#[trigger] uses[j]).pid == tallies(uses)[i].pid,
    decreases uses.len(),
{
    if uses.len() > 0 {
        let rest = uses.drop_last();
        let u = uses.last();
        law_tallies(rest);
        let t = tallies(rest);
        let t2 = tallies(uses);
        let k = tally_place(t, u.pid);
        lemma_tally_place(t, u.pid);
        assert forall|i: int, j: int| 0 <= i < j < t2.len() implies (#[trigger] t2[i]).pid != (
        #[trigger] t2[j]).pid by {
            if j < t.len() {
                assert(t[i].pid != t[j].pid);
            } else {
                assert(t[i].pid != u.pid);
            }
        }
        assert forall|i: int| 0 <= i < t2.len() implies (#[trigger] t2[i]).vram_kib == most_vram(
            uses,
            t2[i].pid,
        ) && t2[i].ns == all_ns(uses, t2[i].pid) by {
            if i < t.len() {
                assert(t2[i].pid == t[i].pid);
                assert(t[i].vram_kib == most_vram(rest, t[i].pid));
                if t[i].pid == u.pid && i != k {
                    assert(k >= 0);
                    if i < k {
                        assert(t[i].pid != t[k].pid);
                    } else {
                        assert(t[k].pid != t[i].pid);
                    }
                }
            }
        }
        assert forall|i: int| #![trigger t2[i]] 0 <= i < t2.len() implies exists|j: int|
            0 <= j < uses.len() && (#[trigger] uses[j]).pid == t2[i].pid by {
            if i < t.len() {
                assert(t2[i].pid == t[i].pid);
                let j = choose|j: int| 0 <= j < rest.len() && (#[trigger] rest[j]).pid == t[i].pid;
                assert(uses[j] == rest[j]);
            } else {
                assert(uses[uses.len() - 1].pid == t2[i].pid);
            }
        }
        assert forall|pid: u32| #[trigger] tally_place(t2, pid) < 0 implies most_vram(uses, pid)
            == 0 && all_ns(uses, pid) == 0 by {
            lemma_tally_place(t2, pid);
            lemma_tally_place(t, pid);
            if tally_place(t, pid) >= 0 {
                assert(t2[tally_place(t, pid)].pid == pid);
            }
            assert(u.pid != pid) by {
                if k < 0 {
                    assert(t2[t.len() as int].pid == u.pid);
                } else {
                    assert(t2[k].pid == u.pid);
                }
            }
        }
        assert forall|i: int| 0 <= i < uses.len() implies tally_place(t2, (#[trigger] uses[i]).pid)
            >= 0 by {
            let pid = uses[i].pid;
            lemma_tally_place(t2, pid);
            lemma_tally_place(t, pid);
            if i < rest.len() {
                assert(uses[i] == rest[i]);
                assert(t2[tally_place(t, pid)].pid == pid);
            } else if k < 0 {
                assert(t2[t.len() as int].pid == pid);
            } else {
                assert(t2[k].pid == pid);
            }
        }
    }
}

/// Between a sample and itself no disk has moved anything and no processor time
/// has passed.
pub proof fn law_standing_still(s: SampleView, req: Request, elapsed_ns: u64, weights: Seq<u64>)
    ensures
        cpu_section(s, s, req, weights).total_ticks == 0,
        cpu_section(s, s, req, weights).busy_ticks == 0,
        forall|i: int|
            0 <= i < disk_rates(s.disk, s.disk, elapsed_ns).len() ==> (#[trigger] disk_rates(
                s.disk,
                s.disk,
                elapsed_ns,
            )[i]).read_bytes_per_sec == 0 && disk_rates(
                s.disk,
                s.disk,
                elapsed_ns,
            )[i].write_bytes_per_sec == 0,
{
    let out = disk_rates(s.disk, s.disk, elapsed_ns);
    law_disk_rates_list_every_device(s.disk, s.disk, elapsed_ns);
    lemma_rate_of_nothing(elapsed_ns);
    assert forall|i: int| 0 <= i < out.len() implies (#[trigger] out[i]).read_bytes_per_sec == 0
        && out[i].write_bytes_per_sec == 0 by {
        let d = dev_named(s.disk, out[i].name)->0;
        lemma_dev_named_name(s.disk, out[i].name);
        assert(dev_named(s.disk, d.name) == Some(d));
    }
}

proof fn lemma_dev_named_name(s: Seq<DiskDevView>, name: Seq<char>)
    ensures
        dev_named(s, name) matches Some(d) ==> d.name == name,
    decreases s.len(),
{
    if s.len() > 0 {
        lemma_dev_named_name(s.drop_last(), name);
    }
}

/// Network interfaces are shown by name, and none is lost.
pub proof fn law_interfaces_are_listed_by_name(
    prev: Seq<IfaceView>,
    curr: Seq<IfaceView>,
    elapsed_ns: u64,
)
    ensures
        net_rates(prev, curr, elapsed_ns).len() == curr.len(),
        forall|r: int|
            0 <= r < curr.len() ==> net_rates(prev, curr, elapsed_ns).contains(
                iface_rate(prev, #[trigger] curr[r], elapsed_ns),
            ),
        forall|i: int, j: int|
            0 <= i < j < curr.len() ==> word_le(
                (#[trigger] net_rates(prev, curr, elapsed_ns)[i]).name,
                (#[trigger] net_rates(prev, curr, elapsed_ns)[j]).name,
            ),
{
    let names = iface_names(curr);
    law_ranking_exists(names);
    let rows = iface_rates(prev, curr, elapsed_ns);
    let out = net_rates(prev, curr, elapsed_ns);
    law_ranked_loses_nothing(rows, names);
    assert forall|r: int| 0 <= r < curr.len() implies out.contains(
        iface_rate(prev, #[trigger] curr[r], elapsed_ns),
    ) by {
        assert(out.contains(rows[r]));
    }
    assert forall|i: int, j: int| 0 <= i < j < curr.len() implies word_le(
        (#[trigger] out[i]).name,
        (#[trigger] out[j]).name,
    ) by {
        assert(before(names, ranking(names)[i], ranking(names)[j]));
    }
}

/// Whether no two entries have one name.
pub open spec fn entry_names_differ(es: Seq<CardEntryView>) -> bool {
    forall|i: int, j: int|
        0 <= i < j < es.len() ==> (#[trigger] es[i]).name != (#[trigger] es[j]).name
}

proof fn lemma_cards_in(es: Seq<CardEntryView>)
    ensures
        entry_names_differ(es) ==> forall|i: int, j: int|
            0 <= i < j < cards_in(es).len() ==> (#[trigger] cards_in(es)[i]).card != (
            #[trigger] cards_in(es)[j]).card,
        forall|i: int|
            0 <= i < cards_in(es).len() ==> exists|j: int|
                0 <= j < es.len() && card_of(#[trigger] es[j]) == Some(#[trigger] cards_in(es)[i]),
        forall|j: int|
            0 <= j < es.len() && card_of(#[trigger] es[j]) is Some ==> cards_in(es).contains(
                card_of(es[j])->0,
            ),
    decreases es.len(),
{
    if es.len() > 0 {
        let rest = es.drop_last();
        lemma_cards_in(rest);
        let a = cards_in(rest);
        let b = cards_in(es);
        assert forall|i: int| 0 <= i < b.len() implies exists|j: int|
            0 <= j < es.len() && card_of(#[trigger] es[j]) == Some(#[trigger] b[i]) by {
            if i < a.len() {
                assert(b[i] == a[i]);
                let j = choose|j: int|
                    0 <= j < rest.len() && card_of(#[trigger] rest[j]) == Some(a[i]);
                assert(es[j] == rest[j]);
            } else {
                assert(card_of(es[es.len() - 1]) == Some(b[i]));
            }
        }
        if entry_names_differ(es) {
            assert forall|i: int, j: int| 0 <= i < j < rest.len() implies (
            #[trigger] rest[i]).name != (#[trigger] rest[j]).name by {
                assert(es[i].name != es[j].name);
            }
            assert forall|i: int, j: int| 0 <= i < j < b.len() implies (#[trigger] b[i]).card != (
            #[trigger] b[j]).card by {
                assert(b[i] == a[i]);
                if j < a.len() {
                    assert(b[j] == a[j]);
                } else {
                    let k = choose|k: int|
                        0 <= k < rest.len() && card_of(#[trigger] rest[k]) == Some(a[i]);
                    assert(es[k].name != es[es.len() - 1].name);
                }
            }
        }
        assert forall|j: int| 0 <= j < es.len() && card_of(#[trigger] es[j]) is Some implies b.contains(
            card_of(es[j])->0,
        ) by {
            if j < rest.len() {
                assert(es[j] == rest[j]);
                let c = card_of(rest[j])->0;
                assert(a.contains(c));
                let k = choose|k: int| 0 <= k < a.len() && a[k] == c;
                assert(b[k] == c);
            } else {
                assert(b[a.len() as int] == card_of(es[j])->0);
            }
        }
    }
}

/// The cards that are found are the entries with a card's name and a known
/// vendor, and they are listed by name; where the entries have different names,
/// each once.
pub proof fn law_cards_are_found(es: Seq<CardEntryView>)
    ensures
        forall|i: int| #![trigger discovered(es)[i]]
            0 <= i < discovered(es).len() ==> is_card(discovered(es)[i].card) && exists|j: int|
                0 <= j < es.len() && card_of(#[trigger] es[j]) == Some(discovered(es)[i]),
        forall|j: int|
            0 <= j < es.len() && is_card((#[trigger] es[j]).name) && vendor_of(
                es[j].vendor,
            ) is Some ==> discovered(es).contains(card_of(es[j])->0),
        forall|i: int, j: int|
            0 <= i < j < discovered(es).len() ==> word_le(
                (#[trigger] discovered(es)[i]).card,
                (#[trigger] discovered(es)[j]).card,
            ),
        entry_names_differ(es) ==> forall|i: int, j: int|
            0 <= i < j < discovered(es).len() ==> (#[trigger] discovered(es)[i]).card != (
            #[trigger] discovered(es)[j]).card,
{
    let all = cards_in(es);
    let names = card_names(all);
    let out = discovered(es);
    lemma_cards_in(es);
    lemma_ranked_rows(all, names, None);
    law_ranked_loses_nothing(all, names);
    law_ranking_exists(names);
    assert forall|i: int| #![trigger out[i]] 0 <= i < out.len() implies is_card(out[i].card)
        && exists|j: int| 0 <= j < es.len() && card_of(#[trigger] es[j]) == Some(out[i]) by {
        assert(out[i] == all[ranking(names)[i]]);
    }
    assert forall|j: int|
        0 <= j < es.len() && is_card((#[trigger] es[j]).name) && vendor_of(es[j].vendor) is Some
        implies out.contains(card_of(es[j])->0) by {
        let c = card_of(es[j])->0;
        assert(all.contains(c));
        let k = choose|k: int| 0 <= k < all.len() && all[k] == c;
        assert(out.contains(all[k]));
    }
    assert forall|i: int, j: int| 0 <= i < j < out.len() implies word_le(
        (#[trigger] out[i]).card,
        (#[trigger] out[j]).card,
    ) by {
        assert(before(names, ranking(names)[i], ranking(names)[j]));
    }
    if entry_names_differ(es) {
        assert forall|i: int, j: int| 0 <= i < j < out.len() implies (#[trigger] out[i]).card != (
        #[trigger] out[j]).card by {
            let a = ranking(names)[i];
            let b = ranking(names)[j];
            assert(a != b);
            assert(out[i] == all[a] && out[j] == all[b]);
            if a < b {
                assert(all[a].card != all[b].card);
            } else {
                assert(all[b].card != all[a].card);
            }
        }
    }
}

} // verus!
