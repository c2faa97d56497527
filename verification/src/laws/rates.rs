//! What the rates of interfaces and disks say of the counters of two samples.

use vstd::arithmetic::div_mod::lemma_fundamental_div_mod;
use vstd::prelude::*;

use crate::diff::{
    iface_named, iface_names, iface_rate, iface_rates, net_rates, net_rates_fit, rx_gain, tx_gain,
    IfaceOutView,
};
use crate::disk::{
    dev_named, dev_rate, disk_rates, disk_rates_fit, law_disk_rates_list_every_device, read_gain,
    write_gain, DiskDevView,
};
use crate::procfs::IfaceView;
use crate::rank::{
    before, law_ranking_exists, law_ranking_lists_every_row, ranking, word_le,
};
use crate::rate::{rate, rate_fits};
use crate::tree::DiskRateView;

verus! {

/// Whether `at` lists the numbers below `n`, each once.
pub open spec fn is_arrangement(at: Seq<int>, n: nat) -> bool {
    &&& at.len() == n
    &&& at.no_duplicates()
    &&& forall|k: int| 0 <= k < at.len() ==> 0 <= #[trigger] at[k] < n
}

/// Whether `r` bytes per second are what `delta` bytes in the time come to,
/// rounded down.
pub open spec fn is_rate(r: int, delta: int, elapsed_ns: int) -> bool {
    r * elapsed_ns <= delta * 1_000_000_000 && delta * 1_000_000_000 < (r + 1) * elapsed_ns
}

/// Whether `delta` bytes in the time come to a number of bytes per second of 64
/// bits.
pub open spec fn rate_is_u64(delta: int, elapsed_ns: int) -> bool {
    delta * 1_000_000_000 < 0x1_0000_0000_0000_0000 * elapsed_ns
}

/// Whether `r` is the rate of a counter that stood at `then` and stands at `now`:
/// 0 where it went back or no time has passed.
pub open spec fn is_rate_between(r: u64, then: u64, now: u64, elapsed_ns: u64) -> bool {
    &&& elapsed_ns == 0 || now < then ==> r == 0
    &&& elapsed_ns > 0 && now >= then && rate_is_u64(now - then, elapsed_ns as int) ==> is_rate(
        r as int,
        now - then,
        elapsed_ns as int,
    )
}

/// Bytes per second times the time come to the bytes, but for less than one byte
/// per second; nothing moved, or no time passed, is no rate.
pub proof fn law_bytes_per_second(delta: u64, elapsed_ns: u64)
    ensures
        elapsed_ns == 0 ==> rate(delta, elapsed_ns) == 0,
        delta == 0 ==> rate(delta, elapsed_ns) == 0,
        elapsed_ns > 0 ==> (rate_fits(delta, elapsed_ns) <==> rate_is_u64(
            delta as int,
            elapsed_ns as int,
        )),
        elapsed_ns > 0 && rate_is_u64(delta as int, elapsed_ns as int) ==> is_rate(
            rate(delta, elapsed_ns) as int,
            delta as int,
            elapsed_ns as int,
        ),
{
    if elapsed_ns > 0 {
        let e = elapsed_ns as int;
        let x = delta * 1_000_000_000;
        let q = x / e;
        lemma_fundamental_div_mod(x, e);
        assert(q * e <= x < (q + 1) * e) by (nonlinear_arith)
            requires
                x == e * q + x % e,
                0 <= x % e < e,
        ;
        assert(q <= u64::MAX <==> x < 0x1_0000_0000_0000_0000 * e) by (nonlinear_arith)
            requires
                q * e <= x < (q + 1) * e,
                e > 0,
        ;
        assert(q >= 0) by (nonlinear_arith)
            requires
                q * e <= x < (q + 1) * e,
                x >= 0,
                e > 0,
        ;
        if delta == 0 {
            assert(q == 0) by (nonlinear_arith)
                requires
                    q * e <= 0,
                    q >= 0,
                    e > 0,
            ;
        }
    }
}

/// Whether place `j` is the last of an interface with this name.
pub open spec fn is_last_iface(s: Seq<IfaceView>, j: int, name: Seq<char>) -> bool {
    &&& 0 <= j < s.len()
    &&& s[j].name == name
    &&& forall|k: int| j < k < s.len() ==> (#[trigger] s[k]).name != name
}

/// Whether no interface has this name.
pub open spec fn no_iface(s: Seq<IfaceView>, name: Seq<char>) -> bool {
    forall|k: int| 0 <= k < s.len() ==> (#[trigger] s[k]).name != name
}

/// Whether a row shows what an interface has carried since the earlier sample:
/// nothing where that lacks it, and of several with its name the last counts.
pub open spec fn shows_iface(
    row: IfaceOutView,
    prev: Seq<IfaceView>,
    x: IfaceView,
    elapsed_ns: u64,
) -> bool {
    &&& row.name == x.name
    &&& no_iface(prev, x.name) ==> row.rx_bytes_per_sec == 0 && row.tx_bytes_per_sec == 0
    &&& forall|j: int| #[trigger]
        is_last_iface(prev, j, x.name) ==> is_rate_between(
            row.rx_bytes_per_sec,
            prev[j].rx_bytes,
            x.rx_bytes,
            elapsed_ns,
        ) && is_rate_between(
            row.tx_bytes_per_sec,
            prev[j].tx_bytes,
            x.tx_bytes,
            elapsed_ns,
        )
}

/// Whether the rows show the interfaces of the later sample, in this order, which
/// is that of their names.
pub open spec fn shows_ifaces(
    rows: Seq<IfaceOutView>,
    prev: Seq<IfaceView>,
    curr: Seq<IfaceView>,
    elapsed_ns: u64,
    at: Seq<int>,
) -> bool {
    &&& is_arrangement(at, curr.len())
    &&& rows.len() == curr.len()
    &&& forall|k: int|
        0 <= k < rows.len() ==> shows_iface(#[trigger] rows[k], prev, curr[at[k]], elapsed_ns)
    &&& forall|i: int, j: int|
        0 <= i < j < rows.len() ==> word_le((#[trigger] rows[i]).name, (#[trigger] rows[j]).name)
    &&& forall|i: int, j: int|
        0 <= i < j < rows.len() && (#[trigger] rows[i]).name == (#[trigger] rows[j]).name ==> at[i]
            < at[j]
}

proof fn lemma_iface_named(s: Seq<IfaceView>, name: Seq<char>)
    ensures
        no_iface(s, name) ==> iface_named(s, name) is None,
        forall|j: int| #[trigger] is_last_iface(s, j, name) ==> iface_named(s, name) == Some(s[j]),
    decreases s.len(),
{
    if s.len() > 0 {
        let rest = s.drop_last();
        lemma_iface_named(rest, name);
        assert(s.last() == s[s.len() - 1]);
        if no_iface(s, name) {
            assert forall|k: int| 0 <= k < rest.len() implies (#[trigger] rest[k]).name != name by {
                assert(s[k].name != name);
            }
        }
        assert forall|j: int| #[trigger] is_last_iface(s, j, name) implies iface_named(s, name)
            == Some(s[j]) by {
            if j < rest.len() {
                assert(s[s.len() - 1].name != name);
                assert(is_last_iface(rest, j, name)) by {
                    assert forall|k: int| j < k < rest.len() implies (#[trigger] rest[k]).name
                        != name by {
                        assert(s[k].name != name);
                    }
                }
            }
        }
    }
}

proof fn lemma_shows_iface(prev: Seq<IfaceView>, x: IfaceView, elapsed_ns: u64)
    ensures
        shows_iface(iface_rate(prev, x, elapsed_ns), prev, x, elapsed_ns),
{
    let row = iface_rate(prev, x, elapsed_ns);
    lemma_iface_named(prev, x.name);
    law_bytes_per_second(0, elapsed_ns);
    assert forall|j: int| #[trigger] is_last_iface(prev, j, x.name) implies is_rate_between(
        row.rx_bytes_per_sec,
        prev[j].rx_bytes,
        x.rx_bytes,
        elapsed_ns,
    ) && is_rate_between(
        row.tx_bytes_per_sec,
        prev[j].tx_bytes,
        x.tx_bytes,
        elapsed_ns,
    ) by {
        if x.rx_bytes >= prev[j].rx_bytes {
            law_bytes_per_second((x.rx_bytes - prev[j].rx_bytes) as u64, elapsed_ns);
        }
        if x.tx_bytes >= prev[j].tx_bytes {
            law_bytes_per_second((x.tx_bytes - prev[j].tx_bytes) as u64, elapsed_ns);
        }
    }
}

/// Each interface of the later sample is shown once, by name, with what it has
/// received and sent since the earlier sample.
pub proof fn law_interface_rates(prev: Seq<IfaceView>, curr: Seq<IfaceView>, elapsed_ns: u64)
    ensures
        exists|at: Seq<int>| #[trigger]
            shows_ifaces(net_rates(prev, curr, elapsed_ns), prev, curr, elapsed_ns, at),
{
    let names = iface_names(curr);
    let at = ranking(names);
    let rows = net_rates(prev, curr, elapsed_ns);
    law_ranking_exists(names);
    law_ranking_lists_every_row(names, at);
    assert forall|k: int| 0 <= k < rows.len() implies shows_iface(
        #[trigger] rows[k],
        prev,
        curr[at[k]],
        elapsed_ns,
    ) by {
        assert(rows[k] == iface_rates(prev, curr, elapsed_ns)[at[k]]);
        lemma_shows_iface(prev, curr[at[k]], elapsed_ns);
    }
    assert forall|i: int, j: int| 0 <= i < j < rows.len() implies word_le(
        (#[trigger] rows[i]).name,
        (#[trigger] rows[j]).name,
    ) && (rows[i].name == rows[j].name ==> at[i] < at[j]) by {
        assert(before(names, at[i], at[j]));
        assert(names[at[i]] == rows[i].name && names[at[j]] == rows[j].name);
    }
    assert(shows_ifaces(rows, prev, curr, elapsed_ns, at));
}

/// The rates of the interfaces can be shown exactly if each is a number of 64
/// bits.
pub proof fn law_interface_rates_that_fit(
    prev: Seq<IfaceView>,
    curr: Seq<IfaceView>,
    elapsed_ns: u64,
)
    ensures
        net_rates_fit(prev, curr, elapsed_ns) <==> forall|i: int, j: int| #![trigger curr[i], prev[j]]
            elapsed_ns > 0 && 0 <= i < curr.len() && is_last_iface(prev, j, curr[i].name) ==> {
                &&& curr[i].rx_bytes >= prev[j].rx_bytes ==> rate_is_u64(
                    curr[i].rx_bytes - prev[j].rx_bytes,
                    elapsed_ns as int,
                )
                &&& curr[i].tx_bytes >= prev[j].tx_bytes ==> rate_is_u64(
                    curr[i].tx_bytes - prev[j].tx_bytes,
                    elapsed_ns as int,
                )
            },
{
    assert forall|i: int, j: int|
        0 <= i < curr.len() && #[trigger] is_last_iface(prev, j, (#[trigger] curr[i]).name)
        implies iface_named(prev, curr[i].name) == Some(prev[j]) by {
        lemma_iface_named(prev, curr[i].name);
    }
    assert forall|d: u64| elapsed_ns > 0 implies (#[trigger] rate_fits(d, elapsed_ns)
        <==> rate_is_u64(d as int, elapsed_ns as int)) by {
        law_bytes_per_second(d, elapsed_ns);
    }
    let fits = forall|i: int, j: int| #![trigger curr[i], prev[j]]
        elapsed_ns > 0 && 0 <= i < curr.len() && is_last_iface(prev, j, curr[i].name) ==> {
            &&& curr[i].rx_bytes >= prev[j].rx_bytes ==> rate_is_u64(
                curr[i].rx_bytes - prev[j].rx_bytes,
                elapsed_ns as int,
            )
            &&& curr[i].tx_bytes >= prev[j].tx_bytes ==> rate_is_u64(
                curr[i].tx_bytes - prev[j].tx_bytes,
                elapsed_ns as int,
            )
        };
    if net_rates_fit(prev, curr, elapsed_ns) {
        assert forall|i: int, j: int| #![trigger curr[i], prev[j]]
            elapsed_ns > 0 && 0 <= i < curr.len() && is_last_iface(
                prev,
                j,
                curr[i].name,
            ) implies {
            &&& curr[i].rx_bytes >= prev[j].rx_bytes ==> rate_is_u64(
                curr[i].rx_bytes - prev[j].rx_bytes,
                elapsed_ns as int,
            )
            &&& curr[i].tx_bytes >= prev[j].tx_bytes ==> rate_is_u64(
                curr[i].tx_bytes - prev[j].tx_bytes,
                elapsed_ns as int,
            )
        } by {
            assert(iface_named(prev, curr[i].name) == Some(prev[j]));
        }
    }
    if fits {
        assert forall|i: int| #![trigger curr[i]] 0 <= i < curr.len() implies rate_fits(
            rx_gain(prev, curr[i]),
            elapsed_ns,
        ) && rate_fits(tx_gain(prev, curr[i]), elapsed_ns) by {
            lemma_iface_place(prev, curr[i].name);
            law_bytes_per_second(0, elapsed_ns);
            if let Some(p) = iface_named(prev, curr[i].name) {
                let j = choose|j: int| is_last_iface(prev, j, curr[i].name);
                assert(iface_named(prev, curr[i].name) == Some(prev[j]));
            }
        }
    }
}

proof fn lemma_iface_place(s: Seq<IfaceView>, name: Seq<char>)
    ensures
        iface_named(s, name) is Some ==> exists|j: int| is_last_iface(s, j, name),
    decreases s.len(),
{
    if s.len() > 0 {
        let rest = s.drop_last();
        if s.last().name == name {
            assert(is_last_iface(s, s.len() - 1, name));
        } else if iface_named(s, name) is Some {
            lemma_iface_place(rest, name);
            let j = choose|j: int| is_last_iface(rest, j, name);
            assert(is_last_iface(s, j, name)) by {
                assert(rest[j] == s[j]);
                assert forall|k: int| j < k < s.len() implies (#[trigger] s[k]).name != name by {
                    if k < rest.len() {
                        assert(rest[k].name != name);
                    }
                }
            }
        }
    }
}

/// Whether place `j` is the last of a device with this name.
pub open spec fn is_last_dev(s: Seq<DiskDevView>, j: int, name: Seq<char>) -> bool {
    &&& 0 <= j < s.len()
    &&& s[j].name == name
    &&& forall|k: int| j < k < s.len() ==> (#[trigger] s[k]).name != name
}

/// Whether no device has this name.
pub open spec fn no_dev(s: Seq<DiskDevView>, name: Seq<char>) -> bool {
    forall|k: int| 0 <= k < s.len() ==> (#[trigger] s[k]).name != name
}

/// Whether a row shows what a device has moved since the earlier sample: nothing
/// where that lacks it, and of several with its name the last counts.
pub open spec fn shows_dev(
    row: DiskRateView,
    prev: Seq<DiskDevView>,
    d: DiskDevView,
    elapsed_ns: u64,
) -> bool {
    &&& row.name == d.name
    &&& no_dev(prev, d.name) ==> row.read_bytes_per_sec == 0 && row.write_bytes_per_sec == 0
    &&& forall|j: int| #[trigger]
        is_last_dev(prev, j, d.name) ==> is_rate_between(
            row.read_bytes_per_sec,
            prev[j].read_bytes,
            d.read_bytes,
            elapsed_ns,
        ) && is_rate_between(
            row.write_bytes_per_sec,
            prev[j].write_bytes,
            d.write_bytes,
            elapsed_ns,
        )
}

/// Whether each row shows the last device of the later sample with its name.
#[verifier::opaque]
pub open spec fn rows_show_devs(
    rows: Seq<DiskRateView>,
    prev: Seq<DiskDevView>,
    curr: Seq<DiskDevView>,
    elapsed_ns: u64,
) -> bool {
    forall|k: int| #![trigger rows[k]]
        0 <= k < rows.len() ==> exists|j: int|
            is_last_dev(curr, j, rows[k].name) && shows_dev(
                rows[k],
                prev,
                #[trigger] curr[j],
                elapsed_ns,
            )
}

/// Whether there is a row for the name of each device.
#[verifier::opaque]
pub open spec fn devs_have_rows(curr: Seq<DiskDevView>, rows: Seq<DiskRateView>) -> bool {
    forall|j: int|
        0 <= j < curr.len() ==> exists|k: int|
            0 <= k < rows.len() && (#[trigger] rows[k]).name == (#[trigger] curr[j]).name
}

/// Whether the rows show the devices of the later sample by name, of those with
/// one name the last.
pub open spec fn shows_devs(
    rows: Seq<DiskRateView>,
    prev: Seq<DiskDevView>,
    curr: Seq<DiskDevView>,
    elapsed_ns: u64,
) -> bool {
    &&& rows_show_devs(rows, prev, curr, elapsed_ns)
    &&& devs_have_rows(curr, rows)
    &&& forall|i: int, j: int|
        0 <= i < j < rows.len() ==> (#[trigger] rows[i]).name != (#[trigger] rows[j]).name
            && word_le(rows[i].name, rows[j].name)
}

proof fn lemma_dev_named(s: Seq<DiskDevView>, name: Seq<char>)
    ensures
        no_dev(s, name) ==> dev_named(s, name) is None,
        forall|j: int| #[trigger] is_last_dev(s, j, name) ==> dev_named(s, name) == Some(s[j]),
        !no_dev(s, name) ==> exists|j: int| is_last_dev(s, j, name),
    decreases s.len(),
{
    if s.len() > 0 {
        let rest = s.drop_last();
        lemma_dev_named(rest, name);
        assert(s.last() == s[s.len() - 1]);
        if no_dev(s, name) {
            assert forall|k: int| 0 <= k < rest.len() implies (#[trigger] rest[k]).name != name by {
                assert(s[k].name != name);
            }
        }
        assert forall|j: int| #[trigger] is_last_dev(s, j, name) implies dev_named(s, name) == Some(
            s[j],
        ) by {
            if j < rest.len() {
                assert(s[s.len() - 1].name != name);
                assert(is_last_dev(rest, j, name)) by {
                    assert forall|k: int| j < k < rest.len() implies (#[trigger] rest[k]).name
                        != name by {
                        assert(s[k].name != name);
                    }
                }
            }
        }
        if !no_dev(s, name) {
            if s.last().name == name {
                assert(is_last_dev(s, s.len() - 1, name));
            } else {
                let i = choose|i: int| 0 <= i < s.len() && (#[trigger] s[i]).name == name;
                assert(rest[i].name == name);
                let j = choose|j: int| is_last_dev(rest, j, name);
                assert(is_last_dev(s, j, name)) by {
                    assert(rest[j] == s[j]);
                    assert forall|k: int| j < k < s.len() implies (#[trigger] s[k]).name != name by {
                        if k < rest.len() {
                            assert(rest[k].name != name);
                        }
                    }
                }
            }
        }
    }
}

proof fn lemma_shows_dev(prev: Seq<DiskDevView>, d: DiskDevView, elapsed_ns: u64)
    ensures
        shows_dev(dev_rate(prev, d, elapsed_ns), prev, d, elapsed_ns),
{
    let row = dev_rate(prev, d, elapsed_ns);
    lemma_dev_named(prev, d.name);
    law_bytes_per_second(0, elapsed_ns);
    assert forall|j: int| #[trigger] is_last_dev(prev, j, d.name) implies is_rate_between(
        row.read_bytes_per_sec,
        prev[j].read_bytes,
        d.read_bytes,
        elapsed_ns,
    ) && is_rate_between(
        row.write_bytes_per_sec,
        prev[j].write_bytes,
        d.write_bytes,
        elapsed_ns,
    ) by {
        if d.read_bytes >= prev[j].read_bytes {
            law_bytes_per_second((d.read_bytes - prev[j].read_bytes) as u64, elapsed_ns);
        }
        if d.write_bytes >= prev[j].write_bytes {
            law_bytes_per_second((d.write_bytes - prev[j].write_bytes) as u64, elapsed_ns);
        }
    }
}

proof fn lemma_rows_show_devs(prev: Seq<DiskDevView>, curr: Seq<DiskDevView>, elapsed_ns: u64)
    ensures
        rows_show_devs(disk_rates(prev, curr, elapsed_ns), prev, curr, elapsed_ns),
{
    reveal(rows_show_devs);
    let rows = disk_rates(prev, curr, elapsed_ns);
    law_disk_rates_list_every_device(prev, curr, elapsed_ns);
    assert forall|k: int| #![trigger rows[k]] 0 <= k < rows.len() implies exists|j: int|
        is_last_dev(curr, j, rows[k].name) && shows_dev(
            rows[k],
            prev,
            #[trigger] curr[j],
            elapsed_ns,
        ) by {
        let name = rows[k].name;
        lemma_dev_named(curr, name);
        let j = choose|j: int| is_last_dev(curr, j, name);
        assert(dev_named(curr, name) == Some(curr[j]));
        lemma_shows_dev(prev, curr[j], elapsed_ns);
    }
}

proof fn lemma_devs_have_rows(prev: Seq<DiskDevView>, curr: Seq<DiskDevView>, elapsed_ns: u64)
    ensures
        devs_have_rows(curr, disk_rates(prev, curr, elapsed_ns)),
{
    reveal(devs_have_rows);
    let rows = disk_rates(prev, curr, elapsed_ns);
    law_disk_rates_list_every_device(prev, curr, elapsed_ns);
    assert forall|j: int| 0 <= j < curr.len() implies exists|k: int|
        0 <= k < rows.len() && (#[trigger] rows[k]).name == (#[trigger] curr[j]).name by {
        let name = curr[j].name;
        lemma_dev_named(curr, name);
        let i = choose|i: int| is_last_dev(curr, i, name);
        let row = dev_rate(prev, curr[i], elapsed_ns);
        assert(dev_named(curr, name) == Some(curr[i]));
        assert(rows.contains(row));
        let k = choose|k: int| 0 <= k < rows.len() && rows[k] == row;
        assert(rows[k].name == curr[j].name);
    }
}

/// Each device of the later sample is shown once, by name, with what it has read
/// and written since the earlier sample.
pub proof fn law_device_rates(prev: Seq<DiskDevView>, curr: Seq<DiskDevView>, elapsed_ns: u64)
    ensures
        shows_devs(disk_rates(prev, curr, elapsed_ns), prev, curr, elapsed_ns),
{
    law_disk_rates_list_every_device(prev, curr, elapsed_ns);
    lemma_rows_show_devs(prev, curr, elapsed_ns);
    lemma_devs_have_rows(prev, curr, elapsed_ns);
}

/// The rates of the devices can be shown exactly if each is a number of 64 bits.
pub proof fn law_device_rates_that_fit(
    prev: Seq<DiskDevView>,
    curr: Seq<DiskDevView>,
    elapsed_ns: u64,
)
    ensures
        disk_rates_fit(prev, curr, elapsed_ns) <==> forall|i: int, j: int|
            #![trigger curr[i], prev[j]]
            elapsed_ns > 0 && 0 <= i < curr.len() && is_last_dev(prev, j, curr[i].name) ==> {
                &&& curr[i].read_bytes >= prev[j].read_bytes ==> rate_is_u64(
                    curr[i].read_bytes - prev[j].read_bytes,
                    elapsed_ns as int,
                )
                &&& curr[i].write_bytes >= prev[j].write_bytes ==> rate_is_u64(
                    curr[i].write_bytes - prev[j].write_bytes,
                    elapsed_ns as int,
                )
            },
{
    assert forall|i: int, j: int|
        0 <= i < curr.len() && #[trigger] is_last_dev(prev, j, (#[trigger] curr[i]).name)
        implies dev_named(prev, curr[i].name) == Some(prev[j]) by {
        lemma_dev_named(prev, curr[i].name);
    }
    assert forall|d: u64| elapsed_ns > 0 implies (#[trigger] rate_fits(d, elapsed_ns)
        <==> rate_is_u64(d as int, elapsed_ns as int)) by {
        law_bytes_per_second(d, elapsed_ns);
    }
    let fits = forall|i: int, j: int| #![trigger curr[i], prev[j]]
        elapsed_ns > 0 && 0 <= i < curr.len() && is_last_dev(prev, j, curr[i].name) ==> {
            &&& curr[i].read_bytes >= prev[j].read_bytes ==> rate_is_u64(
                curr[i].read_bytes - prev[j].read_bytes,
                elapsed_ns as int,
            )
            &&& curr[i].write_bytes >= prev[j].write_bytes ==> rate_is_u64(
                curr[i].write_bytes - prev[j].write_bytes,
                elapsed_ns as int,
            )
        };
    if disk_rates_fit(prev, curr, elapsed_ns) {
        assert forall|i: int, j: int| #![trigger curr[i], prev[j]]
            elapsed_ns > 0 && 0 <= i < curr.len() && is_last_dev(prev, j, curr[i].name) implies {
            &&& curr[i].read_bytes >= prev[j].read_bytes ==> rate_is_u64(
                curr[i].read_bytes - prev[j].read_bytes,
                elapsed_ns as int,
            )
            &&& curr[i].write_bytes >= prev[j].write_bytes ==> rate_is_u64(
                curr[i].write_bytes - prev[j].write_bytes,
                elapsed_ns as int,
            )
        } by {
            assert(dev_named(prev, curr[i].name) == Some(prev[j]));
        }
    }
    if fits {
        assert forall|i: int| #![trigger curr[i]] 0 <= i < curr.len() implies rate_fits(
            read_gain(prev, curr[i]),
            elapsed_ns,
        ) && rate_fits(write_gain(prev, curr[i]), elapsed_ns) by {
            lemma_dev_named(prev, curr[i].name);
            law_bytes_per_second(0, elapsed_ns);
            if !no_dev(prev, curr[i].name) {
                let j = choose|j: int| is_last_dev(prev, j, curr[i].name);
                assert(dev_named(prev, curr[i].name) == Some(prev[j]));
            }
        }
    }
}

} // verus!
