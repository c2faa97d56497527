//! Graphics cards: which there are, and what their files say.

use vstd::prelude::*;

use crate::fdinfo::Vendor;
use crate::nvml::{nvml_succeeded, NvmlReading, NVML_SUCCESS};
use crate::number::{parse_i32, parse_u64_or_zero, signed, u64_or_zero};
use crate::rank::{labels, ranked, sort_by_name, views, Named};
use crate::text::{
    clone_opt, cut, cut_at, find_line, is_word, line_with, lines, opt_text, run_end, run_len,
    split_lines, starts_with, to_chars, to_text, trim, trimmed, Class,
};

verus! {

/// What was found out about one entry of the directory of cards.
#[derive(Debug, PartialEq, Eq)]
pub struct CardEntry {
    pub name: String,
    /// The text of the entry's vendor file.
    pub vendor: String,
    /// The text of the entry's event file.
    pub uevent: String,
    /// The path of the card's first sensor directory.
    pub hwmon_path: Option<String>,
}

/// What a `CardEntry` says.
pub struct CardEntryView {
    pub name: Seq<char>,
    pub vendor: Seq<char>,
    pub uevent: Seq<char>,
    pub hwmon_path: Option<Seq<char>>,
}

impl View for CardEntry {
    type V = CardEntryView;

    open spec fn view(&self) -> CardEntryView {
        CardEntryView {
            name: self.name@,
            vendor: self.vendor@,
            uevent: self.uevent@,
            hwmon_path: opt_text(self.hwmon_path),
        }
    }
}

/// What a list of entries says.
pub open spec fn entries_of(v: Seq<CardEntry>) -> Seq<CardEntryView> {
    Seq::new(v.len(), |i: int| v[i]@)
}

/// A graphics card, as found at the start.
#[derive(Debug, PartialEq, Eq)]
pub struct GpuCardMeta {
    pub card: String,
    /// The card's bus address.
    pub pdev: String,
    pub vendor: Vendor,
    pub path_busy: String,
    pub path_vram_used: String,
    pub path_vram_total: String,
    pub hwmon_path: Option<String>,
}

/// What a `GpuCardMeta` says.
pub struct CardView {
    pub card: Seq<char>,
    pub pdev: Seq<char>,
    pub vendor: Vendor,
    pub path_busy: Seq<char>,
    pub path_vram_used: Seq<char>,
    pub path_vram_total: Seq<char>,
    pub hwmon_path: Option<Seq<char>>,
}

impl View for GpuCardMeta {
    type V = CardView;

    open spec fn view(&self) -> CardView {
        CardView {
            card: self.card@,
            pdev: self.pdev@,
            vendor: self.vendor,
            path_busy: self.path_busy@,
            path_vram_used: self.path_vram_used@,
            path_vram_total: self.path_vram_total@,
            hwmon_path: opt_text(self.hwmon_path),
        }
    }
}

/// What a list of cards says.
pub open spec fn cards_of(v: Seq<GpuCardMeta>) -> Seq<CardView> {
    Seq::new(v.len(), |i: int| v[i]@)
}

/// The vendor that a vendor file names.
pub open spec fn vendor_of(content: Seq<char>) -> Option<Vendor> {
    if trim(content) == "0x1002"@ {
        Some(Vendor::Amd)
    } else if trim(content) == "0x10de"@ {
        Some(Vendor::Nvidia)
    } else if trim(content) == "0x8086"@ {
        Some(Vendor::Intel)
    } else {
        None
    }
}

/// The vendor that a vendor file names.
pub fn detect_vendor(content: &str) -> (r: Option<Vendor>)
    ensures
        r == vendor_of(content@),
{
    let chars = to_chars(content);
    let id = trimmed(chars.as_slice());
    if is_word(id, "0x1002") {
        Some(Vendor::Amd)
    } else if is_word(id, "0x10de") {
        Some(Vendor::Nvidia)
    } else if is_word(id, "0x8086") {
        Some(Vendor::Intel)
    } else {
        None
    }
}

/// Whether an entry of the directory is a card: connectors have a dash in their
/// names.
pub open spec fn is_card(name: Seq<char>) -> bool {
    "card"@.is_prefix_of(name) && !name.contains('-')
}

/// Whether an entry of the directory is a card.
pub fn is_card_name(name: &str) -> (r: bool)
    ensures
        r == is_card(name@),
{
    let chars = to_chars(name);
    if !starts_with(chars.as_slice(), to_chars("card").as_slice()) {
        return false;
    }
    let mut i: usize = 0;
    while i < chars.len()
        invariant
            i <= chars.len(),
            chars@ == name@,
            forall|j: int| 0 <= j < i ==> chars@[j] != '-',
        decreases chars.len() - i,
    {
        if chars[i] == '-' {
            assert(name@.contains('-'));
            return false;
        }
        i = i + 1;
    }
    true
}

/// What stands between the first `c` of `s` and the next, or the end.
pub open spec fn second_part(s: Seq<char>, c: char) -> Seq<char> {
    match cut(s, c) {
        Some((_, rest)) => rest.take(run_len(rest, Class::Is(c), false) as int),
        None => seq![],
    }
}

/// The bus address that an event file says, or the empty text.
pub open spec fn pdev_of(content: Seq<char>) -> Seq<char> {
    match line_with(lines(content), "PCI_SLOT_NAME="@) {
        Some(line) => trim(second_part(line, '=')),
        None => seq![],
    }
}

/// The bus address that an event file says, or the empty text.
pub fn read_pdev(content: &str) -> (r: String)
    ensures
        r@ == pdev_of(content@),
{
    let chars = to_chars(content);
    let all = split_lines(chars.as_slice());
    match find_line(&all, "PCI_SLOT_NAME=") {
        Some(line) => match cut_at(line, '=') {
            Some((_, rest)) => {
                let end = run_end(rest, 0, Class::Is('='), false);
                assert(rest@.skip(0) =~= rest@);
                let part = &rest[0..end];
                assert(part@ =~= second_part(line@, '='));
                to_text(trimmed(part))
            },
            None => {
                let r = String::new();
                proof {
                    assert(second_part(line@, '=') =~= seq![]);
                    assert(trim(seq![]) =~= seq![]) by {
                        assert(Seq::<char>::empty().skip(0) =~= Seq::<char>::empty());
                    }
                }
                r
            },
        },
        None => String::new(),
    }
}

/// The directory of a card's device.
pub open spec fn device_dir(card: Seq<char>) -> Seq<char> {
    "/sys/class/drm/"@ + card + "/device"@
}

/// The directory of a card's device.
pub fn device_path(card: &str) -> (r: String)
    ensures
        r@ == device_dir(card@),
{
    let mut r = "/sys/class/drm/".to_owned();
    r.append(card);
    r.append("/device");
    r
}

/// A file of a directory.
fn path_in(dir: &String, file: &str) -> (r: String)
    ensures
        r@ == dir@ + file@,
{
    let mut r = dir.clone();
    r.append(file);
    r
}

/// The card that an entry is: one with a card's name and a known vendor.
pub open spec fn card_of(e: CardEntryView) -> Option<CardView> {
    match vendor_of(e.vendor) {
        Some(vendor) => if is_card(e.name) {
            Some(
                CardView {
                    card: e.name,
                    pdev: pdev_of(e.uevent),
                    vendor,
                    path_busy: device_dir(e.name) + "/gpu_busy_percent"@,
                    path_vram_used: device_dir(e.name) + "/mem_info_vram_used"@,
                    path_vram_total: device_dir(e.name) + "/mem_info_vram_total"@,
                    hwmon_path: e.hwmon_path,
                },
            )
        } else {
            None
        },
        None => None,
    }
}

/// The cards among the entries, in their order.
pub open spec fn cards_in(es: Seq<CardEntryView>) -> Seq<CardView>
    decreases es.len(),
{
    if es.len() == 0 {
        seq![]
    } else {
        match card_of(es.last()) {
            Some(c) => cards_in(es.drop_last()).push(c),
            None => cards_in(es.drop_last()),
        }
    }
}

/// The names of a list of cards.
pub open spec fn card_names(s: Seq<CardView>) -> Seq<Seq<char>> {
    Seq::new(s.len(), |i: int| s[i].card)
}

/// The cards among the entries, by name.
pub open spec fn discovered(es: Seq<CardEntryView>) -> Seq<CardView> {
    ranked(cards_in(es), card_names(cards_in(es)), None)
}

/// The card that an entry is.
fn read_card(e: &CardEntry) -> (r: Option<GpuCardMeta>)
    ensures
        match r {
            Some(c) => card_of(e@) == Some(c@),
            None => card_of(e@) is None,
        },
{
    if !is_card_name(e.name.as_str()) {
        return None;
    }
    match detect_vendor(e.vendor.as_str()) {
        Some(vendor) => {
            let dev = device_path(e.name.as_str());
            Some(
                GpuCardMeta {
                    card: e.name.clone(),
                    pdev: read_pdev(e.uevent.as_str()),
                    vendor,
                    path_busy: path_in(&dev, "/gpu_busy_percent"),
                    path_vram_used: path_in(&dev, "/mem_info_vram_used"),
                    path_vram_total: path_in(&dev, "/mem_info_vram_total"),
                    hwmon_path: clone_opt(&e.hwmon_path),
                },
            )
        },
        None => None,
    }
}

/// Cards are listed by name.
impl Named for GpuCardMeta {
    open spec fn label(&self) -> Seq<char> {
        self.card@
    }

    fn label_text(&self) -> (r: &String) {
        &self.card
    }

    fn duplicate(&self) -> (r: Self) {
        GpuCardMeta {
            card: self.card.clone(),
            pdev: self.pdev.clone(),
            vendor: self.vendor,
            path_busy: self.path_busy.clone(),
            path_vram_used: self.path_vram_used.clone(),
            path_vram_total: self.path_vram_total.clone(),
            hwmon_path: clone_opt(&self.hwmon_path),
        }
    }
}

/// Finds the cards among the entries of the directory and lists them by name.
pub fn discover_gpu_cards(entries: &[CardEntry]) -> (r: Vec<GpuCardMeta>)
    ensures
        cards_of(r@) == discovered(entries_of(entries@)),
{
    let ghost es = entries_of(entries@);
    let mut found: Vec<GpuCardMeta> = Vec::new();
    let mut i: usize = 0;
    assert(es.take(0) =~= seq![]);
    assert(cards_of(found@) =~= seq![]);
    while i < entries.len()
        invariant
            i <= entries.len(),
            es == entries_of(entries@),
            cards_of(found@) == cards_in(es.take(i as int)),
        decreases entries.len() - i,
    {
        let ghost prev = cards_of(found@);
        proof {
            assert(es.take(i + 1).drop_last() =~= es.take(i as int));
            assert(es.take(i + 1).last() == entries@[i as int]@);
        }
        if let Some(c) = read_card(&entries[i]) {
            let ghost y = c@;
            found.push(c);
            assert(cards_of(found@) =~= prev.push(y));
        }
        i = i + 1;
    }
    assert(es.take(i as int) =~= es);
    let r = sort_by_name(found.as_slice());
    proof {
        assert(views(found@) =~= cards_of(found@));
        assert(labels(found@) =~= card_names(cards_of(found@)));
        assert(cards_of(r@) =~= views(r@));
    }
    r
}

/// What a number file says, or 0.
pub open spec fn sysfs_value(content: Seq<char>) -> u64 {
    u64_or_zero(trim(content))
}

/// Reads a number file; 0 where its text is no number, as that of a missing
/// file.
pub fn read_sysfs_u64(content: &str) -> (r: u64)
    ensures
        r == sysfs_value(content@),
{
    let chars = to_chars(content);
    parse_u64_or_zero(trimmed(chars.as_slice()))
}

/// The temperature that a sensor file says in thousandths of a degree, or 0.
pub open spec fn temp_of(content: Seq<char>) -> i32 {
    match signed(trim(content), i32::MAX as int) {
        Some(n) => n as i32,
        None => 0,
    }
}

/// The power that a sensor file says, from millionths to thousandths of a watt;
/// of a larger number the low 32 bits.
pub open spec fn power_of(content: Seq<char>) -> u32 {
    ((sysfs_value(content) as int / 1000) % 0x1_0000_0000) as u32
}

/// Reads temperature and power from the texts of the sensor files. A missing
/// file has the empty text.
pub fn read_gpu_hwmon(temp: &str, power: &str) -> (r: (i32, u32))
    ensures
        r.0 == temp_of(temp@),
        r.1 == power_of(power@),
{
    let chars = to_chars(temp);
    let temp_mc: i32 = match parse_i32(trimmed(chars.as_slice())) {
        Some(n) => n,
        None => 0,
    };
    let power_mw: u32 = ((read_sysfs_u64(power) / 1000) % 0x1_0000_0000) as u32;
    (temp_mc, power_mw)
}

/// What was read of one card at a tick. A missing file has the empty text.
#[derive(Debug, PartialEq, Eq)]
pub struct CardReading {
    pub busy: String,
    pub vram_used: String,
    pub vram_total: String,
    pub temp: String,
    pub power: String,
    /// What the vendor's own library answered, where there is one that knows
    /// the card.
    pub nvml: Option<NvmlReading>,
}

/// What a `CardReading` says.
pub struct CardReadingView {
    pub busy: Seq<char>,
    pub vram_used: Seq<char>,
    pub vram_total: Seq<char>,
    pub temp: Seq<char>,
    pub power: Seq<char>,
    pub nvml: Option<NvmlReading>,
}

impl View for CardReading {
    type V = CardReadingView;

    open spec fn view(&self) -> CardReadingView {
        CardReadingView {
            busy: self.busy@,
            vram_used: self.vram_used@,
            vram_total: self.vram_total@,
            temp: self.temp@,
            power: self.power@,
            nvml: self.nvml,
        }
    }
}

/// The state of a card.
#[derive(Clone, Copy, Debug, PartialEq, Eq)]
pub struct CardStats {
    pub busy: u8,
    pub temp_mc: i32,
    pub power_mw: u32,
    pub vram_used: u64,
    pub vram_total: u64,
}

/// The state of an AMD card: all of it from the card's files.
pub open spec fn stats_amd(r: CardReadingView) -> CardStats {
    CardStats {
        busy: (sysfs_value(r.busy) as int % 256) as u8,
        temp_mc: temp_of(r.temp),
        power_mw: power_of(r.power),
        vram_used: sysfs_value(r.vram_used),
        vram_total: sysfs_value(r.vram_total),
    }
}

/// The state of an NVIDIA card: load and memory as the vendor's library answers,
/// 0 where it does not.
pub open spec fn stats_nvidia(r: CardReadingView) -> CardStats {
    CardStats {
        busy: match r.nvml {
            Some(n) => if n.util_ret == NVML_SUCCESS {
                (n.gpu as int % 256) as u8
            } else {
                0
            },
            None => 0,
        },
        temp_mc: temp_of(r.temp),
        power_mw: power_of(r.power),
        vram_used: match r.nvml {
            Some(n) => if n.mem_ret == NVML_SUCCESS {
                n.used
            } else {
                0
            },
            None => 0,
        },
        vram_total: match r.nvml {
            Some(n) => if n.mem_ret == NVML_SUCCESS {
                n.total
            } else {
                0
            },
            None => 0,
        },
    }
}

/// The state of an Intel card, which does not say how busy it is.
pub open spec fn stats_intel(r: CardReadingView) -> CardStats {
    CardStats {
        busy: 0,
        temp_mc: temp_of(r.temp),
        power_mw: power_of(r.power),
        vram_used: sysfs_value(r.vram_used),
        vram_total: sysfs_value(r.vram_total),
    }
}

/// The state of a card of this vendor.
pub open spec fn stats_of(vendor: Vendor, r: CardReadingView) -> CardStats {
    match vendor {
        Vendor::Amd => stats_amd(r),
        Vendor::Nvidia => stats_nvidia(r),
        Vendor::Intel => stats_intel(r),
    }
}

/// The state of an AMD card.
pub fn read_card_stats_amd(r: &CardReading) -> (s: CardStats)
    ensures
        s == stats_amd(r@),
{
    let busy: u8 = (read_sysfs_u64(r.busy.as_str()) % 256) as u8;
    let (temp_mc, power_mw) = read_gpu_hwmon(r.temp.as_str(), r.power.as_str());
    CardStats {
        busy,
        temp_mc,
        power_mw,
        vram_used: read_sysfs_u64(r.vram_used.as_str()),
        vram_total: read_sysfs_u64(r.vram_total.as_str()),
    }
}

/// The state of an NVIDIA card.
pub fn read_card_stats_nvidia(r: &CardReading) -> (s: CardStats)
    ensures
        s == stats_nvidia(r@),
{
    let (temp_mc, power_mw) = read_gpu_hwmon(r.temp.as_str(), r.power.as_str());
    match r.nvml {
        Some(n) => {
            let busy: u8 = if nvml_succeeded(n.util_ret) {
                (n.gpu % 256) as u8
            } else {
                0
            };
            let (vram_used, vram_total): (u64, u64) = if nvml_succeeded(n.mem_ret) {
                (n.used, n.total)
            } else {
                (0, 0)
            };
            CardStats { busy, temp_mc, power_mw, vram_used, vram_total }
        },
        None => CardStats { busy: 0, temp_mc, power_mw, vram_used: 0, vram_total: 0 },
    }
}

/// The state of an Intel card.
pub fn read_card_stats_intel(r: &CardReading) -> (s: CardStats)
    ensures
        s == stats_intel(r@),
{
    let (temp_mc, power_mw) = read_gpu_hwmon(r.temp.as_str(), r.power.as_str());
    CardStats {
        busy: 0,
        temp_mc,
        power_mw,
        vram_used: read_sysfs_u64(r.vram_used.as_str()),
        vram_total: read_sysfs_u64(r.vram_total.as_str()),
    }
}

/// The state of a card of this vendor.
pub fn read_card_stats(vendor: &Vendor, r: &CardReading) -> (s: CardStats)
    ensures
        s == stats_of(*vendor, r@),
{
    match vendor {
        Vendor::Amd => read_card_stats_amd(r),
        Vendor::Nvidia => read_card_stats_nvidia(r),
        Vendor::Intel => read_card_stats_intel(r),
    }
}

} // verus!
