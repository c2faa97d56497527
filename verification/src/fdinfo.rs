//! What the information file of an open graphics device says about the memory
//! and the engine time that its process uses.

use vstd::prelude::*;

use crate::number::{word_u64, word_u64_at};
use crate::text::{
    find_line, has_part, line_with, lines, nth_word, occurs_in, split_lines, starts_with, texts,
    to_chars, to_text, word_at,
};

verus! {

/// Who made a graphics card.
#[derive(Clone, Copy, Debug, PartialEq, Eq)]
pub enum Vendor {
    Amd,
    Nvidia,
    Intel,
}

/// Whether a line names a driver with `part` in it.
pub open spec fn names_driver(line: Seq<char>, part: Seq<char>) -> bool {
    "drm-driver:"@.is_prefix_of(line) && occurs_in(part, line)
}

/// Whether some line names a driver with `part` in it.
pub open spec fn has_driver(ls: Seq<Seq<char>>, part: Seq<char>) -> bool {
    exists|i: int| 0 <= i < ls.len() && names_driver(#[trigger] ls[i], part)
}

/// The number after the key on the first line that starts with it, or 0.
pub open spec fn fdinfo_value(ls: Seq<Seq<char>>, key: Seq<char>) -> u64 {
    match line_with(ls, key) {
        Some(line) => word_u64(line, 1),
        None => 0,
    }
}

/// Memory in KiB and engine time in nanoseconds that the file of an AMD device
/// says.
pub open spec fn fdinfo_amd(content: Seq<char>) -> Option<(u64, u64)> {
    let ls = lines(content);
    if has_driver(ls, "amdgpu"@) {
        Some((fdinfo_value(ls, "drm-memory-vram:"@), fdinfo_value(ls, "drm-engine-gfx:"@)))
    } else {
        None
    }
}

/// Memory in KiB and engine time in nanoseconds that the file of an NVIDIA
/// device says. The time is that of the graphics engine, or of the compute engine
/// where no line is about the graphics engine.
pub open spec fn fdinfo_nvidia(content: Seq<char>) -> Option<(u64, u64)> {
    let ls = lines(content);
    if has_driver(ls, "nvidia"@) {
        let ns = match line_with(ls, "drm-engine-graphics:"@) {
            Some(line) => word_u64(line, 1),
            None => fdinfo_value(ls, "drm-engine-compute:"@),
        };
        Some((fdinfo_value(ls, "drm-memory-device:"@), ns))
    } else {
        None
    }
}

/// Memory in KiB and engine time in nanoseconds that the file of an Intel
/// device says. The memory is that of the device, or of the system where the
/// device has none.
pub open spec fn fdinfo_intel(content: Seq<char>) -> Option<(u64, u64)> {
    let ls = lines(content);
    if has_driver(ls, "i915"@) || has_driver(ls, "xe"@) {
        let device = fdinfo_value(ls, "drm-memory-device:"@);
        let vram = if device > 0 {
            device
        } else {
            fdinfo_value(ls, "drm-memory-system:"@)
        };
        Some((vram, fdinfo_value(ls, "drm-engine-render:"@)))
    } else {
        None
    }
}

/// What the file says to the vendor of the card, if its driver is the vendor's.
pub open spec fn fdinfo(vendor: Vendor, content: Seq<char>) -> Option<(u64, u64)> {
    match vendor {
        Vendor::Amd => fdinfo_amd(content),
        Vendor::Nvidia => fdinfo_nvidia(content),
        Vendor::Intel => fdinfo_intel(content),
    }
}

/// The bus address of the card that the file is about, or the empty text.
pub open spec fn fd_pdev(content: Seq<char>) -> Seq<char> {
    match line_with(lines(content), "drm-pdev:"@) {
        Some(line) => match nth_word(line, 1) {
            Some(w) => w,
            None => seq![],
        },
        None => seq![],
    }
}

/// Whether some line names a driver with `part` in it.
fn find_driver(all: &Vec<&[char]>, part: &str) -> (r: bool)
    ensures
        r == has_driver(texts(all@), part@),
{
    let key = to_chars("drm-driver:");
    let part_chars = to_chars(part);
    let ghost ls = texts(all@);
    let mut i: usize = 0;
    while i < all.len()
        invariant
            i <= all.len(),
            ls == texts(all@),
            key@ == "drm-driver:"@,
            part_chars@ == part@,
            forall|j: int| 0 <= j < i ==> !names_driver(#[trigger] ls[j], part@),
        decreases all.len() - i,
    {
        assert(ls[i as int] == all@[i as int]@);
        if starts_with(all[i], key.as_slice()) && has_part(all[i], part_chars.as_slice()) {
            assert(names_driver(ls[i as int], part@));
            return true;
        }
        i = i + 1;
    }
    false
}

/// The number after the key on the first line that starts with it, or 0.
fn find_value(all: &Vec<&[char]>, key: &str) -> (r: u64)
    ensures
        r == fdinfo_value(texts(all@), key@),
{
    match find_line(all, key) {
        Some(line) => word_u64_at(line, 1),
        None => 0,
    }
}

/// The number after the key on the first line that starts with it, or 0.
pub fn fdinfo_u64(content: &str, key: &str) -> (r: u64)
    ensures
        r == fdinfo_value(lines(content@), key@),
{
    let chars = to_chars(content);
    let all = split_lines(chars.as_slice());
    find_value(&all, key)
}

/// Reads the information file of an AMD device.
pub fn parse_fdinfo_amd(content: &str) -> (r: Option<(u64, u64)>)
    ensures
        r == fdinfo_amd(content@),
{
    let chars = to_chars(content);
    let all = split_lines(chars.as_slice());
    if !find_driver(&all, "amdgpu") {
        return None;
    }
    Some((find_value(&all, "drm-memory-vram:"), find_value(&all, "drm-engine-gfx:")))
}

/// Reads the information file of an NVIDIA device.
pub fn parse_fdinfo_nvidia(content: &str) -> (r: Option<(u64, u64)>)
    ensures
        r == fdinfo_nvidia(content@),
{
    let chars = to_chars(content);
    let all = split_lines(chars.as_slice());
    if !find_driver(&all, "nvidia") {
        return None;
    }
    let vram = find_value(&all, "drm-memory-device:");
    let ns = match find_line(&all, "drm-engine-graphics:") {
        Some(line) => word_u64_at(line, 1),
        None => find_value(&all, "drm-engine-compute:"),
    };
    Some((vram, ns))
}

/// Reads the information file of an Intel device.
pub fn parse_fdinfo_intel(content: &str) -> (r: Option<(u64, u64)>)
    ensures
        r == fdinfo_intel(content@),
{
    let chars = to_chars(content);
    let all = split_lines(chars.as_slice());
    if !find_driver(&all, "i915") && !find_driver(&all, "xe") {
        return None;
    }
    let device = find_value(&all, "drm-memory-device:");
    let vram = if device > 0 {
        device
    } else {
        find_value(&all, "drm-memory-system:")
    };
    Some((vram, find_value(&all, "drm-engine-render:")))
}

/// Reads the information file of a device of this vendor.
pub fn parse_fdinfo(vendor: &Vendor, content: &str) -> (r: Option<(u64, u64)>)
    ensures
        r == fdinfo(*vendor, content@),
{
    match vendor {
        Vendor::Amd => parse_fdinfo_amd(content),
        Vendor::Nvidia => parse_fdinfo_nvidia(content),
        Vendor::Intel => parse_fdinfo_intel(content),
    }
}

/// The bus address of the card that the file is about, or the empty text.
pub fn parse_fd_pdev(content: &str) -> (r: String)
    ensures
        r@ == fd_pdev(content@),
{
    let chars = to_chars(content);
    let all = split_lines(chars.as_slice());
    match find_line(&all, "drm-pdev:") {
        Some(line) => match word_at(line, 1) {
            Some(w) => to_text(w),
            None => String::new(),
        },
        None => String::new(),
    }
}

} // verus!
