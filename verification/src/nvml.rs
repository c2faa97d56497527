//! The decisions around the management library of NVIDIA cards, which is found,
//! opened and asked at run time.

use vstd::prelude::*;

verus! {

/// What a function of the library returns when it succeeds.
pub const NVML_SUCCESS: u32 = 0;

/// What the library answered about one card.
#[derive(Clone, Copy, Debug, PartialEq, Eq)]
pub struct NvmlReading {
    /// What the question for the load returned.
    pub util_ret: u32,
    pub gpu: u32,
    /// What the question for the memory returned.
    pub mem_ret: u32,
    pub used: u64,
    pub total: u64,
}

/// Whether a function of the library succeeded.
pub fn nvml_succeeded(ret: u32) -> (r: bool)
    ensures
        r == (ret == NVML_SUCCESS),
{
    ret == NVML_SUCCESS
}

/// What came of the last step of loading the library.
#[derive(Clone, Copy, Debug, PartialEq, Eq)]
pub enum NvmlEvent {
    /// The library was looked for.
    Opened { found: bool },
    /// Its functions were looked for.
    Resolved { init: bool, pci: bool, util: bool, mem: bool },
    /// It was initialised.
    Initialised { ret: u32 },
}

/// The next step of loading the library.
#[derive(Clone, Copy, Debug, PartialEq, Eq)]
pub enum NvmlAction {
    /// Look for the functions.
    Resolve,
    /// Initialise the library.
    Initialise,
    /// Use the library.
    Use,
    /// Close the library and do without it.
    CloseAndGiveUp,
    /// Do without the library.
    GiveUp,
}

/// What follows an event: the library is used only if it is there, has all four
/// functions and could be initialised, and once open it is closed before it is
/// given up.
pub open spec fn nvml_next(event: NvmlEvent) -> NvmlAction {
    match event {
        NvmlEvent::Opened { found } => if found {
            NvmlAction::Resolve
        } else {
            NvmlAction::GiveUp
        },
        NvmlEvent::Resolved { init, pci, util, mem } => if init && pci && util && mem {
            NvmlAction::Initialise
        } else {
            NvmlAction::CloseAndGiveUp
        },
        NvmlEvent::Initialised { ret } => if ret == NVML_SUCCESS {
            NvmlAction::Use
        } else {
            NvmlAction::CloseAndGiveUp
        },
    }
}

/// Decides the next step of loading the library.
pub fn nvml_load_step(event: NvmlEvent) -> (r: NvmlAction)
    ensures
        r == nvml_next(event),
{
    match event {
        NvmlEvent::Opened { found } => if found {
            NvmlAction::Resolve
        } else {
            NvmlAction::GiveUp
        },
        NvmlEvent::Resolved { init, pci, util, mem } => if init && pci && util && mem {
            NvmlAction::Initialise
        } else {
            NvmlAction::CloseAndGiveUp
        },
        NvmlEvent::Initialised { ret } => if nvml_succeeded(ret) {
            NvmlAction::Use
        } else {
            NvmlAction::CloseAndGiveUp
        },
    }
}

/// Whether a search found a handle: it succeeded and the handle is not null.
pub open spec fn found_handle(ret: u32, handle_is_null: bool) -> bool {
    ret == NVML_SUCCESS && !handle_is_null
}

/// Whether the search for a card's handle found one.
pub fn nvml_device_found(ret: u32, handle_is_null: bool) -> (r: bool)
    ensures
        r == found_handle(ret, handle_is_null),
        r == (ret == NVML_SUCCESS && !handle_is_null),
{
    nvml_succeeded(ret) && !handle_is_null
}

} // verus!
