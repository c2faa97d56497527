//! System statistics: reads what the kernel's files say about processors,
//! memory, graphics cards, network interfaces, disks and processes, and turns
//! two samples into what is shown between them.

pub mod diff;
pub mod disk;
pub mod fdinfo;
pub mod gpu;
pub mod laws;
pub mod names;
pub mod number;
pub mod nvml;
pub mod procfs;
pub mod proclist;
pub mod rank;
pub mod rate;
pub mod request;
pub mod sample;
pub mod session;
pub mod text;
pub mod tree;
pub mod walk;
