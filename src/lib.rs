//! Sv39 virtual-memory management for a small RISC-V kernel: typed
//! addresses, page-table-entry encoding, a pool of free physical frames, and
//! the three-level page-table walker that maps, unmaps and resolves virtual
//! addresses. Around it: the root-table-pointer and status registers, trap
//! causes, address ranges, the initial RAM disk archive format, and the
//! mapping of ELF segments.
//!
//! Page tables live in a `PhysMem`, a run of frames held as 64-bit words
//! together with the stack of free frames. Every operation states in its
//! contract what it does to that memory; `laws` proves how the operations
//! relate to each other.
pub mod addr;
pub mod arch;
pub mod laws;
pub mod loader;
pub mod microflop;
pub mod paging;
pub mod phys;
pub mod pte;
pub mod satp;
pub mod span;
