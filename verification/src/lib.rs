//! Virtual-memory core of a freestanding kernel, modelled and verified.
//!
//! The crate turns raw physical frames into page-granular address spaces and
//! a general-purpose block heap:
//!
//! * [`frame`] — the frame ledger, the single source of truth for the
//!   ownership state of every physical memory frame;
//! * [`addr`] — physical and virtual address value types;
//! * [`paging`] — page-table entries and the depth-generic walker that
//!   descends (and demand-creates) the multi-level radix table;
//! * [`mapper`] — the per-address-space map/unmap/query interface built on
//!   the walker and the ledger;
//! * [`block`] — the block heap allocator whose bookkeeping is itself backed
//!   by the mapper and the ledger.
//!
//! [`bits`] holds the shared bit-level lemmas; [`context`] and [`pit`] hold
//! the small saved-context and timer-command value types of the surrounding
//! kernel.
//!
//! Hardware side effects (TLB invalidation, control-register writes) are the
//! embedder's concern: every operation here is specified and verified over an
//! explicit model of the tables and the ledger.

pub mod addr;
pub mod bits;
pub mod frame;
pub mod paging;
pub mod mapper;
pub mod block;
pub mod context;
pub mod pit;
