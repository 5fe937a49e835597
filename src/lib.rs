//! Remote virtual-memory access and object discovery over a physical-memory
//! backend: page-table translation with a time-bounded cache, page-aware
//! virtual reads, process-list traversal, export resolution and masked
//! byte-pattern scanning.
pub mod bytes;
pub mod physical;
pub mod translate;
pub mod pe;
pub mod context;
pub mod reader;
pub mod exports;
pub mod enumerate;
pub mod scan;
pub mod kernel;
pub mod game;
pub mod dump;
pub mod guarded;
