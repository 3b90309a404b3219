//! Verified core of a per-process virtual-memory map inspector.
//!
//! The library parses the kernel's line-oriented memory-mapping descriptor
//! text into structured region records, accumulates the optional per-region
//! accounting counters that may follow each header line, and computes ranked
//! per-category totals of a chosen counter.  Every function here carries a
//! contract; the terminal front end around it lives outside the library.

pub mod text;
pub mod error;
pub mod num;
pub mod region;
pub mod detail;
pub mod process;
pub mod aggregate;
pub mod format;
pub mod app;
