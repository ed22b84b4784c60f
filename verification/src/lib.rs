//! Block-aligned data deduplication engine.
//!
//! The engine scans the whole blocks of a list of files, indexes each block's
//! CRC-64 checksum in a fixed-size table, confirms every candidate hit by
//! direct byte comparison, extends a confirmed hit to the maximal contiguous
//! run of identical blocks, and emits a shared-extent request for every run
//! long enough to be worth sharing. Blocks whose checksum is the zero
//! sentinel are treated as holes: they are never indexed and never matched.

pub mod block;
pub mod checksum;
pub mod extent;
pub mod index;
pub mod matching;
pub mod scan;
