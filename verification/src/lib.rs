//! Sorting records that are stored column by column.
//!
//! A dataset of `N` records is held as one vector per field. To sort it, the
//! records' keys are ordered once, which gives a permutation of `0..N`, and
//! that permutation is then applied to every column. The result is the
//! dataset that sorting the records themselves would give.

pub mod columns;
pub mod in_place;
pub mod order;
pub mod permutation;
pub mod record;
pub mod render;
pub mod sample;
pub mod sort;
