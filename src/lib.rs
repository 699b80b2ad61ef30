//! Batch generation of distinct, solvable nonogram puzzles over a set of
//! grid sizes, and the record shapes handed to the persistence sinks.
//!
//! - `dimensions`: the (height, width) jobs, height-major.
//! - `puzzle`: the puzzle value and the calls into the puzzle engine.
//! - `pool`: the per-job shared state that workers offer candidates to.
//! - `sinks`: relational rows, document-store items and their batches.
//! - `args`: numeric command-line values.

mod args;
mod dimensions;
mod pool;
mod puzzle;
mod sinks;

pub use args::{
    digits_value, is_digit, is_number, parse_count, parse_usize, parse_usize_spec, unsigned_part,
    DEFAULT_COUNT,
};
pub use dimensions::{
    cross_spec, dedup_preserving_order, dedup_spec, lemma_dedup, lemma_dimension_jobs,
    permute_dimensions,
};
pub use pool::{
    concat_batches, concat_spec, draw_candidate, grid_key, grid_set_contents, keep_if_solvable, lemma_filled_job, lemma_reruns_same_size,
    puzzles_of, GenerationState, GridSet, Offer, SolvablePuzzle,
};
pub use puzzle::{checksum_of, clue_of, column_of, same_puzzle, solvable_of, Puzzle};
pub use sinks::{
    be_bytes, be_bytes_spec, chunk_batches, chunked, document_item, first_failed_batch,
    relational_row, views_of, DocumentItem, RelationalRow, BATCH_SIZE,
};
