//! A rainbow table: a precomputed time/space trade-off structure for
//! inverting a one-way digest function over a bounded plaintext space.
//!
//! The table is built from seed plaintexts by alternately hashing and
//! reducing through an ordered sequence of reduction columns; only the pair
//! (chain tail, seed) is kept.  A lookup replays the reduction columns from
//! every possible entry column, and rejects false positives by replaying the
//! whole chain from the stored seed.  Searches run either sequentially or
//! across several workers with cooperative cancellation.

mod capability;
mod laws;
mod model;
mod search;
mod table;

pub use capability::{Hasher, Reducer};
pub use laws::{
    lemma_absent_coverage_not_found, lemma_export_reconstruct_round_trip,
    lemma_idempotent_seeding, lemma_seed_round_trip, lemma_seed_round_trip_result,
    lemma_unique_recovery_result, unique_recovery,
};
pub use model::{
    chain_tail, find_spec, lemma_replay_from_sound, lemma_search_from_sound,
    lemma_search_some_probe, map_of_pairs, merged_map, opt_view, pair_views, probe_spec,
    replay_from, search_from, seeded_map, str_views, tail_cont, tail_from, unique_keys,
};
pub use search::{outcome_ok, HaltFlag, WorkerOutcome};
pub use table::{json_of, RainbowTable};
