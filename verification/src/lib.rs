//! Verified sequence combinators over vectors.
//!
//! The core of the crate is the ordered merge family: the two-way [`merge`]
//! of two non-decreasing vectors, its generalization [`kmerge`] to any
//! number of non-decreasing inputs, and [`interleave`], which alternates
//! elements of two vectors without any ordering assumption. Around the core
//! stand the usual small adaptors (`enumerate`, `rev`, `zip`, `chain`,
//! `fold`, `all`, `any`, `max`, `min`), an eager [`sorted`], and a textual
//! [`join`]. Every function carries a contract that pins its result down,
//! and the ordering and multiset laws of the merge family are proved as
//! public lemmas beside the functions they describe.

pub mod adaptors;
pub mod k_way;
pub mod order;
pub mod sorting;
pub mod textual;
pub mod two_way;
pub mod weave;

pub use crate::order::is_sorted;
pub use crate::order::lemma_sorted_multiset_unique;
pub use crate::two_way::{merge, merge_spec};
pub use crate::two_way::{lemma_merge_multiset, lemma_merge_sorted, lemma_merge_stability};
pub use crate::weave::{interleave, interleave_spec, lemma_interleave_shape};
pub use crate::k_way::{all_sorted, kmerge, total_len, total_multiset};
pub use crate::k_way::{lemma_kmerge_empty, lemma_kmerge_single, lemma_total_multiset_len};
pub use crate::adaptors::{all, any, chain, enumerate, fold, max, min, rev, zip};
pub use crate::adaptors::{lemma_seq_max_is_greatest, lemma_seq_min_is_least, seq_max, seq_min};
pub use crate::sorting::{lemma_sorted_round_trip, sorted};
pub use crate::textual::{dec_str, join, join_spec, to_decimal};
