//! Matching of service providers to postal codes.
//!
//! A provider serves a postal code if the great-circle distance between them
//! is no more than the provider's driving distance plus a buffer that depends
//! on the postal code's distance band. The providers that serve a postal
//! code are ranked by distance, by profile quality, or by a blend of both.
//!
//! The library works on integers throughout: angles in units of 10^-8
//! radian, distances in metres and millimetres, scores in parts per million.
//! It does not do trigonometry. Its caller supplies, with each provider, the
//! bounding boxes of the provider's service area, and, with each query, the
//! distances from the candidates that the library names to the postal code.
//!
//! - `geo`: points and boxes.
//! - `data`: the records.
//! - `keys`: postal codes and provider ids read from text.
//! - `load`: keyed tables from lists of records.
//! - `rtree`: the R-tree of the `rstar` crate, behind stated contracts.
//! - `index`: one index tier over that tree.
//! - `tiers`: the three tiers with their buffers.
//! - `rank`: scores and the order of results.
//! - `page`: pages of twenty.
//! - `engine`: the matching engine itself.
//! - `seqs`: facts about sequences used in proofs.

pub mod data;
pub mod engine;
pub mod geo;
pub mod index;
pub mod keys;
pub mod load;
pub mod page;
pub mod rank;
pub mod rtree;
pub mod seqs;
pub mod tiers;
