//! An embedded vector similarity index: fixed-length embedding vectors keyed
//! by unique identifiers, kept in a dense matrix, persisted as one snapshot,
//! and searched by exact top-k cosine similarity.
//!
//! Vector components and scores are IEEE-754 single-precision values carried
//! as their bit patterns (`u32`). The arithmetic on them (normalisation, dot
//! products) happens outside this crate; everything the index decides (order,
//! selection, layout, persistence format) is proved here.

pub mod score;
pub mod topk;
pub mod error;
pub mod codec;
pub mod entry;
pub mod nano_vector_db;
pub mod ann_engine;
pub mod endpoints;
pub mod recipe;
