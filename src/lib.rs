//! Aggregation of Sonic proofs over BLS12-381: challenge transcript, Laurent
//! polynomial evaluation and division, multiexponentiation and the batched
//! opening protocol.
pub mod field;
pub mod poly;
pub mod group;
pub mod kate;
pub mod transcript;
pub mod circuit;
pub mod batch;
pub mod aggregate;
pub mod laws;
