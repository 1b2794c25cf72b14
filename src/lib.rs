//! A single-producer, multi-consumer ring of fixed-size records shared
//! through one region: a fixed-capacity identifier, the region's layout and
//! invariant, the producer's publish rule with backpressure, and consumer
//! registration and ordered consumption.

pub mod array_string;
pub mod consumer;
pub mod error;
pub mod inlet;
pub mod producer;
