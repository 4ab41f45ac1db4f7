//! Fundamental containers and classic algorithms over them.
//!
//! `data_structure` holds a growable contiguous buffer, a doubly linked
//! node list, a fixed-capacity circular array, and stack/queue adapters;
//! `algorithm` holds binary search and five sorting algorithms.

pub mod algorithm;
pub mod data_structure;
