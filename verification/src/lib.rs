//! A small ordered map kept as a sorted run of key/value pairs.
//!
//! `VecMap` stores its entries contiguously, in strictly ascending key
//! order, and finds a key by binary search. It is meant for maps of a
//! handful of entries.

mod decode;
pub mod iter;
pub mod laws;
pub mod map;
pub mod order;
pub mod sorted;

pub use iter::{VecMapIter, VecMapIterMut};
pub use map::VecMap;
