//! A streaming (running) median library.
//!
//! The tracker in [`tracker`] ingests one signed integer sample at a time and
//! answers median-so-far queries in constant time, by keeping the smaller and
//! the larger half of the samples seen so far in two balanced, ordered
//! collections.  [`sorted_vec`] holds the ordered-collection primitive the
//! tracker is built on, together with the specification-level theory of
//! sorted sequences and their multisets.

pub mod sorted_vec;
pub mod tracker;
