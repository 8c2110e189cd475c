//! In-place heap sort over an N-ary max-heap, with a pluggable sift-down step.

pub mod order;
pub mod heap;
pub mod sift;
pub mod special;
pub mod sort;
pub mod laws;
