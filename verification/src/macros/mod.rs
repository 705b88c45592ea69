//! Helpers on collections.

pub mod hash_num;
