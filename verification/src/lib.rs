//! Discovery engine for Flutter build-cleanup runs: an exclusion matcher
//! over layered pattern sets, a manifest-based project classifier, and a
//! pruning directory-tree walker, with the surrounding configuration logic.

pub mod strutil;
pub mod exclude;
pub mod classify;
pub mod config;
pub mod walker;
