//! Turns the pages of a wiki dump into relational tables: a link graph over
//! densely numbered titles, or the editors of every article.
//!
//! The crate works on tokens and plain values; reading files, decompressing
//! and pulling tokens out of an XML reader are left to the caller.

pub mod text;
pub mod clock;
pub mod error;
pub mod token;
pub mod escape;
pub mod links;
pub mod index;
pub mod assoc;
pub mod lists;
pub mod redirect;
pub mod scan;
pub mod revisions;
pub mod graph;
pub mod output;
pub mod input;
