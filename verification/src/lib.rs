//! A minimal content-addressable version-control core: framed, hash-addressed
//! blobs, an append-only staging index, and commit records.

pub mod chain;
pub mod commit;
pub mod error;
pub mod ignore;
pub mod index;
pub mod object;
pub mod repo;
pub mod text;
