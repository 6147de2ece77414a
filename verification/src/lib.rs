//! Constant references between the files of a Ruby application.
//!
//! The library reads the syntax tree of each file for the constants that the
//! file refers to and declares ([`parser`]), infers from the autoload roots
//! which file defines which constant ([`zeitwerk`]), and pairs each reference
//! with the files that define its constant ([`constant_resolver`],
//! [`reference`]). It decides what a cache of processed files holds and when an
//! entry is still valid ([`cache`]), and in which order references are reported
//! ([`ordering`]).
//!
//! The library reads no file and parses no Ruby itself: its callers hand it
//! the contents of a file, the syntax tree that the parser made of them, the
//! files found under the autoload roots and the cache entry read back from disk.

pub mod cache;
pub mod configuration;
pub mod constant_resolver;
pub mod ordering;
pub mod parser;
pub mod paths;
pub mod preprocess;
pub mod reference;
pub mod text;
pub mod zeitwerk;
