//! Chord-progression pattern engine: a five-byte chord codec, a prefix tree of
//! chord sequences with ranked wildcard search, and a scorer that turns search
//! hits into ranked suggestions. Around them stand the theory of chords and
//! scales, tokens and binary forms for trees and fingerprints, the analysis
//! of a progression, and the engine that holds it all.
//!
//! Every score is a fixed-point decimal (`fixed::Fixed`), so that all
//! arithmetic is exact and stated in the contracts.

pub mod analysis;
pub mod chord;
pub mod chord_binary;
pub mod config;
pub mod constants;
pub mod engine;
pub mod error;
pub mod fixed;
pub mod harmonize;
pub mod hash;
pub mod hash_laws;
pub mod lists;
pub mod ranking;
pub mod roman;
pub mod scale;
pub mod scoring;
pub mod suggestions;
pub mod text;
pub mod theory;
pub mod tokenization;
pub mod trie;
pub mod trie_binary;
pub mod trie_binary_laws;
pub mod trie_laws;
