//! Translation and merge engine for game-profile synchronisation: decoded
//! profile records are mapped through immutable lookup tables into GOOD-format
//! entities (characters, artifacts, weapons), and merged into a persisted
//! collection whose three entity sets de-duplicate by identity keys that
//! deliberately exclude an item's location.
//!
//! The modules, leaf first: `strutil` (decimal text), `lookup` (the tables),
//! `merge` (set-with-identity-key semantics), `enka` (the decoded source
//! model), `good` (the GOOD data model and the merger), `translate` (the
//! translator), `codec` (the canonical file format), and `laws` (the proved
//! properties: idempotent merging, move semantics, distinctness, the
//! translator's offset and fallback rules).
pub mod codec;
pub mod enka;
pub mod good;
pub mod laws;
pub mod lookup;
pub mod merge;
pub mod strutil;
pub mod translate;
