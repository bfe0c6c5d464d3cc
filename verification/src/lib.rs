//! Target selection and answer verification engine for a location-based
//! scavenger hunt: an in-memory question cache, an integer haversine geofence
//! check, byte-level answer normalization, team crediting, and least-found
//! target selection with a caller-supplied random tie-break.
//!
//! The boundary around this library (HTTP framing, body parsing, the
//! persistent store, randomness, and configuration) hands in plain values --
//! byte strings, microdegree coordinates, a radius, a random draw -- and maps
//! the typed outcomes back to status codes.

pub mod engine;
pub mod geo;
pub mod question;
pub mod select;
pub mod team;
pub mod text;
