//! A derivation engine for a push-based deserialization protocol.
//!
//! Given a normalized description of a data type's shape — its fields or
//! variants, their declared types, and per-field or per-type annotations —
//! the engine synthesizes a decision matrix (which fields participate, which
//! need defaults, which need custom converters, which generic parameters need
//! extra capability bounds) and composes it into a protocol-conformant
//! visitor plan: a name table for keyed and variant decoding, a participation
//! plan per field, a missing-value resolution per field, and a carrier shell.
//! The assembly semantics that the plan prescribes — positional and keyed
//! field collection with duplicate, missing and unknown detection, and
//! variant dispatch — are implemented and verified here as well.
//!
//! Out of scope, by design: parsing a type description's surface syntax into
//! the schema, emitting the plan into a compilation unit, and the byte-level
//! decoders of the protocol runtime. Those are external collaborators; the
//! engine is a pure transformation from one schema to one derived plan.

pub mod assemble;
pub mod bounds;
pub mod dispatch;
pub mod engine;
pub mod laws;
pub mod names;
pub mod plan;
pub mod schema;
pub mod shell;
