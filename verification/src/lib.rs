//! Configuration schema for an HTTP response-diffing tool.
//!
//! A configuration document is a YAML mapping from profile names to diff
//! profiles; each profile pairs two request definitions with a policy saying
//! which parts of the two responses to skip when comparing them.  This crate
//! decodes such documents field by field, applying the documented defaults,
//! and encodes them back, omitting absent optional fields and empty
//! collections.

pub mod decode;
pub mod encode;
pub mod laws;
pub mod method;
pub mod model;
pub mod text;
pub mod yaml;
