//! Template substitution engine (`${...}`): the parser of the marker
//! grammar, one-pass substitution through a `Resolver`, and the redaction of
//! secret values from untrusted text.
pub mod engine;
pub mod redact;
pub mod types;
