//! A deterministic URL query-string encoder.
//!
//! A [`Record`](record::Record) is an ordered collection of named, optionally
//! absent fields.  Encoding turns one record, under one
//! [`NamingConvention`](naming::NamingConvention), into a flat
//! `key=value&key=value` string: absent fields are omitted, nested records and
//! sequences are flattened with bracketed keys, and both keys and values are
//! percent-encoded (space becomes `%20`).

pub mod ascii;
pub mod decimal;
pub mod encode;
pub mod escape;
pub mod laws;
pub mod naming;
pub mod record;

pub use encode::encode;
pub use encode::EncodeError;
pub use naming::NamingConvention;
pub use record::Field;
pub use record::Record;
pub use record::Value;
