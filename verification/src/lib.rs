//! Building wire-format queries for a name-resolution protocol.
//!
//! The crate encodes a fixed six-field header, a dot-delimited
//! hierarchical name as a length-prefixed label sequence, and a
//! question record, and composes them into one query byte sequence
//! carrying a freshly drawn correlation identifier.

pub mod header;
pub mod name;
pub mod query;
pub mod question;

pub use header::DnsHeader;
pub use name::DomainName;
pub use name::EncodingError;
pub use query::build_query;
pub use query::build_query_with_id;
pub use query::CLASS_IN;
pub use query::TYPE_A;
pub use question::DnsQuestion;
