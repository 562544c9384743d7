//! Object identifiers (OIDs) over statically allocated arc sequences, with a
//! checked structure and a dotted-decimal rendering.

pub mod dotted;
pub mod oid;

pub use oid::{InvalidIdentifier, ObjectIdentifier};
