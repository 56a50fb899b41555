//! Front end for a declarative API-schema definition language.
//!
//! The library parses composed schema documents: a compact textual type
//! grammar (`dict[int, array[user]]?`) into declaration trees, HTTP
//! interface declarations under method-specific legality rules, and the
//! `_import` directives that compose documents.  A process-scoped usage
//! tracker records every referenced type name that is not yet declared;
//! reconciling it at the end of a run surfaces every dangling reference
//! at once.
//!
//! Reading documents from disk is left to the caller: the library works
//! on an already-loaded document tree of plain values ([`doc::DocValue`]).

pub mod doc;
pub mod hosts;
pub mod imports;
pub mod interfaces;
pub mod render;
pub mod resolver;
pub mod schema;
pub mod tracker;
pub mod types;
pub mod versioning;
