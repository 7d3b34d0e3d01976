//! Introspection of packaged game-mod archives: decoding of mod descriptors and
//! patch-configuration documents, recursive traversal of nested archives, and
//! merging of the results by mod id for the reports.
//!
//! - `json`: the JSON documents as the library reads them.
//! - `descriptor`: decoding of the descriptor and of patch-configuration documents.
//! - `archive`: reading entries out of a ZIP container, and text helpers.
//! - `traverse`: the traversal engine.
//! - `collate`: appearances of mods, merging by id, and the report projections.
//! - `laws`: properties that relate several of the above.
pub mod json;
pub mod descriptor;
pub mod archive;
pub mod traverse;
pub mod collate;
pub mod laws;
