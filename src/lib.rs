//! Rewrites graph datasets so that vertex keys and edge endpoints carry a
//! sharding attribute (`attribute:key`), for bulk loading into a store that
//! shards vertices by that attribute.
//!
//! - `codec`: the quote-aware tokenizer and the field quoting of tabular rows.
//! - `table`: the translation table from vertex identifiers to attributes.
//! - `vertex`: the tabular vertex transform and its header handling.
//! - `edge`: endpoint resolution and the tabular edge transform.
//! - `json`: both transforms for records encoded as one JSON object per line.
//! - `collections`: edge specifications given as `file:from:to[:index:name]*`.
//! - `run`: whole edge files and runs over several of them.
//! - `text`: character-level helpers.
pub mod text;
pub mod codec;
pub mod table;
pub mod vertex;
pub mod edge;
pub mod json;
pub mod collections;
pub mod run;
