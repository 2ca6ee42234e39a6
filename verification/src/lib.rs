//! A schema-compiler front end: the parser that turns a textual type
//! signature (`!X`, `vector<int>`, `storage.FileType`) into a structured
//! value for downstream code generation, together with a small chat data
//! model whose accessors the surrounding tooling reads.

pub mod chat;
pub mod errors;
pub mod ty;
