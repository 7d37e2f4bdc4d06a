//! Generates architecture documentation from Rust source text: a PlantUML
//! class diagram, extracted doc comments as Markdown, and an AsciiDoc
//! document assembled from both.

pub mod asciidoc_parser;
pub mod cli;
pub mod model;
pub mod plantuml_parser;
pub mod processing;
pub mod rust_doc_parser;
pub mod syntax;
pub mod text;
