//! The record types that the documentation extractor produces.

use vstd::prelude::*;

verus! {

/// One documented item of a class: a named field, or a method under its
/// rendered signature. `documentation` holds the item's doc-comment lines,
/// each trimmed, each followed by a line break.
#[derive(Debug, PartialEq)]
pub struct Method {
    /// The field name, or the rendered `name(param: Type, ...)` signature.
    pub name: String,
    /// The trimmed, newline-joined doc-comment lines of the item.
    pub documentation: String,
}

/// The record extracted from one structure definition: its name, its
/// joined doc comments, its documented fields and methods, and the
/// diagram text once it has been attached.
pub struct Class {
    /// The PlantUML diagram for the class; empty until attached.
    pub plantuml: String,
    /// The name of the class.
    pub name: String,
    /// The joined doc-comment lines of the class, ending in one blank
    /// line, or empty when the class has no doc comments.
    pub documentation: String,
    /// The documented fields, in declaration order.
    pub fields: Vec<Method>,
    /// The documented inherent methods, in declaration order.
    pub methods: Vec<Method>,
}

} // verus!
