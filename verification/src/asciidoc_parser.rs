//! Prepares and completes the Markdown-to-AsciiDoc conversion. The
//! conversion itself is performed by an outside converter process that
//! only the surrounding program can run: `parse_from_markdown` describes
//! the request, and `finish` checks and post-processes the outcome.

use vstd::prelude::*;

use crate::text::{replace_all, replace_all_spec};

verus! {

/// The text formats that the outside converter is asked to translate
/// between.
#[derive(Debug)]
pub enum Format {
    Markdown,
    Asciidoc,
}

impl Format {
    /// The format's name on the converter's command line.
    pub fn as_str(&self) -> (r: &'static str)
        ensures
            self is Markdown ==> r@ == "markdown"@,
            self is Asciidoc ==> r@ == "asciidoc"@,
    {
        match *self {
            Format::Markdown => "markdown",
            Format::Asciidoc => "asciidoc",
        }
    }
}

/// A conversion failure: the converter could not be run, or exited with
/// an error. The message carries the converter's error text.
#[derive(Debug)]
pub struct ConvertError {
    /// The converter's captured error text.
    pub message: String,
}

/// A converted text with the converter's fenced-code attribute for the
/// diagram language rewritten to the diagram-inclusion attribute.
pub open spec fn normalized_asciidoc(t: Seq<char>) -> Seq<char> {
    replace_all_spec(t, "[source,plantuml]"@, "[plantuml]"@)
}

/// A conversion request: the converter to run, the declared input and
/// output formats, and the text to convert. The surrounding program runs
/// the converter and hands its outcome to [`MarkdownConversion::finish`].
pub struct MarkdownConversion {
    /// The path of the converter executable to run.
    pub converter_path: String,
    /// The declared format of `markdown`.
    pub input_format: Format,
    /// The format the converter is asked to produce.
    pub output_format: Format,
    /// The text to convert.
    pub markdown: String,
}

impl MarkdownConversion {
    /// Completes the conversion from the converter's outcome: on success,
    /// the converted text with `[source,plantuml]` normalized to
    /// `[plantuml]`; on failure, an error carrying the converter's error
    /// text.
    pub fn finish(self, converted: Result<String, String>) -> (r: Result<String, ConvertError>)
        ensures
            (converted matches Ok(t) ==> (r matches Ok(o) && o@ == normalized_asciidoc(t@))),
            (converted matches Err(e) ==> (r matches Err(c) && c.message@ == e@)),
    {
        match converted {
            Ok(t) => Ok(replace_all(t.as_str(), "[source,plantuml]", "[plantuml]")),
            Err(e) => Err(ConvertError { message: e }),
        }
    }
}

/// Describes Markdown-to-AsciiDoc conversions through an outside
/// converter executable.
pub struct AsciidocParser {
    pandoc_path: String,
}

impl AsciidocParser {
    /// The configured converter path, as text.
    pub closed spec fn spec_converter_path(&self) -> Seq<char> {
        self.pandoc_path@
    }

    /// Creates a converter description. `pandoc_path` overrides the
    /// converter executable; without it the plain name `pandoc` is used,
    /// to be resolved by the environment that runs the converter.
    pub fn new(pandoc_path: Option<String>) -> (r: AsciidocParser)
        ensures
            pandoc_path matches Some(p) ==> r.spec_converter_path() == p@,
            pandoc_path is None ==> r.spec_converter_path() == "pandoc"@,
    {
        match pandoc_path {
            Some(p) => AsciidocParser { pandoc_path: p },
            None => AsciidocParser { pandoc_path: "pandoc".to_owned() },
        }
    }

    /// Starts a Markdown-to-AsciiDoc conversion of the given text: the
    /// returned request names this parser's converter and the two
    /// formats, and its `finish` completes the conversion.
    pub fn parse_from_markdown(&self, markdown_text: &str) -> (c: MarkdownConversion)
        ensures
            c.converter_path@ == self.spec_converter_path(),
            c.input_format is Markdown,
            c.output_format is Asciidoc,
            c.markdown@ == markdown_text@,
    {
        MarkdownConversion {
            converter_path: self.pandoc_path.clone(),
            input_format: Format::Markdown,
            output_format: Format::Asciidoc,
            markdown: markdown_text.to_owned(),
        }
    }
}

} // verus!
