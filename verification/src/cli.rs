//! The run configuration: which input to read, where output goes, and
//! which output formats are requested.

use vstd::prelude::*;

verus! {

/// Flags that skip the full pipeline and produce a single intermediate
/// output. At most one of them may be set for a run.
#[derive(Clone)]
pub struct OnlyFlags {
    /// Skip the other steps and just generate the PlantUML of the code.
    pub plantuml_only: bool,
    /// Skip the other steps and just generate Markdown.
    pub markdown_only: bool,
}

/// The requested output format of a full pipeline run.
#[derive(Clone, Debug, PartialEq, Eq, Hash, Structural)]
pub enum OutputFormat {
    Asciidoc,
    AsciidocPlantuml,
    Markdown,
    Plantuml,
}

/// The arguments of one run.
#[derive(Clone)]
pub struct Cli {
    pub only_flags: OnlyFlags,
    /// Input Rust source code file; input comes from elsewhere when absent.
    pub input_file: Option<String>,
    /// Output filename; output goes to the caller when absent.
    pub output_file: Option<String>,
    /// Format for the output.
    pub format: OutputFormat,
    /// Derive the output file name from the input file name.
    pub preserve_names: bool,
    /// A prefix for the output filename.
    pub file_name_prefix: Option<String>,
}

/// The file extension that belongs to an output format.
pub fn get_output_format_extension(format: &OutputFormat) -> (r: &'static str)
    ensures
        format is Asciidoc ==> r@ == ".adoc"@,
        format is AsciidocPlantuml ==> r@ == ".puml"@,
        format is Markdown ==> r@ == ".md"@,
        format is Plantuml ==> r@ == ".puml"@,
{
    match format {
        OutputFormat::Asciidoc => ".adoc",
        OutputFormat::AsciidocPlantuml => ".puml",
        OutputFormat::Markdown => ".md",
        OutputFormat::Plantuml => ".puml",
    }
}

} // verus!
