use rustitect::asciidoc_parser::AsciidocParser;
use rustitect::cli::{get_output_format_extension, Cli, OnlyFlags, OutputFormat};
use rustitect::processing::{
    extract_plantuml_from_asciidoc, replace_puml_with_include, OutputBundle, PendingConversion,
    Processing, StartOutcome,
};

// Helper function to mock the Cli struct.
fn create_mock_cli(
    input_file: Option<String>,
    output_file: Option<String>,
    plantuml_only: bool,
    markdown_only: bool,
    format: OutputFormat,
) -> Cli {
    Cli {
        only_flags: OnlyFlags {
            plantuml_only,
            markdown_only,
        },
        input_file,
        output_file,
        format,
        preserve_names: false,
        file_name_prefix: None,
    }
}

fn expect_done(outcome: StartOutcome) -> OutputBundle {
    match outcome {
        StartOutcome::Done(bundle) => bundle,
        StartOutcome::NeedsConversion(_) => panic!("expected finished outputs"),
    }
}

fn expect_conversion(outcome: StartOutcome) -> PendingConversion {
    match outcome {
        StartOutcome::NeedsConversion(pending) => pending,
        StartOutcome::Done(_) => panic!("expected a pending conversion"),
    }
}

// Converts Markdown to AsciiDoc the way the external converter does for
// the documents this pipeline emits: heading level n becomes n+1 equals
// signs, and a fenced plantuml block becomes a [source,plantuml] block
// between ---- delimiters. Tests play the role of the program around the
// library, which runs the real converter.
fn convert_markdown_like_pandoc(md: &str) -> String {
    let mut out: Vec<String> = Vec::new();
    let mut in_fence = false;
    for line in md.lines() {
        if !in_fence && line.starts_with("```plantuml") {
            in_fence = true;
            out.push("[source,plantuml]".to_string());
            out.push("----".to_string());
        } else if in_fence && line.starts_with("```") {
            in_fence = false;
            out.push("----".to_string());
        } else if !in_fence && line.starts_with('#') {
            let n = line.chars().take_while(|c| *c == '#').count();
            let rest = line[n..].trim_start();
            let mut heading = "=".repeat(n + 1);
            heading.push(' ');
            heading.push_str(rest);
            out.push(heading);
        } else {
            out.push(line.to_string());
        }
    }
    let mut s = out.join("\n");
    s.push('\n');
    s
}

#[test]
fn only_flag_plantuml() {
    let cli_mock = create_mock_cli(None, None, true, false, OutputFormat::Asciidoc);
    let raw_rust_code = String::from(
        r#"
            struct TestStruct {
                field: String,
            }
            "#,
    );
    let expected_content = "@startuml";
    let not_expected_content = "## ";

    let processing = Processing { args: cli_mock };
    let output = expect_done(processing.start(&raw_rust_code));

    let expected_output_format = &OutputFormat::Plantuml;
    assert!(output.contains_key(expected_output_format));
    assert!(output.get(expected_output_format).is_some());
    assert!(output
        .get(expected_output_format)
        .unwrap()
        .contains(expected_content));
    assert!(!output
        .get(expected_output_format)
        .unwrap()
        .contains(not_expected_content));
}

#[test]
fn only_flag_markdown() {
    let cli_mock = create_mock_cli(None, None, false, true, OutputFormat::Asciidoc);
    let raw_rust_code = String::from(
        r#"
            struct TestStruct {
                field: String,
            }
            "#,
    );
    let expected_content = "## ";
    let not_expected_content = "@startuml";

    let processing = Processing { args: cli_mock };
    let output = expect_done(processing.start(&raw_rust_code));

    let expected_output_format = &OutputFormat::Markdown;
    assert!(output.contains_key(expected_output_format));
    assert!(output.get(expected_output_format).is_some());
    assert!(output
        .get(expected_output_format)
        .unwrap()
        .contains(expected_content));
    assert!(!output
        .get(expected_output_format)
        .unwrap()
        .contains(not_expected_content));
}

#[test]
fn test_process_input_format_markdown() {
    let cli_mock = create_mock_cli(None, None, false, false, OutputFormat::Markdown);
    let raw_rust_code = String::from("struct Person { name: String }");
    let expected_headline = "## Person";

    let processing = Processing { args: cli_mock };
    let output = expect_done(processing.start(&raw_rust_code));

    let expected_output_format = &OutputFormat::Markdown;
    assert!(output.contains_key(expected_output_format));
    assert!(output.get(expected_output_format).is_some());
    assert!(output
        .get(expected_output_format)
        .unwrap()
        .contains(expected_headline));
}

#[test]
fn test_process_input_format_asciidoc() {
    let cli_mock = create_mock_cli(None, None, false, false, OutputFormat::Asciidoc);
    let raw_rust_code = String::from("struct Person { name: String }");
    let expected_headline = "== Person";

    let processing = Processing { args: cli_mock };
    let pending = expect_conversion(processing.start(&raw_rust_code));
    let converted = convert_markdown_like_pandoc(&pending.conversion.markdown);
    let output = pending.finish(Ok(converted)).expect("conversion failed");

    let expected_output_format = &OutputFormat::Asciidoc;
    assert!(output.contains_key(expected_output_format));
    assert!(output.get(expected_output_format).is_some());
    assert!(output
        .get(expected_output_format)
        .unwrap()
        .contains(expected_headline));
}

#[test]
fn test_process_input_format_asciidoc_plantuml() {
    let cli_mock = create_mock_cli(None, None, false, false, OutputFormat::AsciidocPlantuml);
    let raw_rust_code = String::from("struct Person { name: String }");
    let expected_headline = "== Person";
    let expected_class_definition = "class \"Person\" {";

    let processing = Processing { args: cli_mock };
    let pending = expect_conversion(processing.start(&raw_rust_code));
    let converted = convert_markdown_like_pandoc(&pending.conversion.markdown);
    let output = pending.finish(Ok(converted)).expect("conversion failed");

    let expected_output_format1 = &OutputFormat::Asciidoc;
    let expected_output_format2 = &OutputFormat::AsciidocPlantuml;
    assert!(output.contains_key(expected_output_format1));
    assert!(output.contains_key(expected_output_format2));
    assert!(output.get(expected_output_format1).is_some());
    assert!(output.get(expected_output_format2).is_some());
    assert!(output
        .get(expected_output_format1)
        .unwrap()
        .contains(expected_headline));
    assert!(output
        .get(expected_output_format2)
        .unwrap()
        .contains(expected_class_definition));
    assert!(output
        .get(expected_output_format2)
        .unwrap()
        .contains("@enduml"));
}

#[test]
fn test_parse_from_markdown() {
    let parser = AsciidocParser::new(None);
    let markdown_text = "# Title\n\n## Subtitle\n\nSome text";

    let conversion = parser.parse_from_markdown(markdown_text);
    let converted = convert_markdown_like_pandoc(&conversion.markdown);
    let result = conversion.finish(Ok(converted));

    assert!(result.is_ok());
    let result_text = result.unwrap().replace("\r\n", "\n");
    assert_eq!(result_text, "== Title\n\n=== Subtitle\n\nSome text\n");
}

#[test]
fn test_parse_from_markdown_error() {
    let invalid_pandoc_path = "/invalid/path/to/pandoc";

    let parser = AsciidocParser::new(Some(String::from(invalid_pandoc_path)));
    let markdown_text = "# Title\n\n## Subtitle\n\nSome text";
    let conversion = parser.parse_from_markdown(markdown_text);
    assert_eq!(conversion.converter_path, invalid_pandoc_path);

    // Running the converter at that path fails; the runner hands the
    // failure back, and the conversion surfaces it as an error.
    let result = conversion.finish(Err(String::from(
        "No such file or directory (os error 2)",
    )));
    assert!(result.is_err());
}

#[test]
fn test_finish_normalizes_source_plantuml_attribute() {
    let parser = AsciidocParser::new(None);
    let conversion = parser.parse_from_markdown("irrelevant");
    let converted = String::from("[source,plantuml]\n----\n@startuml\n@enduml\n----\n");
    let result = conversion.finish(Ok(converted)).unwrap();
    assert_eq!(result, "[plantuml]\n----\n@startuml\n@enduml\n----\n");
}

#[test]
fn test_extract_plantuml_from_asciidoc_exact() {
    let text = "before\n[plantuml]\n----\n@startuml\nclass \"X\" {\n}\n@enduml\n----\nafter\n";
    let extracted = extract_plantuml_from_asciidoc(text);
    assert_eq!(extracted, "@startuml\nclass \"X\" {\n}\n@enduml\n");
}

#[test]
fn test_extract_plantuml_without_markers_yields_bare_end() {
    let extracted = extract_plantuml_from_asciidoc("no diagram here\n");
    assert_eq!(extracted, "\n@enduml\n");
}

#[test]
fn test_replace_puml_with_include_exact() {
    let text = "before\n[plantuml]\n----\n@startuml\nclass \"X\" {\n}\n@enduml\n----\nafter\n";
    let replaced = replace_puml_with_include(text);
    assert_eq!(replaced, "before\nplantuml::FILENAME.puml[]\nafter\n");
}

#[test]
fn test_replace_puml_without_region_returns_input_unchanged() {
    assert_eq!(replace_puml_with_include("just\nsome\nlines\n"), "just\nsome\nlines\n");
    assert_eq!(replace_puml_with_include("\n"), "\n");
    assert_eq!(replace_puml_with_include(""), "");
    assert_eq!(replace_puml_with_include("a\r\r\nb"), "a\r\r\nb");
}

#[test]
fn test_replace_puml_is_idempotent() {
    let text = "intro\n[plantuml]\n----\n@startuml\n@enduml\n----\ntail\n";
    let once = replace_puml_with_include(text);
    let twice = replace_puml_with_include(&once);
    assert_eq!(once, twice);
    let plain = "a\r\r\nb";
    let once_plain = replace_puml_with_include(plain);
    assert_eq!(once_plain, plain);
    assert_eq!(replace_puml_with_include(&once_plain), plain);
}

#[test]
fn test_replace_puml_keeps_outside_text_byte_identical() {
    let pre = "keep \u{a0}padding \r\nand\ttabs\r\n";
    let post = "trailing text without newline";
    let text = format!("{}[plantuml]\n----\n@startuml\n@enduml\n----\n{}", pre, post);
    let replaced = replace_puml_with_include(&text);
    assert_eq!(replaced, format!("{}plantuml::FILENAME.puml[]\n{}", pre, post));
}

#[test]
fn test_extract_and_replace_handle_crlf_lines() {
    let text = "x\r\n[plantuml]\r\n----\r\n@startuml\r\n@enduml\r\n----\r\ny\r\n";
    let extracted = extract_plantuml_from_asciidoc(text);
    assert_eq!(extracted, "@startuml\n@enduml\n");
    // The prefix and suffix keep their carriage returns; only the
    // replaced region is rewritten.
    let replaced = replace_puml_with_include(text);
    assert_eq!(replaced, "x\r\nplantuml::FILENAME.puml[]\ny\r\n");
}

#[test]
fn test_combined_output_references_one_diagram() {
    let cli_mock = create_mock_cli(None, None, false, false, OutputFormat::AsciidocPlantuml);
    let raw_rust_code = String::from("struct Person { name: String }");

    let processing = Processing { args: cli_mock };
    let pending = expect_conversion(processing.start(&raw_rust_code));
    let converted = convert_markdown_like_pandoc(&pending.conversion.markdown);
    let output = pending.finish(Ok(converted)).expect("conversion failed");

    let asciidoc = output.get(&OutputFormat::Asciidoc).unwrap();
    let diagram = output.get(&OutputFormat::AsciidocPlantuml).unwrap();
    assert_eq!(asciidoc.matches("plantuml::FILENAME.puml[]").count(), 1);
    let substituted = asciidoc.replace("FILENAME", "person");
    assert_eq!(substituted.matches("plantuml::person.puml[]").count(), 1);
    assert!(diagram.starts_with("@startuml"));
    assert!(diagram.ends_with("@enduml\n"));
}

#[test]
fn test_conversion_twice_yields_identical_output() {
    let raw_rust_code = String::from("struct Person { name: String }");
    let mut results: Vec<String> = Vec::new();
    for _ in 0..2 {
        let cli_mock = create_mock_cli(None, None, false, false, OutputFormat::Asciidoc);
        let processing = Processing { args: cli_mock };
        let pending = expect_conversion(processing.start(&raw_rust_code));
        let converted = convert_markdown_like_pandoc(&pending.conversion.markdown);
        let output = pending.finish(Ok(converted)).expect("conversion failed");
        results.push(output.get(&OutputFormat::Asciidoc).unwrap().clone());
    }
    assert_eq!(results[0], results[1]);
}

#[test]
fn test_try_start_reports_parse_failure() {
    let cli_mock = create_mock_cli(None, None, false, false, OutputFormat::Markdown);
    let processing = Processing { args: cli_mock };
    let bad_input = String::from("struct {{{ not rust");
    assert!(processing.try_start(&bad_input).is_err());
    let good_input = String::from("struct Ok { value: u8 }");
    assert!(processing.try_start(&good_input).is_ok());
}

#[test]
fn test_get_output_format_extension_values() {
    assert_eq!(get_output_format_extension(&OutputFormat::Asciidoc), ".adoc");
    assert_eq!(
        get_output_format_extension(&OutputFormat::AsciidocPlantuml),
        ".puml"
    );
    assert_eq!(get_output_format_extension(&OutputFormat::Markdown), ".md");
    assert_eq!(get_output_format_extension(&OutputFormat::Plantuml), ".puml");
}

#[test]
fn test_format_as_str_names() {
    assert_eq!(rustitect::asciidoc_parser::Format::Markdown.as_str(), "markdown");
    assert_eq!(rustitect::asciidoc_parser::Format::Asciidoc.as_str(), "asciidoc");
}

#[test]
fn test_is_no_only_flag_set() {
    let none_set = create_mock_cli(None, None, false, false, OutputFormat::Asciidoc);
    let plantuml_set = create_mock_cli(None, None, true, false, OutputFormat::Asciidoc);
    let markdown_set = create_mock_cli(None, None, false, true, OutputFormat::Asciidoc);
    assert!(rustitect::processing::is_no_only_flag_set(&none_set));
    assert!(!rustitect::processing::is_no_only_flag_set(&plantuml_set));
    assert!(!rustitect::processing::is_no_only_flag_set(&markdown_set));
}
