use rustitect::model::Method;
use rustitect::plantuml_parser::PlantumlParser;
use rustitect::rust_doc_parser::RustDocParser;

/// Code string to use it in the tests
fn test_rust_code() -> String {
    String::from(
        r#"
            /// This is a doc comment
            /// over multiple lines
            struct TestStruct {
                /// This is a doc comment of field1
                field1: String,
                /// This is a doc comment of field2
                field2: String,
            }

            impl TestStruct {
                /// Create a new TestStruct
                pub fn new(field1: String, field2: String,) -> Self {
                    TestStruct {
                        field1,
                        field2,
                    }
                }
                /// Another method
                pub fn another_method() -> Self {
                    do_something()
                }
            }
            "#,
    )
}

#[test]
fn test_parse_code_doc_to_markdown_string_struct_title() {
    let expected_markdown =
        String::from("## TestStruct\n\nThis is a doc comment\nover multiple lines\n\n");

    let parser = RustDocParser {
        raw_rust_code: test_rust_code(),
    };
    let markdown = parser.parse_code_doc_to_markdown_string();

    assert_eq!(markdown, expected_markdown);
}

#[test]
fn rust_doc_parser_test_parse_code_doc_to_markdown_string_struct_title() {
    let raw_rust_code = String::from(
        r#"
            /// This is a doc comment
            /// over multiple lines
            struct TestStruct {
                /// This is a doc comment
                field: String,
            }
            "#,
    );
    let expected_markdown =
        String::from("## TestStruct\n\nThis is a doc comment\nover multiple lines\n\n");

    let parser = RustDocParser { raw_rust_code };
    let markdown = parser.parse_code_doc_to_markdown_string();

    assert_eq!(markdown, expected_markdown);
}

#[test]
fn test_parse_code_doc_name_and_documentation() {
    let expected_struct_name = String::from("TestStruct");
    let expected_struct_documentation =
        String::from("This is a doc comment\nover multiple lines\n\n");

    let parser = RustDocParser {
        raw_rust_code: test_rust_code(),
    };
    let class_object = parser.parse_code_doc();

    assert_eq!(class_object.name, expected_struct_name);
    assert_eq!(class_object.documentation, expected_struct_documentation);
}

#[test]
fn test_parse_code_field_name_and_documentation() {
    let expected_fields = vec![
        Method {
            name: "field1".to_string(),
            documentation: "This is a doc comment of field1\n".to_string(),
        },
        Method {
            name: "field2".to_string(),
            documentation: "This is a doc comment of field2\n".to_string(),
        },
    ];
    let expected_amount_of_fields = expected_fields.len();

    let parser = RustDocParser {
        raw_rust_code: test_rust_code(),
    };
    let class_object = parser.parse_code_doc();

    assert_eq!(class_object.fields.len(), expected_amount_of_fields);
    assert_eq!(class_object.fields, expected_fields);
}

#[test]
fn test_parse_code_method_name_and_documentation() {
    let expected_methods = vec![
        Method {
            name: "new(field1: String, field2: String)".to_string(),
            documentation: "Create a new TestStruct\n".to_string(),
        },
        Method {
            name: "another_method()".to_string(),
            documentation: "Another method\n".to_string(),
        },
    ];
    let expected_amount_of_fields = expected_methods.len();

    let parser = RustDocParser {
        raw_rust_code: test_rust_code(),
    };
    let class_object = parser.parse_code_doc();

    assert_eq!(class_object.methods.len(), expected_amount_of_fields);
    assert_eq!(class_object.methods, expected_methods);
}

#[test]
fn test_parse_code_doc_trims_padded_doc_lines() {
    let raw_rust_code = String::from(
        r#"
            ///    padded on both sides
            struct Padded {}
            "#,
    );

    let parser = RustDocParser { raw_rust_code };
    let class_object = parser.parse_code_doc();

    assert_eq!(class_object.documentation, "padded on both sides\n\n");
}

#[test]
fn test_parse_code_doc_no_doc_comments_is_empty() {
    let raw_rust_code = String::from("struct Bare { value: i32 }");

    let parser = RustDocParser { raw_rust_code };
    let class_object = parser.parse_code_doc();

    assert_eq!(class_object.name, "Bare");
    assert_eq!(class_object.documentation, "");
}

#[test]
fn test_parse_code_method_receivers_and_patterns_skipped() {
    let raw_rust_code = String::from(
        r#"
            struct Holder { value: u32 }

            impl Holder {
                /// Reads the value
                pub fn read(&self, scale: u32) -> u32 {
                    self.value * scale
                }
                /// Takes a pattern argument
                pub fn with_pattern((a, b): (u32, u32), plain: u32) -> u32 {
                    a + b + plain
                }
            }
            "#,
    );

    let parser = RustDocParser { raw_rust_code };
    let class_object = parser.parse_code_doc();

    assert_eq!(class_object.methods.len(), 2);
    // The self receiver contributes no parameter.
    assert_eq!(class_object.methods[0].name, "read(scale: u32)");
    // A non-identifier pattern contributes no parameter either.
    assert_eq!(class_object.methods[1].name, "with_pattern(plain: u32)");
}

#[test]
fn test_parse_code_trait_impl_methods_excluded() {
    let raw_rust_code = String::from(
        r#"
            struct Holder { value: u32 }

            impl Clone for Holder {
                /// Not an inherent method
                fn clone(&self) -> Self {
                    Holder { value: self.value }
                }
            }

            impl Holder {
                /// Inherent method
                pub fn read() -> u32 {
                    0
                }
            }
            "#,
    );

    let parser = RustDocParser { raw_rust_code };
    let class_object = parser.parse_code_doc();

    assert_eq!(class_object.methods.len(), 1);
    assert_eq!(class_object.methods[0].name, "read()");
    assert_eq!(class_object.methods[0].documentation, "Inherent method\n");
}

#[test]
fn test_parse_code_to_string_is_empty() {
    let rust_code = String::from("");
    let expected_puml = "@startuml\n\n\n\n@enduml";

    let parser = PlantumlParser {
        raw_rust_code: rust_code,
    };
    let actual_puml = parser.parse_code_to_string();

    assert_eq!(String::from(expected_puml), actual_puml);
}

#[test]
fn test_parse_code_to_string_is_struct_with_variable() {
    let rust_code = String::from("struct TestStruct { test_variable: i32 }");
    let expected_puml =
        "@startuml\n\nclass \"TestStruct\" {\n    + test_variable: i32\n}\n\n@enduml";

    let parser = PlantumlParser {
        raw_rust_code: rust_code,
    };
    let actual_puml = parser.parse_code_to_string();

    assert_eq!(String::from(expected_puml), actual_puml);
}
