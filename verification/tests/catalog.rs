use node_tools::catalog::{is_tool_file_name, validate_tool_def, Admission, ToolCatalog, ToolDefError};
use node_tools::tool_def::{ExecHandler, NodeToolDef, StderrMode, ToolHandler};

fn def(name: &str, description: &str) -> NodeToolDef {
    NodeToolDef {
        name: name.into(),
        description: description.into(),
        annotations: None,
        parameters: serde_json::Value::Null,
        handler: ToolHandler::Exec(ExecHandler {
            program: "echo".into(),
            args: vec![],
            cwd: None,
            timeout_secs: 60,
            max_output_lines: None,
            stderr: StderrMode::Separate,
            env: Default::default(),
        }),
    }
}

#[test]
fn validation_accepts_plain_definition() {
    assert_eq!(validate_tool_def(&def("test_tool", "A test tool")), Ok(()));
}

#[test]
fn validation_rejects_empty_name() {
    assert_eq!(validate_tool_def(&def("", "empty name")), Err(ToolDefError::EmptyName));
}

#[test]
fn validation_rejects_double_underscore_name() {
    assert_eq!(
        validate_tool_def(&def("bad__name", "has double underscore")),
        Err(ToolDefError::ReservedSeparator)
    );
    assert_eq!(validate_tool_def(&def("_a_b_", "single underscores")), Ok(()));
}

#[test]
fn validation_rejects_empty_description() {
    assert_eq!(validate_tool_def(&def("x", "")), Err(ToolDefError::EmptyDescription));
}

#[test]
fn validation_checks_name_before_description() {
    assert_eq!(validate_tool_def(&def("", "")), Err(ToolDefError::EmptyName));
    assert_eq!(validate_tool_def(&def("a__b", "")), Err(ToolDefError::ReservedSeparator));
}

#[test]
fn error_messages() {
    assert_eq!(ToolDefError::EmptyName.message(), "tool name must not be empty");
    assert_eq!(
        ToolDefError::ReservedSeparator.message(),
        "tool name must not contain '__' (reserved for namespacing)"
    );
    assert_eq!(ToolDefError::EmptyDescription.message(), "tool description must not be empty");
}

#[test]
fn catalog_keeps_first_of_duplicate_names() {
    let mut cat = ToolCatalog::new();
    assert!(cat.is_empty());
    assert_eq!(cat.offer(def("dupe", "first")), Admission::Added);
    assert_eq!(cat.offer(def("dupe", "second")), Admission::Duplicate);
    assert_eq!(cat.len(), 1);
    assert_eq!(cat.get(&"dupe".to_string()).unwrap().description, "first");
}

#[test]
fn catalog_rejects_invalid_definitions() {
    let mut cat = ToolCatalog::new();
    assert_eq!(cat.offer(def("", "x")), Admission::Rejected(ToolDefError::EmptyName));
    assert_eq!(
        cat.offer(def("bad__name", "x")),
        Admission::Rejected(ToolDefError::ReservedSeparator)
    );
    assert!(cat.is_empty());
}

#[test]
fn catalog_keeps_order_of_addition() {
    let mut cat = ToolCatalog::new();
    cat.offer(def("b", "x"));
    cat.offer(def("a", "x"));
    assert!(cat.contains_name(&"a".to_string()));
    assert!(!cat.contains_name(&"c".to_string()));
    let names: Vec<String> = cat.into_defs().into_iter().map(|d| d.name).collect();
    assert_eq!(names, vec!["b", "a"]);
}

#[test]
fn tool_file_names() {
    assert!(is_tool_file_name("test_tool.json"));
    assert!(is_tool_file_name("a.b.json"));
    assert!(is_tool_file_name("x..json"));
    assert!(!is_tool_file_name("readme.txt"));
    assert!(!is_tool_file_name(".json"));
    assert!(!is_tool_file_name("json"));
    assert!(!is_tool_file_name("tool.JSON"));
    assert!(!is_tool_file_name("tool.json.bak"));
}

#[test]
fn tool_file_names_agree_with_path_extension() {
    for name in ["a.json", ".json", "..json", "b.txt", "c", "d.json5", "e.tar.json", ".hidden.json"] {
        let by_path = std::path::Path::new(name).extension().and_then(|e| e.to_str()) == Some("json");
        assert_eq!(is_tool_file_name(name), by_path, "{name}");
    }
}

#[test]
fn catalog_ignores_invalid_and_order_of_valid() {
    let mut one = ToolCatalog::new();
    one.offer(def("a", "x"));
    one.offer(def("b", "y"));
    let mut two = ToolCatalog::new();
    two.offer(def("", "bad"));
    two.offer(def("b", "y"));
    two.offer(def("c__d", "bad"));
    two.offer(def("a", "x"));
    let mut n1: Vec<(String, String)> = one.into_defs().into_iter().map(|d| (d.name, d.description)).collect();
    let mut n2: Vec<(String, String)> = two.into_defs().into_iter().map(|d| (d.name, d.description)).collect();
    n1.sort();
    n2.sort();
    assert_eq!(n1, n2);
}
