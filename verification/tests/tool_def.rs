use node_tools::tool_def::{
    default_http_method, default_stderr_mode, default_timeout_secs, ExecHandler, NodeToolDef,
    NodeToolSchema, StderrMode, ToolAnnotations, ToolHandler,
};

fn secret_def() -> NodeToolDef {
    NodeToolDef {
        name: "test".into(),
        description: "desc".into(),
        annotations: None,
        parameters: serde_json::Value::Object(serde_json::Map::new()),
        handler: ToolHandler::Exec(ExecHandler {
            program: "secret_binary".into(),
            args: vec![],
            cwd: None,
            timeout_secs: 60,
            max_output_lines: None,
            stderr: StderrMode::Separate,
            env: Default::default(),
        }),
    }
}

#[test]
fn node_tool_schema_excludes_handler() {
    let def = secret_def();
    let schema = NodeToolSchema::from(&def);
    // The schema has exactly these four fields: no handler can travel with it.
    let NodeToolSchema { name, description, annotations, parameters } = schema;
    let json = serde_json::to_string(&parameters).unwrap();
    for part in [name.as_str(), description.as_str(), json.as_str()] {
        assert!(!part.contains("secret_binary"));
        assert!(!part.contains("handler"));
    }
    assert!(annotations.is_none());
}

#[test]
fn node_tool_schema_copies_the_advertised_fields() {
    let mut def = secret_def();
    def.annotations = Some(ToolAnnotations {
        title: Some("Test Tool".into()),
        read_only_hint: Some(true),
        destructive_hint: Some(false),
        idempotent_hint: None,
        open_world_hint: None,
    });
    let schema = NodeToolSchema::from(&def);
    assert_eq!(schema.name, "test");
    assert_eq!(schema.description, "desc");
    assert_eq!(schema.parameters, def.parameters);
    let ann = schema.annotations.unwrap();
    assert_eq!(ann.title.as_deref(), Some("Test Tool"));
    assert_eq!(ann.read_only_hint, Some(true));
    assert_eq!(ann.destructive_hint, Some(false));
    assert_eq!(ann.idempotent_hint, None);
}

#[test]
fn defaults() {
    assert_eq!(default_timeout_secs(), 60);
    assert_eq!(default_stderr_mode(), StderrMode::Separate);
    assert_eq!(StderrMode::default(), StderrMode::Separate);
    assert_eq!(default_http_method(), "POST");
}
