use node_tools::naming::{node_registrations, node_tool_names, qualified_name};
use node_tools::tool_def::NodeToolSchema;

#[test]
fn qualified_name_formats_correctly() {
    assert_eq!(
        qualified_name("abc-123", "xcode_build"),
        "node__abc-123__xcode_build"
    );
}

#[test]
fn qualified_name_preserves_uuid() {
    assert_eq!(
        qualified_name("aa75f3f0-21ba-41ed-9cb1-417165c2c1b2", "build"),
        "node__aa75f3f0-21ba-41ed-9cb1-417165c2c1b2__build"
    );
}

fn schema(name: &str) -> NodeToolSchema {
    NodeToolSchema {
        name: name.to_string(),
        description: "d".to_string(),
        annotations: None,
        parameters: serde_json::Value::Null,
    }
}

#[test]
fn node_tool_names_qualifies_each_tool_in_order() {
    let defs = vec![schema("build"), schema("test"), schema("lint")];
    let names = node_tool_names("n1", &defs);
    assert_eq!(names, vec!["node__n1__build", "node__n1__test", "node__n1__lint"]);
}

#[test]
fn node_tool_names_of_no_tools_is_empty() {
    let names = node_tool_names("n1", &[]);
    assert!(names.is_empty());
}

#[test]
fn distinct_uuid_nodes_give_distinct_names() {
    let a = qualified_name("aa75f3f0-21ba-41ed-9cb1-417165c2c1b2", "build");
    let b = qualified_name("bb75f3f0-21ba-41ed-9cb1-417165c2c1b2", "build");
    assert_ne!(a, b);
}

#[test]
fn underscores_in_node_ids_can_collide() {
    // Why the injectivity law asks for node ids without underscores.
    assert_eq!(qualified_name("a", "_b"), qualified_name("a_", "b"));
}

#[test]
fn same_tool_different_nodes_never_collide() {
    assert_ne!(qualified_name("a_", "b"), qualified_name("a", "b"));
    assert_ne!(qualified_name("x__y", "t"), qualified_name("x", "t"));
}

#[test]
fn node_registrations_pair_names_with_schemas() {
    let defs = vec![schema("build"), schema("test")];
    let regs = node_registrations("n1", &defs);
    assert_eq!(regs.len(), 2);
    assert_eq!(regs[0].0, "node__n1__build");
    assert_eq!(regs[0].1.name, "build");
    assert_eq!(regs[1].0, "node__n1__test");
    assert_eq!(regs[1].1.name, "test");
}
