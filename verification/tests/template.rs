use node_tools::template::{substitute_params, ParamEntry, ParamValue, ToolParams};

fn text(key: &str, value: &str) -> ParamEntry {
    ParamEntry { key: key.to_string(), value: ParamValue::Str(value.to_string()) }
}

fn json(key: &str, value: &str) -> ParamEntry {
    ParamEntry { key: key.to_string(), value: ParamValue::Json(value.to_string()) }
}

// Members are listed in the order a `serde_json::Map` yields them (by key).

#[test]
fn substitute_params_replaces_placeholders() {
    let params = ToolParams::Object(vec![text("configuration", "Debug"), text("scheme", "MyApp")]);
    let result = substitute_params("-scheme {{scheme}} -config {{configuration}}", &params);
    assert_eq!(result, "-scheme MyApp -config Debug");
}

#[test]
fn substitute_params_leaves_unknown_placeholders() {
    let params = ToolParams::Object(vec![text("a", "1")]);
    let result = substitute_params("{{a}} {{b}}", &params);
    assert_eq!(result, "1 {{b}}");
}

#[test]
fn substitute_params_handles_non_string_values() {
    let params = ToolParams::Object(vec![json("count", "42"), json("flag", "true")]);
    let result = substitute_params("--count={{count}} --flag={{flag}}", &params);
    assert_eq!(result, "--count=42 --flag=true");
}

#[test]
fn substitute_params_injection_safe() {
    let params = ToolParams::Object(vec![text("scheme", "; rm -rf /")]);
    let result = substitute_params("{{scheme}}", &params);
    assert_eq!(result, "; rm -rf /");
}

#[test]
fn substitute_params_non_object_leaves_template() {
    let result = substitute_params("{{a}} x", &ToolParams::NotObject);
    assert_eq!(result, "{{a}} x");
}

#[test]
fn substitute_params_replaces_every_occurrence() {
    let params = ToolParams::Object(vec![text("x", "v")]);
    assert_eq!(substitute_params("{{x}}-{{x}}{{x}}", &params), "v-vv");
}

#[test]
fn substitute_params_without_placeholders_is_unchanged() {
    let params = ToolParams::Object(vec![text("a", "1"), json("b", "null")]);
    assert_eq!(substitute_params("plain {a} {{ a }}", &params), "plain {a} {{ a }}");
}

#[test]
fn substitute_params_inserted_values_are_literal() {
    let params = ToolParams::Object(vec![text("a", "{{b}}"), text("b", "x")]);
    assert_eq!(substitute_params("{{a}}", &params), "{{b}}");
    let params = ToolParams::Object(vec![text("a", "x"), text("b", "{{a}}")]);
    assert_eq!(substitute_params("{{b}} {{a}}", &params), "{{a}} x");
}

#[test]
fn substitute_params_members_apply_in_order_over_the_template() {
    // Keys in the order a serde_json map yields them: "a" before "x{{a".
    let params = ToolParams::Object(vec![text("a", "A"), text("x{{a", "X")]);
    assert_eq!(substitute_params("{{x{{a}}", &params), "{{xA");
}

#[test]
fn substitute_params_placeholder_formed_around_a_value_is_not_replaced() {
    let params = ToolParams::Object(vec![text("a", "b"), text("b", "Z")]);
    assert_eq!(substitute_params("{{{{a}}}}", &params), "{{b}}");
}

#[test]
fn substitute_params_placeholder_formed_across_an_empty_value_is_replaced() {
    let params = ToolParams::Object(vec![text("a", ""), text("k", "K")]);
    assert_eq!(substitute_params("{{{{a}}k}}", &params), "K");
}

#[test]
fn substitute_params_value_with_own_placeholder() {
    let params = ToolParams::Object(vec![text("a", "{{a}}{{a}}")]);
    assert_eq!(substitute_params("{{a}}-{{a}}", &params), "{{a}}{{a}}-{{a}}{{a}}");
}

#[test]
fn substitute_params_adjacent_and_partial_placeholders() {
    let params = ToolParams::Object(vec![text("a", "1"), text("b", "2")]);
    assert_eq!(substitute_params("{{a}}{{b}}{{{a}}}}", &params), "12{1}}");
    assert_eq!(substitute_params("{{a}", &params), "{{a}");
}

#[test]
fn substitute_params_json_text_of_object_value() {
    let params = ToolParams::Object(vec![json("cfg", "{\"k\":1}")]);
    assert_eq!(substitute_params("--cfg={{cfg}}", &params), "--cfg={\"k\":1}");
}

#[test]
fn substitute_params_empty_object() {
    assert_eq!(substitute_params("{{a}}", &ToolParams::Object(vec![])), "{{a}}");
}

#[test]
fn substitute_params_with_serde_json_renderings() {
    // A non-string value goes in as the compact JSON text serde_json gives it.
    let mut obj = serde_json::Map::new();
    obj.insert("count".to_string(), serde_json::Value::from(42));
    obj.insert("flag".to_string(), serde_json::Value::Bool(true));
    obj.insert("list".to_string(), serde_json::Value::Array(vec![1.into(), "x".into()]));
    let entries = obj
        .iter()
        .map(|(k, v)| match v {
            serde_json::Value::String(s) => text(k, s),
            other => json(k, &other.to_string()),
        })
        .collect();
    let result = substitute_params(
        "--count={{count}} --flag={{flag}} --list={{list}}",
        &ToolParams::Object(entries),
    );
    assert_eq!(result, "--count=42 --flag=true --list=[1,\"x\"]");
}
