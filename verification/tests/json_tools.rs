use env_json_tools::engine::add_env_var;
use env_json_tools::json::{
    calculate_json_stats, format_json, minify_json, validate_json, JsonMember, JsonNode,
};

#[test]
fn add_env_var_fails_when_key_is_live() {
    let e = add_env_var("PATH", "/x", true, None).unwrap_err();
    assert_eq!(e, "该环境变量已存在");
}

#[test]
fn add_env_var_inserts_when_key_is_new() {
    let r = add_env_var("MY_VAR", "/x", false, None).unwrap();
    assert_eq!(r, "# Environment variables configuration\nexport MY_VAR=/x\n");
}

#[test]
fn validate_json_rejects_empty_input() {
    let r = validate_json("");
    assert!(!r.is_valid);
    assert_eq!(r.error.as_deref(), Some("JSON 字符串不能为空"));
    assert!(r.stats.is_none());
}

#[test]
fn validate_json_rejects_blank_input() {
    let r = validate_json("  \n\t ");
    assert!(!r.is_valid);
    assert_eq!(r.error.as_deref(), Some("JSON 字符串不能为空"));
    assert!(r.stats.is_none());
}

#[test]
fn validate_json_reports_parse_errors() {
    let r = validate_json("{\"a\":");
    assert!(!r.is_valid);
    assert!(r.error.is_some());
    assert!(!r.error.unwrap().is_empty());
    assert!(r.stats.is_none());
}

#[test]
fn validate_json_counts_nested_document() {
    let r = validate_json("{\"a\":[1,2,{\"b\":3}]}");
    assert!(r.is_valid);
    assert_eq!(r.error, None);
    let stats = r.stats.unwrap();
    assert_eq!(stats.object_count, 2);
    assert_eq!(stats.array_count, 1);
    assert_eq!(stats.key_count, 2);
    assert_eq!(stats.max_depth, 3);
}

#[test]
fn stats_of_hand_built_tree() {
    // The same document as validate_json_counts_nested_document, built
    // directly: {"a":[1,2,{"b":3}]}
    let three = JsonNode::Num(serde_json::Number::from(3u64));
    let inner = JsonNode::Object(vec![JsonMember { name: "b".to_string(), value: three }]);
    let arr = JsonNode::Array(vec![
        JsonNode::Num(serde_json::Number::from(1u64)),
        JsonNode::Num(serde_json::Number::from(2u64)),
        inner,
    ]);
    let root = JsonNode::Object(vec![JsonMember { name: "a".to_string(), value: arr }]);
    let stats = calculate_json_stats(&root);
    assert_eq!(stats.key_count, 2);
    assert_eq!(stats.max_depth, 3);
    assert_eq!(stats.object_count, 2);
    assert_eq!(stats.array_count, 1);
}

#[test]
fn stats_of_scalars_and_empty_containers() {
    let s = calculate_json_stats(&JsonNode::Null);
    assert_eq!((s.key_count, s.max_depth, s.object_count, s.array_count), (0, 0, 0, 0));
    let e = calculate_json_stats(&JsonNode::Object(vec![]));
    assert_eq!((e.key_count, e.max_depth, e.object_count, e.array_count), (0, 0, 1, 0));
    let a = calculate_json_stats(&JsonNode::Array(vec![]));
    assert_eq!((a.key_count, a.max_depth, a.object_count, a.array_count), (0, 0, 0, 1));
}

#[test]
fn format_json_rejects_blank_input() {
    assert_eq!(format_json("  ").unwrap_err(), "JSON 字符串不能为空");
    assert_eq!(minify_json("").unwrap_err(), "JSON 字符串不能为空");
}

#[test]
fn format_json_reports_parse_errors() {
    let e = format_json("{bad").unwrap_err();
    assert!(e.starts_with("JSON 解析错误: "));
    let m = minify_json("{bad").unwrap_err();
    assert!(m.starts_with("JSON 解析错误: "));
}

#[test]
fn format_json_indents_with_two_spaces() {
    let pretty = format_json("{\"a\":1}").unwrap();
    assert_eq!(pretty, "{\n  \"a\": 1\n}");
}

#[test]
fn format_then_minify_round_trips() {
    let pretty = format_json("{\"a\":1}").unwrap();
    let compact = minify_json(pretty.as_str()).unwrap();
    assert_eq!(compact, "{\"a\":1}");
}

#[test]
fn minify_strips_insignificant_whitespace() {
    let compact = minify_json(" { \"a\" : [ 1 , 2 ] } ").unwrap();
    assert_eq!(compact, "{\"a\":[1,2]}");
}
