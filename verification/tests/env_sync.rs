use env_json_tools::editor;
use env_json_tools::engine::{
    check_add_env_var, delete_env_var, get_env_vars, update_env_var, validate_env_value_internal,
    EnvEntry,
};
use env_json_tools::is_valid_var_name;
use env_json_tools::locator::get_shell_config_path;

#[test]
fn valid_names_are_accepted() {
    assert!(is_valid_var_name("PATH"));
    assert!(is_valid_var_name("_x1"));
    assert!(is_valid_var_name("a"));
    assert!(is_valid_var_name("JAVA_HOME_11"));
}

#[test]
fn invalid_names_are_rejected() {
    assert!(!is_valid_var_name(""));
    assert!(!is_valid_var_name("1BAD"));
    assert!(!is_valid_var_name("A-B"));
    assert!(!is_valid_var_name("A B"));
    assert!(!is_valid_var_name("变量"));
    assert!(!is_valid_var_name("A=1"));
}

#[test]
fn validate_rejects_malformed_name() {
    let (ok, msg) = validate_env_value_internal("1BAD", "v", true);
    assert!(!ok);
    assert_eq!(msg.as_deref(), Some("变量名格式无效"));
}

#[test]
fn validate_rejects_blank_value() {
    let (ok, msg) = validate_env_value_internal("GOOD", "   ", true);
    assert!(!ok);
    assert_eq!(msg.as_deref(), Some("值不能为空"));
}

#[test]
fn validate_rejects_missing_path() {
    let (ok, msg) = validate_env_value_internal("GOOD", "/no/such/place", false);
    assert!(!ok);
    assert_eq!(msg.as_deref(), Some("路径不存在"));
}

#[test]
fn validate_accepts_existing_path_and_plain_value() {
    let (ok, msg) = validate_env_value_internal("GOOD", "/tmp", true);
    assert!(ok);
    assert_eq!(msg, None);
    let (ok2, msg2) = validate_env_value_internal("GOOD", "plain", false);
    assert!(ok2);
    assert_eq!(msg2, None);
}

#[test]
fn add_rejects_existing_key() {
    let r = check_add_env_var("PATH", true);
    assert_eq!(r.unwrap_err(), "该环境变量已存在");
}

#[test]
fn add_rejects_blank_and_malformed_keys() {
    assert_eq!(check_add_env_var("  ", false).unwrap_err(), "变量名不能为空");
    assert_eq!(
        check_add_env_var("1BAD", false).unwrap_err(),
        "变量名只能包含字母、数字和下划线，且必须以字母或下划线开头"
    );
    assert!(check_add_env_var("GOOD", false).is_ok());
}

#[test]
fn insert_into_absent_content_synthesizes_header() {
    let r = editor::insert(None, "MY_VAR", "1").unwrap();
    assert_eq!(r, "# Environment variables configuration\nexport MY_VAR=1\n");
}

#[test]
fn insert_appends_and_ensures_trailing_newline() {
    let r = editor::insert(Some("alias ll='ls -l'"), "MY_VAR", "x y=z").unwrap();
    assert_eq!(r, "alias ll='ls -l'\nexport MY_VAR=x y=z\n");
}

#[test]
fn insert_refuses_present_key() {
    let content = "export MY_VAR=1\n";
    let e = editor::insert(Some(content), "MY_VAR", "2").unwrap_err();
    assert_eq!(e, "配置文件已包含该变量，请使用更新功能");
}

#[test]
fn insert_matches_by_line_prefix() {
    // `MY` is a textual prefix of the `MY_VAR` line, so inserting `MY`
    // is refused even though the key differs.
    let content = "export MY_VAR=1\n";
    assert!(editor::insert(Some(content), "MY", "2").is_err());
    // The other way around, `MY_VAR_2` has no matching line prefix.
    assert!(editor::insert(Some(content), "MY_VAR_2", "2").is_ok());
}

#[test]
fn update_replaces_matching_line_in_place() {
    let content = "# comment\nexport A=1\nother line\n";
    let r = editor::update(Some(content), "A", "2");
    assert_eq!(r, "# comment\nexport A=2\nother line\n");
}

#[test]
fn update_appends_when_no_line_matches() {
    let content = "# comment\n";
    let r = editor::update(Some(content), "A", "1");
    assert_eq!(r, "# comment\n\nexport A=1");
}

#[test]
fn update_twice_equals_update_once() {
    let content = "# c\nexport A=1\nexport B=2\n";
    let once = editor::update(Some(content), "A", "final");
    let twice = editor::update(
        Some(editor::update(Some(content), "A", "draft").as_str()),
        "A",
        "final",
    );
    assert_eq!(twice, once);
}

#[test]
fn update_twice_equals_update_once_when_key_was_absent() {
    let content = "# c\nexport B=2\n";
    let once = editor::update(Some(content), "A", "v2");
    let twice = editor::update(Some(editor::update(Some(content), "A", "v1").as_str()), "A", "v2");
    assert_eq!(twice, once);
}

#[test]
fn remove_after_insert_leaves_no_export_line() {
    let inserted = editor::insert(None, "MY_VAR", "1").unwrap();
    let removed = editor::remove(Some(inserted.as_str()), "MY_VAR");
    for line in removed.split('\n') {
        assert!(!line.starts_with("export MY_VAR"));
    }
    assert_eq!(removed, "# Environment variables configuration");
}

#[test]
fn remove_drops_statement_and_blank_lines() {
    let content = "a\n\nexport K=1\nb\n";
    let r = editor::remove(Some(content), "K");
    assert_eq!(r, "a\nb");
}

#[test]
fn remove_of_absent_content_is_empty() {
    assert_eq!(editor::remove(None, "K"), "");
}

#[test]
fn update_env_var_rejects_blank_key() {
    assert_eq!(update_env_var(" ", "v", None).unwrap_err(), "变量名不能为空");
    assert_eq!(delete_env_var("\t", None).unwrap_err(), "变量名不能为空");
}

#[test]
fn update_env_var_rewrites_content() {
    let r = update_env_var("A", "2", Some("export A=1\n")).unwrap();
    assert_eq!(r, "export A=2\n");
}

#[test]
fn delete_env_var_rewrites_content() {
    let r = delete_env_var("A", Some("export A=1\nkeep\n")).unwrap();
    assert_eq!(r, "keep");
}

#[test]
fn config_path_requires_home() {
    assert_eq!(get_shell_config_path(None, None).unwrap_err(), "无法获取HOME目录");
}

#[test]
fn config_path_prefers_zshrc_for_zsh() {
    let p = get_shell_config_path(Some("/home/u"), Some("/usr/bin/zsh")).unwrap();
    assert_eq!(p, "/home/u/.zshrc");
}

#[test]
fn config_path_defaults_to_bashrc() {
    let p = get_shell_config_path(Some("/home/u"), Some("/bin/bash")).unwrap();
    assert_eq!(p, "/home/u/.bashrc");
    let q = get_shell_config_path(Some("/home/u"), None).unwrap();
    assert_eq!(q, "/home/u/.bashrc");
}

fn entry(key: &str, value: &str) -> EnvEntry {
    EnvEntry { key: key.to_string(), value: value.to_string(), path_ok: true }
}

#[test]
fn listing_sorts_case_insensitively() {
    let vars = get_env_vars(vec![entry("b", "1"), entry("A", "2"), entry("C", "3")]);
    let keys: Vec<&str> = vars.iter().map(|v| v.key.as_str()).collect();
    assert_eq!(keys, vec!["A", "b", "C"]);
}

#[test]
fn listing_keeps_arrival_order_for_equal_foldings() {
    let vars = get_env_vars(vec![entry("AA", "1"), entry("aa", "2"), entry("Aa", "3")]);
    let values: Vec<&str> = vars.iter().map(|v| v.value.as_str()).collect();
    assert_eq!(values, vec!["1", "2", "3"]);
}

#[test]
fn listing_attaches_verdicts() {
    let vars = get_env_vars(vec![entry("GOOD", "x"), entry("1BAD", "x")]);
    assert_eq!(vars[0].key, "1BAD");
    assert!(!vars[0].is_valid);
    assert_eq!(vars[0].error_message.as_deref(), Some("变量名格式无效"));
    assert!(vars[1].is_valid);
    assert_eq!(vars[1].error_message, None);
}
