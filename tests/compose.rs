use slaters::json::JsonValue;
use slaters::compose::{
    apply_substitutions, env_source_step, find_substitutions, needs_qualification,
    normalize_env_file, normalize_volume, parse_qualified_name, qualified_from_ref, rename_prompt,
    replace_text, resolve_compose_name, substitutions_from_tokens, ComposeError, EnvSnapshot, EnvStep,
    QualifyError,
};

fn to_json(v: &serde_json::Value) -> JsonValue {
    match v {
        serde_json::Value::Null => JsonValue::Null,
        serde_json::Value::Bool(b) => JsonValue::Bool(*b),
        serde_json::Value::Number(n) => JsonValue::Number(n.to_string()),
        serde_json::Value::String(s) => JsonValue::Text(s.clone()),
        serde_json::Value::Array(items) => JsonValue::Array(items.iter().map(to_json).collect()),
        serde_json::Value::Object(fields) => {
            JsonValue::Object(fields.iter().map(|(k, v)| (k.clone(), to_json(v))).collect())
        }
    }
}

fn manifest(text: &[u8]) -> JsonValue {
    to_json(&serde_json::from_slice::<serde_json::Value>(text).unwrap())
}

#[test]
fn test_parse_qualified_name() {
    let input = r#"[
        {
            "Ref": "docker.io/library/ubuntu:22.04@sha256:6f63292a7444f9346bf6ec6816dd93029dae021ee00cabb564c440417519680c"
        }
    ]"#;
    let expected = "docker.io/library/ubuntu:22.04";
    let result = parse_qualified_name(&manifest(input.as_bytes())).unwrap();
    assert_eq!(result, expected);
}

#[test]
fn qualified_name_failures() {
    assert_eq!(parse_qualified_name(&manifest(b"{}")).unwrap_err(), QualifyError::MissingRef);
    assert_eq!(parse_qualified_name(&manifest(b"[]")).unwrap_err(), QualifyError::MissingRef);
    assert_eq!(
        parse_qualified_name(&manifest(b"[{\"Other\": 1}]")).unwrap_err(),
        QualifyError::MissingRef
    );
    assert_eq!(
        parse_qualified_name(&manifest(b"[{\"Ref\": 3}]")).unwrap_err(),
        QualifyError::MissingRef
    );
    assert_eq!(
        parse_qualified_name(&manifest(b"[{\"Ref\": \"docker.io/x\"}, {\"Ref\": \"b@c\"}]")).unwrap(),
        "docker.io/x"
    );
    assert_eq!(qualified_from_ref("a@b@c"), "a");
    assert_eq!(qualified_from_ref("plain"), "plain");
}

#[test]
fn compose_name_rules() {
    let none: Vec<String> = vec![];
    assert_eq!(resolve_compose_name(&none, false, None).unwrap_err(), ComposeError::EmptyServiceSet);
    let web = vec!["web".to_string(), "db".to_string()];
    assert_eq!(resolve_compose_name(&web, false, Some("/srv/site")).unwrap().unwrap(), "web");
    assert!(resolve_compose_name(&web, true, None).unwrap().is_none());
    let app = vec!["app".to_string()];
    assert_eq!(resolve_compose_name(&app, false, Some("/srv/site")).unwrap().unwrap(), "site");
    assert_eq!(resolve_compose_name(&app, false, None).unwrap().unwrap(), "app");
    assert!(rename_prompt("app").is_none());
    let question = rename_prompt("web").unwrap();
    assert_eq!(question.prompt, "Do you want to rename service 'web' to 'app'?");
    assert!(!question.yes_default);
}

#[test]
fn env_lines() {
    let mut env = EnvSnapshot::new();
    match env_source_step(&env, "A=1=2") {
        EnvStep::Define(k, v) => {
            assert_eq!(k, "A");
            assert_eq!(v, "1=2");
        }
        other => panic!("unexpected {:?}", other),
    }
    env.set("A", "0");
    match env_source_step(&env, "A=1") {
        EnvStep::Ask { name, value, question } => {
            assert_eq!(name, "A");
            assert_eq!(value, "1");
            assert!(!question.yes_default);
            assert_eq!(
                question.prompt,
                "Environment variable 'A' is already set to '0'. Overwrite with '1' for variable substitution?"
            );
        }
        other => panic!("unexpected {:?}", other),
    }
    assert!(matches!(env_source_step(&env, "# comment"), EnvStep::Skip));
    env.set("A", "5");
    assert_eq!(env.get("A").unwrap(), "5");
    assert_eq!(env.vars.len(), 1);
}

#[test]
fn substitutions_follow_answers() {
    let mut env = EnvSnapshot::new();
    env.set("NGINX_HOST", "localhost");
    env.set("PORT", "80");
    let s = "http://${NGINX_HOST}:${PORT}/${MISSING}/${NGINX_HOST}";
    let subs = find_substitutions(s, &env);
    assert_eq!(subs.len(), 3);
    assert_eq!(subs[0].token, "${NGINX_HOST}");
    assert_eq!(subs[0].prompt, "Replace '${NGINX_HOST}' with 'localhost'?");
    assert!(subs.iter().all(|s| s.yes_default));
    assert_eq!(subs[1].value, "80");
    let all = apply_substitutions(s, &subs, &vec![true, true, true]);
    assert_eq!(all, "http://localhost:80/${MISSING}/localhost");
    let some = apply_substitutions(s, &subs, &vec![false, true, false]);
    assert_eq!(some, "http://${NGINX_HOST}:80/${MISSING}/${NGINX_HOST}");
}

#[test]
fn image_qualification_heuristic() {
    assert!(needs_qualification("nginx"));
    assert!(needs_qualification("library/nginx"));
    assert!(!needs_qualification("docker.io/library/nginx"));
}

#[test]
fn volume_and_env_file_paths() {
    assert_eq!(normalize_volume("./data:/data:ro", "/srv/app").unwrap(), "/srv/app/data:/data:ro");
    assert_eq!(normalize_volume("/var/../etc:/etc", "/srv").unwrap(), "/etc:/etc");
    assert!(normalize_volume("named:/data", "/srv").is_none());
    assert!(normalize_volume("nocolon", "/srv").is_none());
    assert_eq!(normalize_env_file("./.env", "/srv/app").unwrap(), "/srv/app/.env");
    assert!(normalize_env_file("env", "/srv").is_none());
}

#[test]
fn substitutions_from_given_tokens() {
    let mut env = EnvSnapshot::new();
    env.set("A", "1");
    let tokens = vec!["${A}".to_string(), "${B}".to_string(), "${A}".to_string(), "$A".to_string()];
    let subs = substitutions_from_tokens(&tokens, &env);
    assert_eq!(subs.len(), 2);
    assert_eq!(subs[0].token, "${A}");
    assert_eq!(subs[0].value, "1");
    assert_eq!(subs[1].prompt, "Replace '${A}' with '1'?");
}

#[test]
fn replacement_is_left_to_right_without_overlap() {
    use_replace("aaa", "aa", "b", "ba");
    use_replace("x${A}y${A}", "${A}", "1", "x1y1");
    use_replace("abc", "zz", "q", "abc");
    use_replace("", "a", "b", "");
}

fn use_replace(s: &str, from: &str, to: &str, expected: &str) {
    assert_eq!(replace_text(s, from, to), expected);
    assert_eq!(s.replace(from, to), expected);
}
