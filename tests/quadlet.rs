use slaters::formats::{Ini, IniFiles, Section};
use slaters::quadlet::{
    apply_quadlet_rules, parse_raw_quadlets, process_quadlets, rule_prompts, split_blocks,
    QuadletParseError, RuleAnswers, RuleKind,
};

fn setup_quadlets() -> IniFiles {
    let input = r#"
# bookstack-app.container
[Unit]
Requires=bookstack-db.service
After=bookstack-db.service

[Container]
Image=lscr.io/linuxserver/bookstack
Pod=bookstack.pod

[Service]
Restart=always

---

# bookstack-db.container
[Container]
Image=lscr.io/linuxserver/mariadb
Pod=bookstack.pod

[Service]
Restart=always

---

# bookstack.pod
[Pod]
PublishPort=127.0.0.1:11004:80
"#;
    parse_raw_quadlets(input.trim()).unwrap()
}

fn all_yes() -> RuleAnswers {
    RuleAnswers { wanted_by: true, after: true, environment_file: true, auto_update: true }
}

fn container(image: &str) -> Ini {
    let mut d = Ini::new();
    let mut c = Section::new();
    c.insert("Image".to_string(), image.to_string());
    d.insert("Container".to_string(), c);
    d
}

#[test]
fn test_parse_raw_quadlets() {
    let result = setup_quadlets();

    let app_container = result.get("bookstack-app.container").unwrap();
    assert_eq!(
        app_container.get("Unit").unwrap().get("Requires"),
        Some(&"bookstack-db.service".to_string())
    );
    assert_eq!(
        app_container.get("Container").unwrap().get("Image"),
        Some(&"lscr.io/linuxserver/bookstack".to_string())
    );

    let db_container = result.get("bookstack-db.container").unwrap();
    assert_eq!(
        db_container.get("Container").unwrap().get("Image"),
        Some(&"lscr.io/linuxserver/mariadb".to_string())
    );

    let pod = result.get("bookstack.pod").unwrap();
    assert_eq!(
        pod.get("Pod").unwrap().get("PublishPort"),
        Some(&"127.0.0.1:11004:80".to_string())
    );
}

#[test]
fn test_process_quadlets() {
    let quadlets = setup_quadlets();
    let env_file = "/tmp/slater/.env".to_string();
    let answers = vec![all_yes(); quadlets.len()];
    let processed = process_quadlets(quadlets, Some(env_file.clone()), &answers);

    let app = processed.get("bookstack-app.container").unwrap();
    let unit = app.get("Unit").unwrap();
    assert_eq!(unit.get("Requires").unwrap(), "bookstack-db.service");
    assert_eq!(
        unit.get("After").unwrap(),
        "local-fs.target network-online.target systemd-networkd-wait-online.service"
    );
    let svc = app.get("Service").unwrap();
    assert_eq!(svc.get("Restart").unwrap(), "always");
    assert_eq!(svc.get("EnvironmentFile").unwrap(), &env_file);
    assert_eq!(svc.get("AutoUpdate").unwrap(), "registry");

    let pod = processed.get("bookstack.pod").unwrap();
    assert_eq!(pod.get("Install").unwrap().get("WantedBy").unwrap(), "default.target");
    assert!(pod.get("Service").unwrap().is_empty());
    let names: Vec<String> = pod.0.keys().cloned().collect();
    assert_eq!(names, vec!["Pod", "Install", "Service"]);
}

#[test]
fn container_auto_update_follows_image() {
    let out = apply_quadlet_rules("app.container", container("example.com/app:1"), None, &all_yes());
    assert_eq!(out.get("Service").unwrap().get("AutoUpdate").unwrap(), "registry");
    let out = apply_quadlet_rules("app.container", container("localapp"), None, &all_yes());
    assert_eq!(out.get("Service").unwrap().get("AutoUpdate").unwrap(), "local");
}

#[test]
fn declined_rules_change_no_key() {
    let out = apply_quadlet_rules(
        "app.container",
        container("example.com/app:1"),
        Some("/x/.env"),
        &RuleAnswers::none(),
    );
    let names: Vec<String> = out.0.keys().cloned().collect();
    assert_eq!(names, vec!["Container", "Unit", "Service"]);
    assert!(out.get("Unit").unwrap().is_empty());
    assert!(out.get("Service").unwrap().is_empty());

    let mut pod = Ini::new();
    pod.insert("Pod".to_string(), Section::new());
    let out = apply_quadlet_rules("x.pod", pod, None, &RuleAnswers::none());
    assert!(out.get("Install").is_none());
    assert!(out.get("Service").unwrap().is_empty());
}

#[test]
fn other_units_are_left_alone() {
    let out = apply_quadlet_rules("vol.volume", container("a.b/c"), Some("/e"), &all_yes());
    let names: Vec<String> = out.0.keys().cloned().collect();
    assert_eq!(names, vec!["Container", "Service"]);
    assert!(out.get("Service").unwrap().is_empty());
}

#[test]
fn prompts_follow_unit_kind() {
    let p = rule_prompts("web.container", Some("/srv/.env"));
    let kinds: Vec<RuleKind> = p.iter().map(|x| x.kind).collect();
    assert_eq!(kinds, vec![RuleKind::After, RuleKind::EnvironmentFile, RuleKind::AutoUpdate]);
    assert_eq!(p[1].prompt, "Add EnvironmentFile=/srv/.env to 'web.container'?");
    assert!(p.iter().all(|x| x.yes_default));
    let p = rule_prompts("web.container", None);
    assert_eq!(p.len(), 2);
    let p = rule_prompts("web.pod", None);
    assert_eq!(p[0].prompt, "Add WantedBy=default.target to 'web.pod'?");
    assert!(rule_prompts("web.network", None).is_empty());
}

#[test]
fn block_without_header_is_an_error() {
    assert_eq!(
        parse_raw_quadlets("[Unit]\nA=b").unwrap_err(),
        QuadletParseError::MissingHeader(0)
    );
    assert_eq!(
        parse_raw_quadlets("# a.pod\n[Pod]\nX=1\n---\n\nno header\n[Pod]").unwrap_err(),
        QuadletParseError::MissingHeader(1)
    );
}

#[test]
fn split_on_delimiter() {
    let b = split_blocks("a\n---\n\nb\n---\n\n", "\n---\n\n");
    assert_eq!(b, vec!["a", "b", ""]);
    assert_eq!(split_blocks("abc", "--"), vec!["abc"]);
}

#[test]
fn header_name_is_trimmed() {
    let units = parse_raw_quadlets("#   web.pod  \n[Pod]\nX=1").unwrap();
    assert_eq!(units.len(), 1);
    assert!(units.get("web.pod").is_some());
}

#[test]
fn malformed_body_is_an_error() {
    assert_eq!(
        parse_raw_quadlets("# a.pod\n[Pod").unwrap_err(),
        QuadletParseError::InvalidIni(0)
    );
}
