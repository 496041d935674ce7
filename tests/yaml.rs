use slaters::compose::{
    image_to_qualify, name_project, normalize_service, rename_first_service, ComposeError,
    ComposeFile,
};
use slaters::yaml::{deep_copy, strings, with_strings, YamlValue};

fn text(s: &str) -> YamlValue {
    YamlValue::Text(s.to_string())
}

fn texts(v: &[&str]) -> Vec<String> {
    v.iter().map(|s| s.to_string()).collect()
}

fn as_text(v: &YamlValue) -> &str {
    match v {
        YamlValue::Text(s) => s,
        other => panic!("not a string: {:?}", other),
    }
}

fn service() -> YamlValue {
    YamlValue::Mapping(vec![
        (text("image"), text("nginx")),
        (
            text("volumes"),
            YamlValue::Sequence(vec![text("./data:/data"), text("named:/v"), YamlValue::Null]),
        ),
        (text("env_file"), text("./app.env")),
        (text("ports"), YamlValue::Sequence(vec![YamlValue::Number("8080".to_string())])),
        (
            text("environment"),
            YamlValue::Tagged("!env".to_string(), Box::new(text("${HOST}"))),
        ),
    ])
}

#[test]
fn strings_in_document_order() {
    let s = strings(&service());
    assert_eq!(s, texts(&["nginx", "./data:/data", "named:/v", "./app.env", "${HOST}"]));
}

#[test]
fn strings_are_replaced_in_order() {
    let v = service();
    let new = texts(&["a", "b", "c", "d", "e"]);
    let r = with_strings(&v, &new);
    assert_eq!(strings(&r), new);
    match &r {
        YamlValue::Mapping(es) => {
            assert_eq!(as_text(&es[0].0), "image");
            match &es[3].1 {
                YamlValue::Sequence(items) => match &items[0] {
                    YamlValue::Number(n) => assert_eq!(n, "8080"),
                    other => panic!("unexpected {:?}", other),
                },
                other => panic!("unexpected {:?}", other),
            }
        }
        other => panic!("unexpected {:?}", other),
    }
    let c = deep_copy(&v);
    assert_eq!(strings(&c), strings(&v));
}

#[test]
fn service_paths_and_image() {
    let v = service();
    assert_eq!(image_to_qualify(&v).unwrap(), "nginx");
    let r = normalize_service(&v, Some("docker.io/library/nginx"), "/srv/app");
    assert_eq!(
        strings(&r),
        texts(&["docker.io/library/nginx", "/srv/app/data:/data", "named:/v", "/srv/app/app.env", "${HOST}"])
    );
    let r = normalize_service(&v, None, "/srv/app");
    assert_eq!(strings(&r)[0], "nginx");
}

#[test]
fn qualified_images_are_not_looked_up() {
    let v = YamlValue::Mapping(vec![(text("image"), text("docker.io/library/nginx"))]);
    assert!(image_to_qualify(&v).is_none());
    assert!(image_to_qualify(&text("nginx")).is_none());
}

#[test]
fn env_file_sequence_is_normalized() {
    let v = YamlValue::Mapping(vec![(
        text("env_file"),
        YamlValue::Sequence(vec![text("a.env"), text("../b.env")]),
    )]);
    let r = normalize_service(&v, None, "/srv/app");
    assert_eq!(strings(&r), texts(&["a.env", "/srv/b.env"]));
}

#[test]
fn project_name_and_rename() {
    let file = ComposeFile { services: vec![], other: vec![] };
    assert_eq!(name_project(file, None).unwrap_err(), ComposeError::EmptyServiceSet);

    let file = ComposeFile {
        services: vec![("web".to_string(), YamlValue::Null), ("db".to_string(), YamlValue::Null)],
        other: vec![],
    };
    let file = name_project(file, Some("/srv/site")).unwrap();
    assert_eq!(file.other.len(), 1);
    assert_eq!(file.other[0].0, "name");
    assert_eq!(as_text(&file.other[0].1), "web");

    let file = rename_first_service(file, true);
    let names: Vec<String> = file.services.iter().map(|(n, _)| n.clone()).collect();
    assert_eq!(names, vec!["app", "db"]);

    let file = ComposeFile {
        services: vec![("app".to_string(), YamlValue::Null)],
        other: vec![("name".to_string(), text("kept"))],
    };
    let file = name_project(file, Some("/srv/site")).unwrap();
    assert_eq!(file.other.len(), 1);
    assert_eq!(as_text(&file.other[0].1), "kept");
}

#[test]
fn rename_replaces_existing_app() {
    let file = ComposeFile {
        services: vec![
            ("web".to_string(), text("first")),
            ("app".to_string(), text("second")),
        ],
        other: vec![],
    };
    let file = rename_first_service(file, true);
    assert_eq!(file.services.len(), 1);
    assert_eq!(file.services[0].0, "app");
    assert_eq!(as_text(&file.services[0].1), "first");
    let file = rename_first_service(
        ComposeFile { services: vec![("web".to_string(), YamlValue::Null)], other: vec![] },
        false,
    );
    assert_eq!(file.services[0].0, "web");
}
