use slaters::activation::{
    after_verification, pod_services, quadlet_target_dir, units_to_enable, ActivationStep,
};
use slaters::utils::{
    ask_confirm, auto_mode, confirm_answer, has_permission, is_interactive, normalize_path,
    Confirmation,
};

#[test]
fn test_normalize_path() {
    let cwd = "/home/user/project";
    let parent_dir = "/home/user";

    assert_eq!(normalize_path("/a/b/c", cwd), "/a/b/c");
    assert_eq!(normalize_path("/a/b/../c", cwd), "/a/c");
    assert_eq!(normalize_path("a/b/c", cwd), format!("{}/a/b/c", cwd));
    assert_eq!(normalize_path("a/../b/c", cwd), format!("{}/b/c", cwd));
    assert_eq!(normalize_path("../a/b/c", cwd), format!("{parent_dir}/a/b/c"));
}

#[test]
fn normalize_path_edges() {
    assert_eq!(normalize_path("/..", "/x"), "/");
    assert_eq!(normalize_path(".", "/srv/app"), "/srv/app");
    assert_eq!(normalize_path("./data//x/", "/srv"), "/srv/data/x");
}

#[test]
fn unattended_confirm_answers_default() {
    for d in [true, false] {
        match ask_confirm("Proceed?", d, true, true) {
            Confirmation::Answered(a) => assert_eq!(a, d),
            Confirmation::Ask(_) => panic!("asked in auto mode"),
        }
        match ask_confirm("Proceed?", d, false, false) {
            Confirmation::Answered(a) => assert_eq!(a, d),
            Confirmation::Ask(_) => panic!("asked without a terminal"),
        }
    }
}

#[test]
fn interactive_confirm_asks() {
    match ask_confirm("Delete?", false, false, true) {
        Confirmation::Ask(d) => {
            assert_eq!(d.prompt, "Delete?");
            assert_eq!(d.affirmative, "No");
            assert_eq!(d.negative, "Yes");
            assert!(!confirm_answer(&d, true));
            assert!(confirm_answer(&d, false));
        }
        Confirmation::Answered(_) => panic!("answered without asking"),
    }
    match ask_confirm("Go?", true, false, true) {
        Confirmation::Ask(d) => assert!(confirm_answer(&d, true)),
        Confirmation::Answered(_) => panic!("answered without asking"),
    }
}

#[test]
fn auto_mode_variable() {
    assert!(auto_mode(Some("true")));
    assert!(auto_mode(Some("TRUE")));
    assert!(auto_mode(Some("True")));
    assert!(!auto_mode(Some("1")));
    assert!(!auto_mode(None));
}

#[test]
fn permission_bits() {
    assert!(is_interactive(Some(0o620)));
    assert!(!is_interactive(Some(0o444)));
    assert!(!is_interactive(None));
    assert!(has_permission(Some(0o755), 0o111));
    assert!(!has_permission(Some(0o644), 0o111));
}

#[test]
fn timers_and_lone_services_are_enabled() {
    let files = vec![
        "a.service".to_string(),
        "a.timer".to_string(),
        "b.service".to_string(),
        "c.conf".to_string(),
    ];
    assert_eq!(units_to_enable(&files), vec!["a.timer", "b.service"]);
}

#[test]
fn pods_are_restarted_by_their_service() {
    let files = vec!["web.pod".to_string(), "web-app.container".to_string(), ".pod".to_string()];
    assert_eq!(pod_services(&files), vec!["web-pod.service"]);
}

#[test]
fn quadlet_directories() {
    assert_eq!(quadlet_target_dir(true, Some("/home/u")).unwrap(), "/etc/containers/systemd");
    assert_eq!(
        quadlet_target_dir(false, Some("/home/u")).unwrap(),
        "/home/u/.config/containers/systemd"
    );
    assert!(quadlet_target_dir(false, None).is_none());
}

#[test]
fn verification_failure_blocks_activation() {
    use_step(after_verification(true), "Delete the failed files?", false, true);
    use_step(
        after_verification(false),
        "Activate the new service files? (Ensure your files have been created in the correct directories!)",
        true,
        false,
    );
}

fn use_step(step: ActivationStep, prompt: &str, yes_default: bool, deletion: bool) {
    match step {
        ActivationStep::OfferDeletion(q) => {
            assert!(deletion);
            assert_eq!(q.prompt, prompt);
            assert_eq!(q.yes_default, yes_default);
        }
        ActivationStep::OfferActivation(q) => {
            assert!(!deletion);
            assert_eq!(q.prompt, prompt);
            assert_eq!(q.yes_default, yes_default);
        }
    }
}
