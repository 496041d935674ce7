use slaters::formats::{Ini, IniFiles, Section};
use slaters::systemd::{process_systemd, service_unit, SystemdError};

fn section(pairs: &[(&str, &str)]) -> Section {
    let mut s = Section::new();
    for (k, v) in pairs {
        s.insert(k.to_string(), v.to_string());
    }
    s
}

fn keys(s: &Section) -> Vec<String> {
    s.keys().cloned().collect()
}

fn names(d: &Ini) -> Vec<String> {
    d.0.keys().cloned().collect()
}

#[test]
fn service_with_timer() {
    let mut units = IniFiles::new();
    let mut unit_content = Ini::new();
    unit_content.insert("Unit".to_string(), section(&[("Description", "A test service")]));
    unit_content.insert("Service".to_string(), section(&[("ExecStart", "/bin/echo 'Hello'")]));
    unit_content.insert("Timer".to_string(), section(&[("OnCalendar", "daily")]));
    units.insert("test".to_string(), unit_content);

    let result = process_systemd(units).unwrap();
    assert_eq!(result.len(), 2);

    let service = result.get("test.service").unwrap();
    let timer = result.get("test.timer").unwrap();

    assert_eq!(names(service), vec!["Unit", "Service"]);
    assert_eq!(service.get("Unit").unwrap(), section(&[("Description", "A test service")]));
    let svc = service.get("Service").unwrap();
    assert_eq!(keys(&svc), vec!["ExecStart", "Type", "StandardOutput", "StandardError"]);
    assert_eq!(svc.get("ExecStart").unwrap(), "/bin/echo 'Hello'");
    assert_eq!(svc.get("Type").unwrap(), "oneshot");
    assert_eq!(svc.get("StandardOutput").unwrap(), "journal");
    assert_eq!(svc.get("StandardError").unwrap(), "journal");

    assert_eq!(names(timer), vec!["Unit", "Timer", "Install"]);
    assert_eq!(timer.get("Unit").unwrap(), section(&[("Description", "Timer for test")]));
    let t = timer.get("Timer").unwrap();
    assert_eq!(keys(&t), vec!["OnCalendar", "Unit"]);
    assert_eq!(t.get("OnCalendar").unwrap(), "daily");
    assert_eq!(t.get("Unit").unwrap(), "test.service");
    assert_eq!(timer.get("Install").unwrap(), section(&[("WantedBy", "timers.target")]));
}

#[test]
fn mytimer_scenario() {
    let mut units = IniFiles::new();
    let mut d = Ini::new();
    d.insert("Unit".to_string(), section(&[("Description", "A")]));
    d.insert("Service".to_string(), section(&[("ExecStart", "/bin/x")]));
    d.insert("Timer".to_string(), section(&[("OnCalendar", "daily")]));
    units.insert("mytimer".to_string(), d);

    let out = process_systemd(units).unwrap();
    assert_eq!(out.len(), 2);
    let svc_doc = out.get("mytimer.service").unwrap();
    assert_eq!(names(svc_doc), vec!["Unit", "Service"]);
    assert_eq!(svc_doc.get("Unit").unwrap(), section(&[("Description", "A")]));
    let svc = svc_doc.get("Service").unwrap();
    assert_eq!(svc.get("ExecStart").unwrap(), "/bin/x");
    assert_eq!(svc.get("StandardOutput").unwrap(), "journal");
    assert_eq!(svc.get("StandardError").unwrap(), "journal");

    let timer = out.get("mytimer.timer").unwrap();
    assert_eq!(names(timer), vec!["Unit", "Timer", "Install"]);
    assert_eq!(timer.get("Unit").unwrap(), section(&[("Description", "Timer for mytimer")]));
    assert_eq!(
        timer.get("Timer").unwrap(),
        section(&[("OnCalendar", "daily"), ("Unit", "mytimer.service")])
    );
    assert_eq!(timer.get("Install").unwrap(), section(&[("WantedBy", "timers.target")]));
}

#[test]
fn timer_description_is_kept() {
    let mut units = IniFiles::new();
    let mut d = Ini::new();
    d.insert(
        "Timer".to_string(),
        section(&[("OnCalendar", "hourly"), ("Description", "Every hour"), ("Persistent", "true")]),
    );
    units.insert("job".to_string(), d);
    let out = process_systemd(units).unwrap();
    let timer = out.get("job.timer").unwrap();
    assert_eq!(timer.get("Unit").unwrap(), section(&[("Description", "Every hour")]));
    assert_eq!(
        timer.get("Timer").unwrap(),
        section(&[("OnCalendar", "hourly"), ("Persistent", "true"), ("Unit", "job.service")])
    );
    let svc_doc = out.get("job.service").unwrap();
    assert_eq!(names(svc_doc), vec!["Service"]);
    assert_eq!(
        svc_doc.get("Service").unwrap(),
        section(&[("Type", "oneshot"), ("StandardOutput", "journal"), ("StandardError", "journal")])
    );
}

#[test]
fn timer_keeps_existing_type_and_overrides_output() {
    let mut units = IniFiles::new();
    let mut d = Ini::new();
    d.insert(
        "Service".to_string(),
        section(&[("Type", "simple"), ("StandardOutput", "null")]),
    );
    d.insert("Timer".to_string(), section(&[("OnBootSec", "5min")]));
    units.insert("t".to_string(), d);
    let out = process_systemd(units).unwrap();
    let svc = out.get("t.service").unwrap().get("Service").unwrap();
    assert_eq!(
        svc,
        section(&[("Type", "simple"), ("StandardOutput", "journal"), ("StandardError", "journal")])
    );
}

#[test]
fn unit_without_timer_gets_no_type() {
    let mut units = IniFiles::new();
    let mut d = Ini::new();
    d.insert("Unit".to_string(), section(&[("Description", "plain")]));
    d.insert("Install".to_string(), section(&[("WantedBy", "default.target")]));
    units.insert("plain".to_string(), d);
    let out = process_systemd(units).unwrap();
    assert_eq!(out.len(), 1);
    let doc = out.get("plain.service").unwrap();
    assert_eq!(names(doc), vec!["Unit", "Install", "Service"]);
    assert_eq!(
        doc.get("Service").unwrap(),
        section(&[("StandardOutput", "journal"), ("StandardError", "journal")])
    );
    assert!(out.get("plain.timer").is_none());
}

#[test]
fn service_synthesis_is_idempotent() {
    let mut d = Ini::new();
    d.insert("Unit".to_string(), section(&[("Description", "x")]));
    d.insert("Service".to_string(), section(&[("ExecStart", "/bin/true")]));
    let (once, timer) = service_unit(&d);
    assert!(timer.is_none());
    let (twice, _) = service_unit(&once);
    assert_eq!(names(&once), names(&twice));
    for name in names(&once) {
        assert_eq!(once.get(&name).unwrap(), twice.get(&name).unwrap());
    }
}

#[test]
fn empty_unit_set_is_rejected() {
    let units = IniFiles::new();
    assert_eq!(process_systemd(units).unwrap_err(), SystemdError::EmptyUnitSet);
}

#[test]
fn reserved_unit_name_is_rejected() {
    let mut units = IniFiles::new();
    units.insert("foo.service".to_string(), Ini::new());
    assert_eq!(
        process_systemd(units).unwrap_err(),
        SystemdError::ReservedName("foo.service".to_string())
    );
}

#[test]
fn several_units_are_synthesized_in_order() {
    let mut units = IniFiles::new();
    let mut a = Ini::new();
    a.insert("Timer".to_string(), section(&[("OnCalendar", "daily")]));
    units.insert("a".to_string(), a);
    units.insert("b".to_string(), Ini::new());
    let out = process_systemd(units).unwrap();
    let order: Vec<String> = out.0.iter().map(|(n, _)| n.clone()).collect();
    assert_eq!(order, vec!["a.service", "a.timer", "b.service"]);
}

#[test]
fn inserting_a_unit_twice_replaces_it() {
    let mut units = IniFiles::new();
    assert!(units.insert("x".to_string(), Ini::new()).is_none());
    let mut d = Ini::new();
    d.insert("Unit".to_string(), Section::new());
    assert!(units.insert("x".to_string(), d).is_some());
    assert_eq!(units.len(), 1);
    assert_eq!(units.get("x").unwrap().len(), 1);
}
