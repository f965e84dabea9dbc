use push_backup::config::{Config, Remote};
use push_backup::targets::{build_targets, prepare_targets, should_push, PushTarget, SetupError};

fn cfg() -> Config {
    Config {
        remotes: vec![
            Remote { name: "A".to_string(), base: "https://a.example".to_string(), note: None },
            Remote { name: "B".to_string(), base: "https://b.example".to_string(), note: None },
        ],
    }
}

fn urls() -> Vec<String> {
    vec![
        "https://a.example/r.git".to_string(),
        "https://b.example/r.git".to_string(),
        "https://c.example/r.git".to_string(),
    ]
}

fn names(ts: &[PushTarget]) -> Vec<String> {
    ts.iter().map(|t| t.display_name.clone()).collect()
}

fn s(v: &[&str]) -> Vec<String> {
    v.iter().map(|x| x.to_string()).collect()
}

#[test]
fn only_keeps_exactly_the_named_target() {
    let ts = build_targets(&urls(), &cfg(), &s(&["A"]), &s(&[]));
    assert_eq!(names(&ts), s(&["A"]));
    assert_eq!(ts[0].url, "https://a.example/r.git");
}

#[test]
fn except_drops_the_named_target_and_keeps_unnamed() {
    let ts = build_targets(&urls(), &cfg(), &s(&[]), &s(&["B"]));
    assert_eq!(names(&ts), s(&["A", "未命名"]));
}

#[test]
fn only_and_except_on_same_name_leave_nothing() {
    let ts = build_targets(&urls(), &cfg(), &s(&["A"]), &s(&["A"]));
    assert!(ts.is_empty());
}

#[test]
fn no_filters_keep_everything_in_order() {
    let ts = build_targets(&urls(), &cfg(), &s(&[]), &s(&[]));
    assert_eq!(names(&ts), s(&["A", "B", "未命名"]));
}

#[test]
fn only_never_keeps_unnamed_targets() {
    assert!(!should_push(&"未命名".to_string(), &s(&["未命名"]), &s(&[])));
    assert!(should_push(&"未命名".to_string(), &s(&[]), &s(&["未命名"])));
}

#[test]
fn setup_errors() {
    assert!(matches!(
        prepare_targets(false, &urls(), &cfg(), &s(&[]), &s(&[])),
        Err(SetupError::NoAggregateRemote)
    ));
    assert!(matches!(
        prepare_targets(true, &vec![], &cfg(), &s(&[]), &s(&[])),
        Err(SetupError::NoPushUrls)
    ));
    match prepare_targets(true, &urls(), &cfg(), &s(&["Z"]), &s(&[])) {
        Ok(ts) => assert!(ts.is_empty()),
        Err(_) => panic!("expected an empty target list"),
    }
}
