use push_backup::alias::{alias_install_step, alias_name, alias_value, is_own_alias, AliasStep};
use push_backup::hook::{
    get_hook_section, has_valid_shebang, install_content, is_push_backup_hook, remove_hook_section,
    uninstall_content, HookError, HOOK_END_MARKER, HOOK_START_MARKER,
};

fn section() -> String {
    get_hook_section("\n  yewpb push\n")
}

#[test]
fn section_is_framed_by_markers() {
    assert_eq!(section(), format!("{}\nyewpb push\n{}", HOOK_START_MARKER, HOOK_END_MARKER));
}

#[test]
fn removing_section_keeps_other_lines() {
    let script = format!("#!/bin/sh\necho a\n{}\nyewpb push\n{}\necho b\n", HOOK_START_MARKER, HOOK_END_MARKER);
    assert_eq!(remove_hook_section(&script), "#!/bin/sh\necho a\necho b");
    assert_eq!(remove_hook_section("plain"), "plain");
    assert_eq!(remove_hook_section(""), "");
}

#[test]
fn install_into_new_and_foreign_hooks() {
    let sec = section();
    assert_eq!(install_content(None, &sec), format!("#!/bin/sh\n\n{}", sec));
    assert_eq!(
        install_content(Some("#!/bin/bash\necho hi\n"), &sec),
        format!("#!/bin/bash\necho hi\n\n{}", sec)
    );
    assert_eq!(install_content(Some("echo hi"), &sec), format!("#!/bin/sh\n\necho hi\n\n{}", sec));
}

#[test]
fn reinstall_replaces_own_section() {
    let sec = section();
    let only_ours = format!("#!/bin/sh\n\n{}", sec);
    assert_eq!(install_content(Some(&only_ours), &sec), only_ours);
    let mixed = format!("echo first\n{}\n", sec);
    assert_eq!(install_content(Some(&mixed), &sec), format!("#!/bin/sh\n\necho first\n\n{}", sec));
}

#[test]
fn uninstall_outcomes() {
    let sec = section();
    assert!(matches!(uninstall_content("echo hi"), Err(HookError::NotOurs)));
    assert!(matches!(uninstall_content(&format!("#!/bin/sh\n\n{}", sec)), Ok(Some(ref t)) if t == "#!/bin/sh\n"));
    assert!(matches!(uninstall_content(&sec), Ok(None)));
}

#[test]
fn hook_checks() {
    assert!(has_valid_shebang("#!/bin/sh"));
    assert!(!has_valid_shebang(" #!/bin/sh"));
    assert!(is_push_backup_hook(&section()));
    assert!(!is_push_backup_hook("echo"));
}

#[test]
fn alias_values() {
    assert_eq!(alias_value(Some("/usr/bin/yewpb".to_string()), false), "!/usr/bin/yewpb");
    assert_eq!(
        alias_value(Some("C:\\Program Files\\yewpb.exe".to_string()), true),
        "!\"C:/Program Files/yewpb.exe\""
    );
    assert_eq!(alias_value(None, false), "!yewpb");
    assert!(is_own_alias("!/usr/bin/yewpb"));
    assert!(!is_own_alias("!git status"));
    assert_eq!(alias_name(None), "pb");
    assert_eq!(alias_name(Some("up".to_string())), "up");
}

#[test]
fn alias_install_steps() {
    let want = "!yewpb".to_string();
    assert_eq!(alias_install_step(&None, &want), AliasStep::Create);
    assert_eq!(alias_install_step(&Some("!yewpb".to_string()), &want), AliasStep::UpToDate);
    assert_eq!(alias_install_step(&Some("!other".to_string()), &want), AliasStep::Replace);
}
