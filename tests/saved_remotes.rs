use push_backup::config::{truncate_note, Config, Remote};

fn remote(name: &str, base: &str, note: Option<&str>) -> Remote {
    Remote { name: name.to_string(), base: base.to_string(), note: note.map(|n| n.to_string()) }
}

#[test]
fn set_remote_updates_first_match_or_appends() {
    let mut c = Config::new();
    assert!(!c.set_remote("gh".to_string(), "https://github.com/a".to_string(), Some("main".to_string())));
    assert!(!c.set_remote("gl".to_string(), "https://gitlab.com/a".to_string(), None));
    assert!(c.set_remote("gh".to_string(), "https://github.com/b".to_string(), None));
    assert_eq!(c.remotes.len(), 2);
    assert_eq!(c.remotes[0].base, "https://github.com/b");
    assert_eq!(c.remotes[0].note.as_deref(), Some("main"));
    assert!(c.set_remote("gh".to_string(), "x".to_string(), Some("new".to_string())));
    assert_eq!(c.remotes[0].note.as_deref(), Some("new"));
    assert_eq!(c.position(&"gl".to_string()), Some(1));
    assert_eq!(c.position(&"zz".to_string()), None);
}

#[test]
fn remove_remote_drops_all_of_that_name() {
    let mut c = Config {
        remotes: vec![remote("a", "1", None), remote("b", "2", None), remote("a", "3", None)],
    };
    assert!(c.remove_remote(&"a".to_string()));
    assert_eq!(c.remotes.len(), 1);
    assert_eq!(c.remotes[0].name, "b");
    assert!(!c.remove_remote(&"a".to_string()));
}

#[test]
fn import_counts_added_and_updated() {
    let mut c = Config { remotes: vec![remote("a", "old", Some("keep"))] };
    let imported = vec![remote("a", "new", Some("drop")), remote("b", "2", None), remote("b", "3", None)];
    assert_eq!(c.import_remotes(&imported), (1, 2));
    assert_eq!(c.remotes.len(), 2);
    assert_eq!(c.remotes[0].base, "new");
    assert_eq!(c.remotes[0].note.as_deref(), Some("keep"));
    assert_eq!(c.remotes[1].base, "3");
}

#[test]
fn notes_are_cut_by_characters() {
    assert_eq!(truncate_note("short", 20), "short");
    assert_eq!(truncate_note("abcdef", 3), "abc...");
    assert_eq!(truncate_note("备注很长的一段文字", 4), "备注很长...");
    assert_eq!(truncate_note("", 0), "");
}
