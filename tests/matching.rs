use push_backup::config::{Config, Remote};
use push_backup::matcher::{match_config_name, match_display_name, unnamed_name};

fn remote(name: &str, base: &str) -> Remote {
    Remote { name: name.to_string(), base: base.to_string(), note: None }
}

fn config(rs: Vec<Remote>) -> Config {
    Config { remotes: rs }
}

#[test]
fn own_base_with_path_resolves_to_its_name() {
    let c = config(vec![
        remote("github", "https://github.com/me"),
        remote("gitlab", "https://gitlab.com/me"),
        remote("gitee", "git@gitee.com:me"),
    ]);
    assert_eq!(match_config_name(&c, "https://github.com/me/x"), "github");
    assert_eq!(match_config_name(&c, "https://gitlab.com/me/x"), "gitlab");
    assert_eq!(match_config_name(&c, "git@gitee.com:me/x"), "gitee");
}

#[test]
fn base_does_not_match_inside_a_path_segment() {
    let c = config(vec![remote("foo", "https://host/foo")]);
    assert_eq!(match_config_name(&c, "https://host/foobar"), "未命名");
    assert_eq!(match_config_name(&c, "https://host/foobar"), unnamed_name());
}

#[test]
fn exact_url_and_separator_ended_bases_match() {
    let c = config(vec![remote("a", "https://host/a"), remote("b", "git@host:")]);
    assert_eq!(match_config_name(&c, "https://host/a"), "a");
    assert_eq!(match_config_name(&c, "git@host:team/repo.git"), "b");
    assert_eq!(match_config_name(&c, "https://host/a:x"), "a");
}

#[test]
fn longest_base_wins_regardless_of_order() {
    let c = config(vec![
        remote("short", "https://host"),
        remote("long", "https://host/team"),
    ]);
    assert_eq!(match_config_name(&c, "https://host/team/repo.git"), "long");
    assert_eq!(match_config_name(&c, "https://host/other/repo.git"), "short");
}

#[test]
fn equal_bases_resolve_to_the_earlier_entry() {
    let c = config(vec![remote("first", "https://h/x"), remote("second", "https://h/x")]);
    assert_eq!(match_config_name(&c, "https://h/x/r"), "first");
}

#[test]
fn no_saved_remote_gives_sentinel() {
    let c = config(vec![]);
    assert_eq!(match_config_name(&c, "https://anything"), "未命名");
}

#[test]
fn display_name_takes_first_clean_match_in_list_order() {
    let rs = vec![remote("short", "https://host"), remote("long", "https://host/team")];
    assert_eq!(match_display_name("https://host/team/r", &rs), "short");
    let sorted = vec![remote("long", "https://host/team"), remote("short", "https://host")];
    assert_eq!(match_display_name("https://host/team/r", &sorted), "long");
    assert_eq!(match_display_name("https://hostname/r", &sorted), "未命名");
}
