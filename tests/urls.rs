use push_backup::apply::{apply_plan, repo_name_from_url, AGGREGATE_REMOTE};
use push_backup::config::{Config, Remote};
use push_backup::utils::build_remote_url;

#[test]
fn remote_url_joins_base_and_repo_with_one_git_suffix() {
    assert_eq!(build_remote_url("https://github.com/me", "repo"), "https://github.com/me/repo.git");
    assert_eq!(build_remote_url("https://github.com/me/", " /repo.git/ "), "https://github.com/me/repo.git");
    assert_eq!(build_remote_url("git@github.com:", "me/repo"), "git@github.com:me/repo.git");
    assert_eq!(build_remote_url("git@host:team", "//r//"), "git@host:team/r.git");
    assert_eq!(build_remote_url("https://h", "r.git.git"), "https://h/r.git");
}

#[test]
fn repo_names_from_urls() {
    assert_eq!(repo_name_from_url(" https://github.com/me/tool.git\n").as_deref(), Some("tool"));
    assert_eq!(repo_name_from_url("git@host:me/tool").as_deref(), Some("tool"));
    assert_eq!(repo_name_from_url("tool").as_deref(), Some("tool"));
    assert_eq!(repo_name_from_url("https://host/"), None);
    assert_eq!(repo_name_from_url(""), None);
}

#[test]
fn apply_plan_drops_stale_remotes_and_lists_mirrors() {
    let c = Config {
        remotes: vec![
            Remote { name: "gh".to_string(), base: "https://github.com/me".to_string(), note: None },
            Remote { name: "gl".to_string(), base: "git@gitlab.com:me".to_string(), note: None },
        ],
    };
    let existing = vec!["origin".to_string(), "gl".to_string(), AGGREGATE_REMOTE.to_string()];
    let p = apply_plan(&c, &existing, "tool");
    assert_eq!(p.remove, vec!["gl".to_string(), "yewpb".to_string()]);
    assert_eq!(p.mirrors.len(), 2);
    assert_eq!(p.mirrors[0].name, "gh");
    assert_eq!(p.mirrors[0].url, "https://github.com/me/tool.git");
    assert_eq!(p.mirrors[1].url, "git@gitlab.com:me/tool.git");
    let fresh = apply_plan(&c, &vec![], "tool");
    assert!(fresh.remove.is_empty());
}
