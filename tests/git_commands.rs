use push_backup::status::{decimal, sync_status_text};
use push_backup::git::{
    ahead_behind_command, current_branch, git_count_ahead_behind, git_remote_names, parse_count,
    push_urls_from_output, remote_commit_from_output, run_git_add_push_url, run_git_add_remote, run_git_get_push_urls,
    run_git_get_remote_url, run_git_push, run_git_remote_remove, set_git_alias, GitError,
    PushOptions,
};

fn s(v: &[&str]) -> Vec<String> {
    v.iter().map(|x| x.to_string()).collect()
}

#[test]
fn push_arguments_put_flags_first_and_extra_args_last() {
    let opts = PushOptions {
        force: false,
        force_with_lease: true,
        set_upstream: false,
        tags: true,
        extra_args: s(&["--force", "--atomic"]),
    };
    assert_eq!(
        run_git_push("https://h/r.git", "dev", &opts),
        s(&["push", "--force-with-lease", "--tags", "https://h/r.git", "dev", "--force", "--atomic"])
    );
    assert_eq!(run_git_push("u", "b", &PushOptions::new()), s(&["push", "u", "b"]));
}

#[test]
fn remote_commands() {
    assert_eq!(run_git_add_remote("yewpb", "u"), s(&["remote", "add", "yewpb", "u"]));
    assert_eq!(run_git_remote_remove("old"), s(&["remote", "remove", "old"]));
    assert_eq!(
        run_git_add_push_url("yewpb", "u"),
        s(&["remote", "set-url", "--add", "--push", "yewpb", "u"])
    );
    assert_eq!(run_git_get_remote_url("origin"), s(&["remote", "get-url", "origin"]));
    assert_eq!(
        run_git_get_push_urls("yewpb"),
        s(&["remote", "get-url", "--all", "--push", "yewpb"])
    );
    assert_eq!(set_git_alias("pb", "!yewpb"), s(&["config", "--global", "alias.pb", "!yewpb"]));
    assert_eq!(
        ahead_behind_command("abc123"),
        s(&["rev-list", "--left-right", "--count", "HEAD...abc123"])
    );
}

#[test]
fn detached_head_is_refused() {
    assert!(matches!(current_branch("HEAD".to_string()), Err(GitError::DetachedHead)));
    assert!(matches!(current_branch("main".to_string()), Ok(ref b) if b == "main"));
}

#[test]
fn remote_names_are_trimmed_distinct_and_non_empty() {
    let names = git_remote_names("origin\n  yewpb \n\norigin\r\nmirror");
    assert_eq!(names, s(&["origin", "yewpb", "mirror"]));
    assert!(git_remote_names("").is_empty());
}

#[test]
fn push_urls_are_the_lines() {
    assert_eq!(push_urls_from_output("a\nb\r\nc"), s(&["a", "b", "c"]));
    assert!(push_urls_from_output("").is_empty());
}

#[test]
fn ahead_behind_counts() {
    assert_eq!(git_count_ahead_behind("3\t5"), (3, 5));
    assert_eq!(git_count_ahead_behind("  12   0\n"), (12, 0));
    assert_eq!(git_count_ahead_behind("x 2"), (0, 2));
    assert_eq!(git_count_ahead_behind("7"), (7, 0));
    assert_eq!(git_count_ahead_behind(""), (0, 0));
}

#[test]
fn counts_read_like_usize_from_str() {
    assert_eq!(parse_count("+7"), Some(7));
    assert_eq!(parse_count("0042"), Some(42));
    assert_eq!(parse_count("18446744073709551615"), Some(18446744073709551615));
    assert_eq!(parse_count("18446744073709551616"), None);
    assert_eq!(parse_count("+"), None);
    assert_eq!(parse_count("-1"), None);
    assert_eq!(parse_count(""), None);
    assert_eq!(parse_count("1a"), None);
    for w in ["+7", "0042", "99", "+", "-1", "", "1a", "18446744073709551616"] {
        assert_eq!(parse_count(w), w.parse::<usize>().ok());
    }
}

#[test]
fn sync_status_lines() {
    assert_eq!(sync_status_text(0, 0), "✓ 已同步");
    assert_eq!(sync_status_text(3, 0), "↑3 ↓0 (领先 3 个提交)");
    assert_eq!(sync_status_text(0, 12), "↑0 ↓12 (落后 12 个提交)");
    assert_eq!(sync_status_text(1, 205), "↑1 ↓205 (领先 1 个提交, 落后 205 个提交)");
    assert_eq!(decimal(0), "0");
    assert_eq!(decimal(1020), "1020");
    assert_eq!(decimal(usize::MAX), usize::MAX.to_string());
}

#[test]
fn remote_commit_is_first_word() {
    assert_eq!(
        remote_commit_from_output("9fceb02d0ae598e95dc970b74767f19372d61af8\trefs/heads/main\n").as_deref(),
        Some("9fceb02d0ae598e95dc970b74767f19372d61af8")
    );
    assert_eq!(remote_commit_from_output("  \n"), None);
}
