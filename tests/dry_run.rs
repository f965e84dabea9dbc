use push_backup::git::{dry_run_command, PushOptions, RetryConfig};
use push_backup::run::{start_run, RunConfig, RunStart};
use push_backup::targets::{PushTarget, SetupError};

fn targets() -> Vec<PushTarget> {
    vec![
        PushTarget { url: "https://a/r.git".to_string(), display_name: "A".to_string() },
        PushTarget { url: "git@b:r.git".to_string(), display_name: "B".to_string() },
    ]
}

fn preview(run: &RunConfig, opts: &PushOptions) -> Vec<String> {
    match start_run(run, targets(), "main", opts) {
        Ok(RunStart::Preview(lines)) => lines,
        _ => panic!("a dry run must preview"),
    }
}

#[test]
fn dry_run_text_ignores_retry_policy() {
    let opts = PushOptions {
        force: true,
        force_with_lease: false,
        set_upstream: true,
        tags: false,
        extra_args: vec!["--no-verify".to_string()],
    };
    let a = RunConfig {
        dry_run: true,
        skip_probe: false,
        retry: RetryConfig { max_retries: 0, delay_ms: 0, timeout_secs: 0 },
    };
    let b = RunConfig {
        dry_run: true,
        skip_probe: true,
        retry: RetryConfig { max_retries: 9, delay_ms: 5000, timeout_secs: 30 },
    };
    let la = preview(&a, &opts);
    assert_eq!(la, preview(&b, &opts));
    assert_eq!(
        la,
        vec![
            "git push --force --set-upstream https://a/r.git main --no-verify".to_string(),
            "git push --force --set-upstream git@b:r.git main --no-verify".to_string(),
        ]
    );
}

#[test]
fn dry_run_command_orders_flags_then_url_branch_then_extra() {
    let opts = PushOptions {
        force: true,
        force_with_lease: true,
        set_upstream: true,
        tags: true,
        extra_args: vec!["-o".to_string(), "ci.skip".to_string()],
    };
    assert_eq!(
        dry_run_command("u", "b", &opts),
        "git push --force --force-with-lease --set-upstream --tags u b -o ci.skip"
    );
    assert_eq!(dry_run_command("u", "b", &PushOptions::new()), "git push u b");
}

#[test]
fn real_run_needs_a_target() {
    let run = RunConfig {
        dry_run: false,
        skip_probe: false,
        retry: RetryConfig { max_retries: 1, delay_ms: 0, timeout_secs: 0 },
    };
    assert!(matches!(
        start_run(&run, vec![], "main", &PushOptions::new()),
        Err(SetupError::NoEligibleTargets)
    ));
    match start_run(&run, targets(), "main", &PushOptions::new()) {
        Ok(RunStart::Execute(o)) => {
            assert_eq!(o.tasks().len(), 2);
            assert_eq!(o.tasks()[1].display_name, "B");
            assert_eq!(o.tasks()[1].attempts, 0);
        }
        _ => panic!("a real run must start"),
    }
    let dry = RunConfig { dry_run: true, ..run };
    assert!(matches!(
        start_run(&dry, vec![], "main", &PushOptions::new()),
        Ok(RunStart::Preview(ref v)) if v.is_empty()
    ));
}
