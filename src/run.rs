//! The entry point of a push run: a dry run lists the commands it would
//! issue; a real run hands over to the orchestrator.

use vstd::prelude::*;
use crate::engine::{Orchestrator, RunModel, initial_model};
use crate::git::{PushOptions, PushOptionsView, RetryConfig, dry_run_command, dry_run_text};
use crate::targets::{PushTarget, SetupError, TargetView, targets_view};
use crate::text::views;

verus! {

/// How a push run is carried out.
pub struct RunConfig {
    /// Only show the commands; probe nothing, push nothing.
    pub dry_run: bool,
    /// Push without probing the remote first.
    pub skip_probe: bool,
    pub retry: RetryConfig,
}

/// How a run begins.
pub enum RunStart {
    /// A dry run: the command line for each target, in target order.
    Preview(Vec<String>),
    /// A real run, in its initial state.
    Execute(Orchestrator),
}

pub enum StartView {
    Preview(Seq<Seq<char>>),
    Execute(RunModel),
}

impl View for RunStart {
    type V = StartView;

    open spec fn view(&self) -> StartView {
        match self {
            RunStart::Preview(lines) => StartView::Preview(views(lines@)),
            RunStart::Execute(o) => StartView::Execute(o@),
        }
    }
}

/// The command lines a dry run shows, one per target.
pub open spec fn preview_of(ts: Seq<TargetView>, branch: Seq<char>, o: PushOptionsView) -> Seq<
    Seq<char>,
> {
    ts.map_values(|t: TargetView| dry_run_text(t.url, branch, o))
}

/// How a run over `ts` begins under `run`: a dry run previews every target
/// (there may be none); a real run needs at least one target.
pub open spec fn start_outcome(
    run: RunConfig,
    ts: Seq<TargetView>,
    branch: Seq<char>,
    o: PushOptionsView,
) -> Result<StartView, SetupError> {
    if run.dry_run {
        Ok(StartView::Preview(preview_of(ts, branch, o)))
    } else if ts.len() == 0 {
        Err(SetupError::NoEligibleTargets)
    } else {
        Ok(StartView::Execute(initial_model(ts, run.retry, !run.skip_probe)))
    }
}

/// Begins a push run of `branch` over `targets`.
pub fn start_run(run: &RunConfig, targets: Vec<PushTarget>, branch: &str, options: &PushOptions) -> (r:
    Result<RunStart, SetupError>)
    ensures
        match r {
            Ok(s) => {
                &&& start_outcome(*run, targets_view(targets@), branch@, options@) == Ok::<
                    StartView,
                    SetupError,
                >(s@)
                &&& (s matches RunStart::Execute(o) ==> o.wf())
            },
            Err(e) => start_outcome(*run, targets_view(targets@), branch@, options@) == Err::<
                StartView,
                SetupError,
            >(e),
        },
{
    if run.dry_run {
        let ghost ts = targets_view(targets@);
        let mut lines: Vec<String> = Vec::new();
        let mut i: usize = 0;
        while i < targets.len()
            invariant
                i <= targets.len(),
                ts == targets_view(targets@),
                views(lines@) == preview_of(ts.subrange(0, i as int), branch@, options@),
            decreases targets.len() - i,
        {
            let line = dry_run_command(targets[i].url.as_str(), branch, options);
            let ghost prev = lines@;
            lines.push(line);
            proof {
                assert(views(lines@) =~= views(prev).push(line@));
                assert(preview_of(ts.subrange(0, i + 1), branch@, options@) =~= preview_of(
                    ts.subrange(0, i as int),
                    branch@,
                    options@,
                ).push(dry_run_text(ts[i as int].url, branch@, options@)));
            }
            i = i + 1;
        }
        proof {
            assert(ts.subrange(0, targets.len() as int) =~= ts);
        }
        return Ok(RunStart::Preview(lines));
    }
    if targets.len() == 0 {
        return Err(SetupError::NoEligibleTargets);
    }
    Ok(RunStart::Execute(Orchestrator::new(targets, &run.retry, !run.skip_probe)))
}

/// A dry run shows the same command lines whatever the retry policy and
/// the probe setting, and starts no run, so no task exists whose status
/// could change.
pub proof fn law_dry_run_ignores_policy(
    a: RunConfig,
    b: RunConfig,
    ts: Seq<TargetView>,
    branch: Seq<char>,
    o: PushOptionsView,
)
    requires
        a.dry_run,
        b.dry_run,
    ensures
        start_outcome(a, ts, branch, o) == start_outcome(b, ts, branch, o),
        start_outcome(a, ts, branch, o) == Ok::<StartView, SetupError>(
            StartView::Preview(preview_of(ts, branch, o)),
        ),
{
}

} // verus!
