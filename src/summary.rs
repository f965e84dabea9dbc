//! The report at the end of a run.

use vstd::prelude::*;
use crate::engine::{PushTask, TaskStatus, TaskView, tasks_view};

verus! {

/// A target that was pushed only after retrying.
pub struct RetriedEntry {
    pub name: String,
    pub attempts: u64,
}

/// A target that was not pushed.
pub struct FailureEntry {
    pub name: String,
    pub attempts: u64,
    pub error: String,
}

impl View for RetriedEntry {
    type V = (Seq<char>, nat);

    open spec fn view(&self) -> (Seq<char>, nat) {
        (self.name@, self.attempts as nat)
    }
}

impl View for FailureEntry {
    type V = (Seq<char>, nat, Seq<char>);

    open spec fn view(&self) -> (Seq<char>, nat, Seq<char>) {
        (self.name@, self.attempts as nat, self.error@)
    }
}

/// The outcome of a run: how many targets were pushed and how many were
/// not, which pushed targets needed more than one attempt, and why each
/// other target failed. Entries keep the task order.
pub struct Summary {
    pub succeeded: usize,
    pub failed: usize,
    pub retried: Vec<RetriedEntry>,
    pub failures: Vec<FailureEntry>,
}

/// The text shown for a failed task's error.
pub open spec fn error_text(e: Option<Seq<char>>) -> Seq<char> {
    match e {
        Some(x) => x,
        None => "未知错误"@,
    }
}

pub open spec fn pushed(ts: Seq<TaskView>) -> Seq<TaskView> {
    ts.filter(|t: TaskView| t.status == TaskStatus::Success)
}

pub open spec fn not_pushed(ts: Seq<TaskView>) -> Seq<TaskView> {
    ts.filter(|t: TaskView| t.status != TaskStatus::Success)
}

/// The pushed tasks that took more than one attempt, with their attempts.
pub open spec fn retried_of(ts: Seq<TaskView>) -> Seq<(Seq<char>, nat)> {
    ts.filter(|t: TaskView| t.status == TaskStatus::Success && t.attempts > 1).map_values(
        |t: TaskView| (t.name, t.attempts),
    )
}

/// The tasks not pushed, with their attempts and error text.
pub open spec fn failures_of(ts: Seq<TaskView>) -> Seq<(Seq<char>, nat, Seq<char>)> {
    not_pushed(ts).map_values(|t: TaskView| (t.name, t.attempts, error_text(t.last_error)))
}

fn unknown_error() -> (r: String)
    ensures
        r@ == "未知错误"@,
{
    "未知错误".to_owned()
}

/// Partitions the final tasks into pushed and not pushed, and lists the
/// retried successes and the failures.
pub fn summarize(tasks: &Vec<PushTask>) -> (r: Summary)
    ensures
        r.succeeded == pushed(tasks_view(tasks@)).len(),
        r.failed == not_pushed(tasks_view(tasks@)).len(),
        r.retried@.map_values(|e: RetriedEntry| e@) == retried_of(tasks_view(tasks@)),
        r.failures@.map_values(|e: FailureEntry| e@) == failures_of(tasks_view(tasks@)),
{
    let ghost ts = tasks_view(tasks@);
    let ghost p_ok = |t: TaskView| t.status == TaskStatus::Success;
    let ghost p_bad = |t: TaskView| t.status != TaskStatus::Success;
    let ghost p_retried = |t: TaskView| t.status == TaskStatus::Success && t.attempts > 1;
    let ghost f_retried = |t: TaskView| (t.name, t.attempts);
    let ghost f_fail = |t: TaskView| (t.name, t.attempts, error_text(t.last_error));
    let mut succeeded: usize = 0;
    let mut failed: usize = 0;
    let mut retried: Vec<RetriedEntry> = Vec::new();
    let mut failures: Vec<FailureEntry> = Vec::new();
    let mut i: usize = 0;
    while i < tasks.len()
        invariant
            i <= tasks.len(),
            ts == tasks_view(tasks@),
            p_ok == (|t: TaskView| t.status == TaskStatus::Success),
            p_bad == (|t: TaskView| t.status != TaskStatus::Success),
            p_retried == (|t: TaskView| t.status == TaskStatus::Success && t.attempts > 1),
            f_retried == (|t: TaskView| (t.name, t.attempts)),
            f_fail == (|t: TaskView| (t.name, t.attempts, error_text(t.last_error))),
            succeeded == ts.subrange(0, i as int).filter(p_ok).len(),
            failed == ts.subrange(0, i as int).filter(p_bad).len(),
            retried@.map_values(|e: RetriedEntry| e@) == ts.subrange(0, i as int).filter(
                p_retried,
            ).map_values(f_retried),
            failures@.map_values(|e: FailureEntry| e@) == ts.subrange(0, i as int).filter(
                p_bad,
            ).map_values(f_fail),
        decreases tasks.len() - i,
    {
        let t = &tasks[i];
        let ghost pre = ts.subrange(0, i as int);
        let ghost cur = ts.subrange(0, i + 1);
        proof {
            reveal(Seq::filter);
            assert(cur.drop_last() =~= pre);
            assert(cur.last() == t@);
            pre.lemma_filter_len(p_ok);
            pre.lemma_filter_len(p_bad);
            assert(pre.filter(p_ok).len() <= i);
            assert(pre.filter(p_bad).len() <= i);
        }
        if t.status == TaskStatus::Success {
            succeeded = succeeded + 1;
            if t.attempts > 1 {
                let e = RetriedEntry { name: t.display_name.clone(), attempts: t.attempts };
                let ghost prev = retried@;
                retried.push(e);
                proof {
                    assert(retried@.map_values(|e: RetriedEntry| e@) =~= prev.map_values(
                        |e: RetriedEntry| e@,
                    ).push(e@));
                    assert(cur.filter(p_retried) == pre.filter(p_retried).push(t@));
                    assert(cur.filter(p_retried).map_values(f_retried) =~= pre.filter(
                        p_retried,
                    ).map_values(f_retried).push(f_retried(t@)));
                }
            } else {
                assert(cur.filter(p_retried) == pre.filter(p_retried));
            }
            assert(cur.filter(p_bad) == pre.filter(p_bad));
        } else {
            failed = failed + 1;
            let error = match &t.last_error {
                Some(e) => e.clone(),
                None => unknown_error(),
            };
            let e = FailureEntry { name: t.display_name.clone(), attempts: t.attempts, error };
            let ghost prev = failures@;
            failures.push(e);
            proof {
                assert(failures@.map_values(|e: FailureEntry| e@) =~= prev.map_values(
                    |e: FailureEntry| e@,
                ).push(e@));
                assert(cur.filter(p_bad) == pre.filter(p_bad).push(t@));
                assert(cur.filter(p_bad).map_values(f_fail) =~= pre.filter(p_bad).map_values(
                    f_fail,
                ).push(f_fail(t@)));
                assert(cur.filter(p_retried) == pre.filter(p_retried));
            }
            assert(cur.filter(p_ok) == pre.filter(p_ok));
        }
        i = i + 1;
    }
    proof {
        assert(ts.subrange(0, tasks.len() as int) =~= ts);
    }
    Summary { succeeded, failed, retried, failures }
}

/// The report partitions the tasks: each one counts as pushed or as not
/// pushed, never both.
pub proof fn law_summary_partitions(ts: Seq<TaskView>)
    ensures
        pushed(ts).len() + not_pushed(ts).len() == ts.len(),
    decreases ts.len(),
{
    reveal(Seq::filter);
    if ts.len() > 0 {
        law_summary_partitions(ts.drop_last());
    }
}

} // verus!
