//! The retry orchestrator: a state machine that decides, round by round,
//! which targets to attempt, and folds the outcomes of each round back into
//! the task list. The caller performs the probes, pushes and waits it asks
//! for, running the targets of one round concurrently.

use vstd::prelude::*;
use crate::git::RetryConfig;
use crate::targets::{PushTarget, TargetView, targets_view};
use crate::text::opt_view;

verus! {

/// Where a task stands.
#[derive(PartialEq, Eq, Structural, Clone, Copy, Debug)]
pub enum TaskStatus {
    /// Not attempted yet.
    Pending,
    /// Pushed; never attempted again.
    Success,
    /// The last attempt failed.
    Failed,
}

/// The work unit for one target.
pub struct PushTask {
    pub url: String,
    pub display_name: String,
    pub status: TaskStatus,
    pub attempts: u64,
    pub last_error: Option<String>,
}

pub struct TaskView {
    pub url: Seq<char>,
    pub name: Seq<char>,
    pub status: TaskStatus,
    pub attempts: nat,
    pub last_error: Option<Seq<char>>,
}

impl View for PushTask {
    type V = TaskView;

    open spec fn view(&self) -> TaskView {
        TaskView {
            url: self.url@,
            name: self.display_name@,
            status: self.status,
            attempts: self.attempts as nat,
            last_error: opt_view(self.last_error),
        }
    }
}

pub open spec fn tasks_view(ts: Seq<PushTask>) -> Seq<TaskView> {
    ts.map_values(|t: PushTask| t@)
}

/// The outcome of one attempt on one target.
pub enum Attempt {
    Pushed,
    Failed(String),
}

pub enum AttemptView {
    Pushed,
    Failed(Seq<char>),
}

impl View for Attempt {
    type V = AttemptView;

    open spec fn view(&self) -> AttemptView {
        match self {
            Attempt::Pushed => AttemptView::Pushed,
            Attempt::Failed(e) => AttemptView::Failed(e@),
        }
    }
}

pub open spec fn attempts_view(rs: Seq<Attempt>) -> Seq<AttemptView> {
    rs.map_values(|a: Attempt| a@)
}

/// What the availability probe of a target reported.
pub enum ProbeOutcome {
    /// The remote answered.
    Reachable,
    /// The remote could not be listed.
    Unreachable,
    /// The probe itself failed or timed out; the text says how.
    Error(String),
}

pub enum ProbeOutcomeView {
    Reachable,
    Unreachable,
    Error(Seq<char>),
}

impl View for ProbeOutcome {
    type V = ProbeOutcomeView;

    open spec fn view(&self) -> ProbeOutcomeView {
        match self {
            ProbeOutcome::Reachable => ProbeOutcomeView::Reachable,
            ProbeOutcome::Unreachable => ProbeOutcomeView::Unreachable,
            ProbeOutcome::Error(e) => ProbeOutcomeView::Error(e@),
        }
    }
}

/// The attempt's outcome once the probe has answered: `None` when the push
/// should go ahead, the failure to record otherwise.
pub open spec fn probe_verdict(p: ProbeOutcomeView) -> Option<AttemptView> {
    match p {
        ProbeOutcomeView::Reachable => None,
        ProbeOutcomeView::Unreachable => Some(AttemptView::Failed("远程仓库无法访问"@)),
        ProbeOutcomeView::Error(e) => Some(AttemptView::Failed("检查失败: "@ + e)),
    }
}

/// Decides what a probe outcome means for the attempt: go on to push, or
/// record the failure and skip the push this round.
pub fn after_probe(outcome: ProbeOutcome) -> (r: Option<Attempt>)
    ensures
        match r {
            Some(a) => probe_verdict(outcome@) == Some(a@),
            None => probe_verdict(outcome@) is None,
        },
{
    match outcome {
        ProbeOutcome::Reachable => None,
        ProbeOutcome::Unreachable => Some(Attempt::Failed("远程仓库无法访问".to_owned())),
        ProbeOutcome::Error(e) => Some(Attempt::Failed("检查失败: ".to_owned().concat(e.as_str()))),
    }
}

/// Whether a task is attempted in round `round`: a failed task always is,
/// a pending one only in the first round, a pushed one never.
pub open spec fn eligible(t: TaskView, round: nat) -> bool {
    t.status == TaskStatus::Failed || (round == 0 && t.status == TaskStatus::Pending)
}

/// The task after one attempt with outcome `a`.
pub open spec fn attempted(t: TaskView, a: AttemptView) -> TaskView {
    match a {
        AttemptView::Pushed => TaskView {
            status: TaskStatus::Success,
            attempts: t.attempts + 1,
            last_error: None,
            ..t
        },
        AttemptView::Failed(e) => TaskView {
            status: TaskStatus::Failed,
            attempts: t.attempts + 1,
            last_error: Some(e),
            ..t
        },
    }
}

/// The indices below `n`, in increasing order, of the tasks attempted in
/// round `round`.
pub open spec fn eligible_upto(tasks: Seq<TaskView>, round: nat, n: nat) -> Seq<int>
    decreases n,
{
    if n == 0 {
        Seq::empty()
    } else {
        let prev = eligible_upto(tasks, round, (n - 1) as nat);
        if eligible(tasks[n - 1], round) {
            prev.push(n - 1)
        } else {
            prev
        }
    }
}

/// The position of the last occurrence of `i` in `s`, or -1.
pub open spec fn slot_of(s: Seq<int>, i: int) -> int
    decreases s.len(),
{
    if s.len() == 0 {
        -1
    } else if s.last() == i {
        s.len() - 1
    } else {
        slot_of(s.drop_last(), i)
    }
}

/// The state of a run.
pub struct RunModel {
    pub tasks: Seq<TaskView>,
    /// Rounds completed so far.
    pub round: nat,
    pub max_retries: nat,
    pub delay_ms: nat,
    /// Whether targets are probed before they are pushed.
    pub probe: bool,
    /// The tasks of the round under way, in increasing order.
    pub in_flight: Seq<int>,
    /// Whether a round is under way.
    pub open: bool,
}

/// Whether every task has been pushed.
pub open spec fn all_pushed(tasks: Seq<TaskView>) -> bool {
    forall|i: int| 0 <= i < tasks.len() ==> #[trigger] tasks[i].status == TaskStatus::Success
}

/// Whether the run is over: every task pushed, or the retry budget spent.
pub open spec fn is_finished(m: RunModel) -> bool {
    all_pushed(m.tasks) || (m.round > 0 && m.round > m.max_retries)
}

/// The state at the start of a run: one pending, never attempted task per
/// target, in target order.
pub open spec fn initial_model(ts: Seq<TargetView>, policy: RetryConfig, probe: bool) -> RunModel {
    RunModel {
        tasks: ts.map_values(
            |t: TargetView|
                TaskView {
                    url: t.url,
                    name: t.name,
                    status: TaskStatus::Pending,
                    attempts: 0,
                    last_error: None,
                },
        ),
        round: 0,
        max_retries: policy.max_retries as nat,
        delay_ms: policy.delay_ms as nat,
        probe,
        in_flight: Seq::empty(),
        open: false,
    }
}

/// The state once the next round has been decided: unchanged when the run
/// is over, otherwise with the eligible tasks in flight.
pub open spec fn start_round(m: RunModel) -> RunModel {
    if is_finished(m) {
        m
    } else {
        RunModel {
            in_flight: eligible_upto(m.tasks, m.round, m.tasks.len()),
            open: true,
            ..m
        }
    }
}

/// The state after the round under way has completed with outcomes `rs`,
/// the `k`-th outcome belonging to the `k`-th task in flight.
pub open spec fn finish_round(m: RunModel, rs: Seq<AttemptView>) -> RunModel {
    RunModel {
        tasks: Seq::new(
            m.tasks.len(),
            |i: int|
                {
                    let k = slot_of(m.in_flight, i);
                    if k >= 0 {
                        attempted(m.tasks[i], rs[k])
                    } else {
                        m.tasks[i]
                    }
                },
        ),
        round: m.round + 1,
        in_flight: Seq::empty(),
        open: false,
        ..m
    }
}

/// What the caller is asked to do next.
pub enum PlanView {
    Finished,
    Run { wait_ms: nat, probe: bool, targets: Seq<int> },
}

/// The next step of a run: stop, or wait (before every round but the first)
/// and then attempt the eligible tasks.
pub open spec fn plan_of(m: RunModel) -> PlanView {
    if is_finished(m) {
        PlanView::Finished
    } else {
        PlanView::Run {
            wait_ms: if m.round > 0 {
                m.delay_ms
            } else {
                0
            },
            probe: m.probe,
            targets: eligible_upto(m.tasks, m.round, m.tasks.len()),
        }
    }
}

/// The consistency a run keeps between steps.
pub open spec fn model_wf(m: RunModel) -> bool {
    &&& m.round <= m.max_retries + 1
    &&& forall|i: int| 0 <= i < m.tasks.len() ==> #[trigger] m.tasks[i].attempts <= m.round
    &&& forall|i: int|
        0 <= i < m.tasks.len() && #[trigger] m.tasks[i].status != TaskStatus::Pending
            ==> m.tasks[i].attempts >= 1
    &&& !m.open ==> m.in_flight.len() == 0
    &&& m.open ==> !is_finished(m) && m.in_flight == eligible_upto(
        m.tasks,
        m.round,
        m.tasks.len(),
    )
}

/// The next step to take.
pub enum RoundPlan {
    /// The run is over.
    Finished,
    /// Wait `wait_ms` milliseconds, then attempt the tasks at `targets`,
    /// probing each first when `probe` holds, and report the outcomes in the
    /// order of `targets`.
    Run { wait_ms: u64, probe: bool, targets: Vec<usize> },
}

impl View for RoundPlan {
    type V = PlanView;

    open spec fn view(&self) -> PlanView {
        match self {
            RoundPlan::Finished => PlanView::Finished,
            RoundPlan::Run { wait_ms, probe, targets } => PlanView::Run {
                wait_ms: *wait_ms as nat,
                probe: *probe,
                targets: targets@.map_values(|k: usize| k as int),
            },
        }
    }
}

/// A push run in progress.
pub struct Orchestrator {
    tasks: Vec<PushTask>,
    round: u64,
    max_retries: u32,
    delay_ms: u64,
    probe: bool,
    in_flight: Vec<usize>,
    open: bool,
}

impl View for Orchestrator {
    type V = RunModel;

    closed spec fn view(&self) -> RunModel {
        RunModel {
            tasks: tasks_view(self.tasks@),
            round: self.round as nat,
            max_retries: self.max_retries as nat,
            delay_ms: self.delay_ms as nat,
            probe: self.probe,
            in_flight: self.in_flight@.map_values(|k: usize| k as int),
            open: self.open,
        }
    }
}

proof fn lemma_eligible_upto(tasks: Seq<TaskView>, round: nat, n: nat)
    requires
        n <= tasks.len(),
    ensures
        forall|k: int|
            0 <= k < eligible_upto(tasks, round, n).len() ==> 0 <= #[trigger] eligible_upto(
                tasks,
                round,
                n,
            )[k] < n && eligible(tasks[eligible_upto(tasks, round, n)[k]], round),
        forall|k: int, l: int|
            0 <= k < l < eligible_upto(tasks, round, n).len() ==> #[trigger] eligible_upto(
                tasks,
                round,
                n,
            )[k] < #[trigger] eligible_upto(tasks, round, n)[l],
        forall|i: int|
            0 <= i < n && eligible(tasks[i], round) ==> #[trigger] eligible_upto(
                tasks,
                round,
                n,
            ).contains(i),
    decreases n,
{
    if n > 0 {
        lemma_eligible_upto(tasks, round, (n - 1) as nat);
        let prev = eligible_upto(tasks, round, (n - 1) as nat);
        let s = eligible_upto(tasks, round, n);
        if eligible(tasks[n - 1], round) {
            assert(s == prev.push(n - 1));
            assert forall|i: int| 0 <= i < n && eligible(tasks[i], round) implies s.contains(
                i,
            ) by {
                if i < n - 1 {
                    assert(prev.contains(i));
                    let k = choose|k: int| 0 <= k < prev.len() && prev[k] == i;
                    assert(s[k] == i);
                } else {
                    assert(s[s.len() - 1] == i);
                }
            }
        }
    }
}

proof fn lemma_slot_of(s: Seq<int>, i: int)
    ensures
        slot_of(s, i) >= 0 <==> s.contains(i),
        slot_of(s, i) >= 0 ==> slot_of(s, i) < s.len() && s[slot_of(s, i)] == i,
        slot_of(s, i) >= -1,
    decreases s.len(),
{
    if s.len() > 0 {
        lemma_slot_of(s.drop_last(), i);
        if s.last() != i {
            if s.contains(i) {
                let k = choose|k: int| 0 <= k < s.len() && s[k] == i;
                assert(s.drop_last()[k] == i);
            }
        } else {
            assert(s[s.len() - 1] == i);
        }
    }
}

proof fn lemma_slot_of_increasing(s: Seq<int>, k: int)
    requires
        forall|a: int, b: int| 0 <= a < b < s.len() ==> #[trigger] s[a] < #[trigger] s[b],
        0 <= k < s.len(),
    ensures
        slot_of(s, s[k]) == k,
    decreases s.len(),
{
    if k < s.len() - 1 {
        assert(s[k] < s[s.len() - 1]);
        assert(s.drop_last()[k] == s[k]);
        lemma_slot_of_increasing(s.drop_last(), k);
    }
}

impl Orchestrator {
    /// The consistency this run keeps between steps.
    pub closed spec fn wf(&self) -> bool {
        &&& model_wf(self@)
        &&& forall|k: int|
            0 <= k < self.in_flight@.len() ==> #[trigger] self.in_flight@[k] < self.tasks@.len()
    }

    /// Starts a run over `targets` under `policy`, probing each target
    /// before pushing to it when `probe` holds.
    pub fn new(targets: Vec<PushTarget>, policy: &RetryConfig, probe: bool) -> (r: Orchestrator)
        ensures
            r.wf(),
            r@ == initial_model(targets_view(targets@), *policy, probe),
    {
        let ghost ts = targets_view(targets@);
        let ghost init = initial_model(ts, *policy, probe).tasks;
        let mut tasks: Vec<PushTask> = Vec::new();
        let mut i: usize = 0;
        while i < targets.len()
            invariant
                i <= targets.len(),
                ts == targets_view(targets@),
                init == initial_model(ts, *policy, probe).tasks,
                tasks@.len() == i,
                forall|k: int| 0 <= k < i ==> #[trigger] tasks@[k]@ == init[k],
            decreases targets.len() - i,
        {
            let t = &targets[i];
            tasks.push(
                PushTask {
                    url: t.url.clone(),
                    display_name: t.display_name.clone(),
                    status: TaskStatus::Pending,
                    attempts: 0,
                    last_error: None,
                },
            );
            i = i + 1;
        }
        let r = Orchestrator {
            tasks,
            round: 0,
            max_retries: policy.max_retries,
            delay_ms: policy.delay_ms,
            probe,
            in_flight: Vec::new(),
            open: false,
        };
        proof {
            assert(r@.tasks =~= initial_model(ts, *policy, probe).tasks);
            assert(r@.in_flight =~= Seq::<int>::empty());
        }
        r
    }

    /// The tasks, in target order.
    pub fn tasks(&self) -> (r: &Vec<PushTask>)
        ensures
            tasks_view(r@) == self@.tasks,
    {
        &self.tasks
    }

    /// Rounds completed so far.
    pub fn rounds(&self) -> (r: u64)
        ensures
            r == self@.round,
    {
        self.round
    }

    fn finished(&self) -> (r: bool)
        ensures
            r == is_finished(self@),
    {
        if self.round > 0 && self.round > self.max_retries as u64 {
            return true;
        }
        let mut i: usize = 0;
        while i < self.tasks.len()
            invariant
                i <= self.tasks.len(),
                !(self@.round > 0 && self@.round > self@.max_retries),
                forall|k: int| 0 <= k < i ==> #[trigger] self@.tasks[k].status == TaskStatus::Success,
            decreases self.tasks.len() - i,
        {
            if self.tasks[i].status != TaskStatus::Success {
                assert(self@.tasks[i as int].status != TaskStatus::Success);
                return false;
            }
            i = i + 1;
        }
        true
    }

    fn eligible_indices(&self) -> (r: Vec<usize>)
        ensures
            r@.map_values(|k: usize| k as int) == eligible_upto(
                self@.tasks,
                self@.round,
                self@.tasks.len(),
            ),
    {
        let ghost m = self@;
        let mut r: Vec<usize> = Vec::new();
        let mut i: usize = 0;
        while i < self.tasks.len()
            invariant
                i <= self.tasks.len(),
                m == self@,
                r@.map_values(|k: usize| k as int) == eligible_upto(m.tasks, m.round, i as nat),
            decreases self.tasks.len() - i,
        {
            let t = &self.tasks[i];
            let ok = t.status == TaskStatus::Failed || (self.round == 0 && t.status
                == TaskStatus::Pending);
            assert(ok == eligible(m.tasks[i as int], m.round));
            if ok {
                let ghost prev = r@;
                r.push(i);
                proof {
                    assert(r@.map_values(|k: usize| k as int) =~= prev.map_values(
                        |k: usize| k as int,
                    ).push(i as int));
                }
            }
            i = i + 1;
        }
        r
    }

    /// Decides the next step: finish, or open a round over the eligible
    /// tasks.
    pub fn next_round(&mut self) -> (plan: RoundPlan)
        requires
            old(self).wf(),
        ensures
            final(self).wf(),
            final(self)@ == start_round(old(self)@),
            plan@ == plan_of(old(self)@),
    {
        if self.finished() {
            return RoundPlan::Finished;
        }
        let targets = self.eligible_indices();
        proof {
            lemma_eligible_upto(self@.tasks, self@.round, self@.tasks.len());
        }
        let wait_ms = if self.round > 0 {
            self.delay_ms
        } else {
            0
        };
        self.in_flight = targets.clone();
        self.open = true;
        proof {
            assert forall|k: int| 0 <= k < self.in_flight@.len() implies #[trigger] self.in_flight@[k]
                < self.tasks@.len() by {
                assert(self.in_flight@.map_values(|x: usize| x as int)[k] == self.in_flight@[k] as int);
            }
        }
        RoundPlan::Run { wait_ms, probe: self.probe, targets }
    }

    /// Records the outcomes of the round under way, `results[k]` belonging
    /// to the `k`-th target of the plan, and closes the round.
    pub fn complete_round(&mut self, results: Vec<Attempt>)
        requires
            old(self).wf(),
            old(self)@.open,
            results@.len() == old(self)@.in_flight.len(),
        ensures
            final(self).wf(),
            final(self)@ == finish_round(old(self)@, attempts_view(results@)),
    {
        let ghost m = self@;
        let ghost rs = attempts_view(results@);
        let ghost inf = m.in_flight;
        proof {
            lemma_eligible_upto(m.tasks, m.round, m.tasks.len());
        }
        let mut k: usize = 0;
        while k < self.in_flight.len()
            invariant
                m.tasks.len() == self.tasks@.len(),
                inf == self.in_flight@.map_values(|x: usize| x as int),
                inf == eligible_upto(m.tasks, m.round, m.tasks.len()),
                rs == attempts_view(results@),
                results@.len() == inf.len(),
                k <= inf.len(),
                m.round == self.round,
                m.round <= m.max_retries,
                m.max_retries == self.max_retries,
                m.delay_ms == self.delay_ms,
                m.probe == self.probe,
                forall|a: int, b: int| 0 <= a < b < inf.len() ==> #[trigger] inf[a] < #[trigger] inf[b],
                forall|j: int| 0 <= j < inf.len() ==> 0 <= #[trigger] inf[j] < m.tasks.len(),
                forall|i: int|
                    0 <= i < m.tasks.len() ==> #[trigger] tasks_view(self.tasks@)[i] == if 0
                        <= slot_of(inf, i) < k {
                        attempted(m.tasks[i], rs[slot_of(inf, i)])
                    } else {
                        m.tasks[i]
                    },
                forall|i: int| 0 <= i < m.tasks.len() ==> #[trigger] m.tasks[i].attempts <= m.round,
            decreases inf.len() - k,
        {
            let idx = self.in_flight[k];
            proof {
                lemma_slot_of_increasing(inf, k as int);
                assert(inf[k as int] == idx as int);
                assert forall|i: int| 0 <= i < m.tasks.len() && i != idx implies slot_of(inf, i)
                    != k by {
                    lemma_slot_of(inf, i);
                }
                lemma_slot_of(inf, idx as int);
                assert(tasks_view(self.tasks@)[idx as int] == m.tasks[idx as int]);
            }
            let ghost before = self.tasks@;
            let cur = self.tasks[idx].attempts;
            assert(cur as nat == m.tasks[idx as int].attempts);
            assert(m.tasks[idx as int].attempts <= m.round);
            match &results[k] {
                Attempt::Pushed => {
                    self.tasks[idx].status = TaskStatus::Success;
                    self.tasks[idx].last_error = None;
                },
                Attempt::Failed(e) => {
                    self.tasks[idx].status = TaskStatus::Failed;
                    self.tasks[idx].last_error = Some(e.clone());
                },
            }
            self.tasks[idx].attempts = cur + 1;
            proof {
                assert(rs[k as int] == results@[k as int]@);
                assert(self.tasks@[idx as int].url == before[idx as int].url);
                assert(self.tasks@[idx as int].display_name == before[idx as int].display_name);
                assert(tasks_view(self.tasks@)[idx as int] == attempted(
                    m.tasks[idx as int],
                    rs[k as int],
                ));
                assert forall|i: int| 0 <= i < m.tasks.len() implies #[trigger] tasks_view(
                    self.tasks@,
                )[i] == if 0 <= slot_of(inf, i) < k + 1 {
                    attempted(m.tasks[i], rs[slot_of(inf, i)])
                } else {
                    m.tasks[i]
                } by {
                    if i != idx {
                        assert(self.tasks@[i] == before[i]);
                        assert(tasks_view(before)[i] == tasks_view(self.tasks@)[i]);
                    }
                }
            }
            k = k + 1;
        }
        self.round = self.round + 1;
        self.in_flight = Vec::new();
        self.open = false;
        proof {
            assert forall|i: int| 0 <= i < m.tasks.len() implies #[trigger] self@.tasks[i]
                == finish_round(m, rs).tasks[i] by {
                lemma_slot_of(inf, i);
            }
            assert(self@.tasks =~= finish_round(m, rs).tasks);
            assert(self@.in_flight =~= Seq::<int>::empty());
            assert forall|i: int| 0 <= i < self@.tasks.len() implies #[trigger] self@.tasks[i].attempts
                <= self@.round by {
                lemma_slot_of(inf, i);
            }
            assert forall|i: int|
                0 <= i < self@.tasks.len() && #[trigger] self@.tasks[i].status
                    != TaskStatus::Pending implies self@.tasks[i].attempts >= 1 by {
                lemma_slot_of(inf, i);
            }
        }
    }
}

/// The outcomes of the tasks in flight in round `round`, task `i` having
/// outcome `outcome(round, i)`.
pub open spec fn round_outcomes(
    in_flight: Seq<int>,
    round: nat,
    outcome: spec_fn(nat, int) -> AttemptView,
) -> Seq<AttemptView> {
    in_flight.map_values(|i: int| outcome(round, i))
}

/// The state after driving a run through at most `fuel` more rounds, task
/// `i` having outcome `outcome(r, i)` whenever it is attempted in round `r`.
pub open spec fn run_rounds(m: RunModel, outcome: spec_fn(nat, int) -> AttemptView, fuel: nat) -> RunModel
    decreases fuel,
{
    if fuel == 0 || is_finished(m) {
        m
    } else {
        let s = start_round(m);
        run_rounds(
            finish_round(s, round_outcomes(s.in_flight, m.round, outcome)),
            outcome,
            (fuel - 1) as nat,
        )
    }
}

/// Task `i`, starting as `t`, after `r` rounds under `outcome`.
pub open spec fn task_after(
    t: TaskView,
    i: int,
    outcome: spec_fn(nat, int) -> AttemptView,
    r: nat,
) -> TaskView
    decreases r,
{
    if r == 0 {
        t
    } else {
        let prev = task_after(t, i, outcome, (r - 1) as nat);
        if eligible(prev, (r - 1) as nat) {
            attempted(prev, outcome((r - 1) as nat, i))
        } else {
            prev
        }
    }
}

proof fn lemma_one_round(m: RunModel, outcome: spec_fn(nat, int) -> AttemptView)
    requires
        model_wf(m),
        !m.open,
        !is_finished(m),
    ensures
        ({
            let s = start_round(m);
            let m2 = finish_round(s, round_outcomes(s.in_flight, m.round, outcome));
            &&& model_wf(m2)
            &&& !m2.open
            &&& m2.round == m.round + 1
            &&& m2.max_retries == m.max_retries
            &&& m2.tasks.len() == m.tasks.len()
            &&& forall|i: int|
                0 <= i < m.tasks.len() ==> #[trigger] m2.tasks[i] == if eligible(
                    m.tasks[i],
                    m.round,
                ) {
                    attempted(m.tasks[i], outcome(m.round, i))
                } else {
                    m.tasks[i]
                }
        }),
{
    let s = start_round(m);
    let inf = s.in_flight;
    let m2 = finish_round(s, round_outcomes(inf, m.round, outcome));
    lemma_eligible_upto(m.tasks, m.round, m.tasks.len());
    assert forall|i: int| 0 <= i < m.tasks.len() implies #[trigger] m2.tasks[i] == if eligible(
        m.tasks[i],
        m.round,
    ) {
        attempted(m.tasks[i], outcome(m.round, i))
    } else {
        m.tasks[i]
    } by {
        lemma_slot_of(inf, i);
        if eligible(m.tasks[i], m.round) {
            assert(inf.contains(i));
        } else if inf.contains(i) {
            let k = choose|k: int| 0 <= k < inf.len() && inf[k] == i;
            assert(eligible(m.tasks[inf[k]], m.round));
        }
    }
    assert forall|i: int| 0 <= i < m2.tasks.len() implies #[trigger] m2.tasks[i].attempts
        <= m2.round by {
        assert(m.tasks[i].attempts <= m.round);
    }
    assert forall|i: int|
        0 <= i < m2.tasks.len() && #[trigger] m2.tasks[i].status != TaskStatus::Pending implies m2.tasks[i].attempts
        >= 1 by {
        if !eligible(m.tasks[i], m.round) {
            assert(m2.tasks[i] == m.tasks[i]);
        }
    }
}

proof fn lemma_run_rounds(
    t0: Seq<TaskView>,
    m: RunModel,
    outcome: spec_fn(nat, int) -> AttemptView,
    fuel: nat,
)
    requires
        model_wf(m),
        !m.open,
        m.tasks.len() == t0.len(),
        forall|i: int|
            0 <= i < t0.len() ==> #[trigger] m.tasks[i] == task_after(t0[i], i, outcome, m.round),
    ensures
        ({
            let r = run_rounds(m, outcome, fuel);
            &&& model_wf(r)
            &&& r.tasks.len() == t0.len()
            &&& r.max_retries == m.max_retries
            &&& r.round >= m.round
            &&& (fuel > 0 && !is_finished(m) ==> r.round > m.round)
            &&& forall|i: int|
                0 <= i < t0.len() ==> #[trigger] r.tasks[i] == task_after(
                    t0[i],
                    i,
                    outcome,
                    r.round,
                )
            &&& m.round + fuel >= m.max_retries + 1 ==> is_finished(r)
        }),
    decreases fuel,
{
    if fuel > 0 && !is_finished(m) {
        lemma_one_round(m, outcome);
        let s = start_round(m);
        let m2 = finish_round(s, round_outcomes(s.in_flight, m.round, outcome));
        assert forall|i: int| 0 <= i < t0.len() implies #[trigger] m2.tasks[i] == task_after(
            t0[i],
            i,
            outcome,
            m2.round,
        ) by {
            assert(m.tasks[i] == task_after(t0[i], i, outcome, m.round));
        }
        lemma_run_rounds(t0, m2, outcome, (fuel - 1) as nat);
    }
}

proof fn lemma_task_converges(
    t: TaskView,
    i: int,
    outcome: spec_fn(nat, int) -> AttemptView,
    k: nat,
    r: nat,
)
    requires
        t.status == TaskStatus::Pending,
        t.attempts == 0,
        outcome(k, i) is Pushed,
        forall|j: nat| j < k ==> #[trigger] outcome(j, i) is Failed,
    ensures
        r <= k ==> task_after(t, i, outcome, r).status == (if r == 0 {
            TaskStatus::Pending
        } else {
            TaskStatus::Failed
        }) && task_after(t, i, outcome, r).attempts == r,
        r > k ==> task_after(t, i, outcome, r).status == TaskStatus::Success && task_after(
            t,
            i,
            outcome,
            r,
        ).attempts == k + 1,
    decreases r,
{
    if r > 0 {
        lemma_task_converges(t, i, outcome, k, (r - 1) as nat);
        if r - 1 < k {
            assert(outcome((r - 1) as nat, i) is Failed);
        }
    }
}

proof fn lemma_task_exhausted(
    t: TaskView,
    i: int,
    outcome: spec_fn(nat, int) -> AttemptView,
    max: nat,
    r: nat,
)
    requires
        t.status == TaskStatus::Pending,
        t.attempts == 0,
        forall|j: nat| j <= max ==> #[trigger] outcome(j, i) is Failed,
        r <= max + 1,
    ensures
        task_after(t, i, outcome, r).status == (if r == 0 {
            TaskStatus::Pending
        } else {
            TaskStatus::Failed
        }),
        task_after(t, i, outcome, r).attempts == r,
        r > 0 ==> task_after(t, i, outcome, r).last_error == Some(
            outcome((r - 1) as nat, i)->Failed_0,
        ),
    decreases r,
{
    if r > 0 {
        lemma_task_exhausted(t, i, outcome, max, (r - 1) as nat);
        assert(outcome((r - 1) as nat, i) is Failed);
    }
}

proof fn lemma_initial(ts: Seq<TargetView>, policy: RetryConfig, probe: bool, outcome: spec_fn(nat, int) -> AttemptView)
    ensures
        ({
            let m = initial_model(ts, policy, probe);
            &&& model_wf(m)
            &&& !m.open
            &&& m.tasks.len() == ts.len()
            &&& forall|i: int|
                0 <= i < ts.len() ==> #[trigger] m.tasks[i] == task_after(m.tasks[i], i, outcome, 0)
            &&& forall|i: int|
                0 <= i < ts.len() ==> #[trigger] m.tasks[i].status == TaskStatus::Pending
                    && m.tasks[i].attempts == 0
        }),
{
}

/// A run always ends within its retry budget: after at most
/// `max_retries + 1` rounds it is finished, whatever each attempt yields.
pub proof fn law_run_terminates(
    ts: Seq<TargetView>,
    policy: RetryConfig,
    probe: bool,
    outcome: spec_fn(nat, int) -> AttemptView,
)
    ensures
        is_finished(
            run_rounds(initial_model(ts, policy, probe), outcome, policy.max_retries as nat + 1),
        ),
{
    let m = initial_model(ts, policy, probe);
    lemma_initial(ts, policy, probe, outcome);
    lemma_run_rounds(m.tasks, m, outcome, policy.max_retries as nat + 1);
}

/// A target whose attempts fail in every round before round `k` and
/// succeed in round `k`, with `k` within the retry budget, ends the run
/// pushed after exactly `k + 1` attempts.
pub proof fn law_retry_converges(
    ts: Seq<TargetView>,
    policy: RetryConfig,
    probe: bool,
    outcome: spec_fn(nat, int) -> AttemptView,
    i: int,
    k: nat,
)
    requires
        0 <= i < ts.len(),
        k <= policy.max_retries,
        outcome(k, i) is Pushed,
        forall|j: nat| j < k ==> #[trigger] outcome(j, i) is Failed,
    ensures
        ({
            let end = run_rounds(
                initial_model(ts, policy, probe),
                outcome,
                policy.max_retries as nat + 1,
            );
            &&& is_finished(end)
            &&& end.tasks[i].status == TaskStatus::Success
            &&& end.tasks[i].attempts == k + 1
            &&& end.tasks[i].last_error is None
        }),
{
    let m = initial_model(ts, policy, probe);
    lemma_initial(ts, policy, probe, outcome);
    lemma_run_rounds(m.tasks, m, outcome, policy.max_retries as nat + 1);
    let end = run_rounds(m, outcome, policy.max_retries as nat + 1);
    lemma_task_converges(m.tasks[i], i, outcome, k, end.round);
    if end.round <= k {
        assert(end.tasks[i].status != TaskStatus::Success);
        assert(!all_pushed(end.tasks));
    }
    lemma_task_converges(m.tasks[i], i, outcome, k, (k + 1) as nat);
    assert(outcome(k, i) is Pushed);
    lemma_last_push_kept(m.tasks[i], i, outcome, k, end.round);
}

proof fn lemma_last_push_kept(
    t: TaskView,
    i: int,
    outcome: spec_fn(nat, int) -> AttemptView,
    k: nat,
    r: nat,
)
    requires
        t.status == TaskStatus::Pending,
        t.attempts == 0,
        outcome(k, i) is Pushed,
        forall|j: nat| j < k ==> #[trigger] outcome(j, i) is Failed,
        r > k,
    ensures
        task_after(t, i, outcome, r).last_error is None,
    decreases r,
{
    lemma_task_converges(t, i, outcome, k, (r - 1) as nat);
    if r - 1 > k {
        lemma_last_push_kept(t, i, outcome, k, (r - 1) as nat);
    }
}

/// A target whose attempts fail in every round ends the run failed after
/// `max_retries + 1` attempts, carrying the error of its last attempt; the
/// run then stops after exactly `max_retries + 1` rounds.
pub proof fn law_retry_exhausted(
    ts: Seq<TargetView>,
    policy: RetryConfig,
    probe: bool,
    outcome: spec_fn(nat, int) -> AttemptView,
    i: int,
)
    requires
        0 <= i < ts.len(),
        forall|j: nat| j <= policy.max_retries ==> #[trigger] outcome(j, i) is Failed,
    ensures
        ({
            let end = run_rounds(
                initial_model(ts, policy, probe),
                outcome,
                policy.max_retries as nat + 1,
            );
            &&& is_finished(end)
            &&& end.round == policy.max_retries + 1
            &&& end.tasks[i].status == TaskStatus::Failed
            &&& end.tasks[i].attempts == policy.max_retries + 1
            &&& end.tasks[i].last_error == Some(
                outcome(policy.max_retries as nat, i)->Failed_0,
            )
        }),
{
    let m = initial_model(ts, policy, probe);
    let max = policy.max_retries as nat;
    lemma_initial(ts, policy, probe, outcome);
    lemma_run_rounds(m.tasks, m, outcome, max + 1);
    let end = run_rounds(m, outcome, max + 1);
    lemma_task_exhausted(m.tasks[i], i, outcome, max, end.round);
    assert(end.tasks[i].status != TaskStatus::Success);
    assert(!all_pushed(end.tasks));
}

proof fn lemma_attempted_once(t: TaskView, i: int, outcome: spec_fn(nat, int) -> AttemptView, r: nat)
    requires
        t.status == TaskStatus::Pending,
        r >= 1,
    ensures
        task_after(t, i, outcome, r).status != TaskStatus::Pending,
    decreases r,
{
    if r > 1 {
        lemma_attempted_once(t, i, outcome, (r - 1) as nat);
    }
}

/// No task ends a run undecided: when the run is over, every task has been
/// attempted and is either pushed or failed.
pub proof fn law_run_ends_decided(
    ts: Seq<TargetView>,
    policy: RetryConfig,
    probe: bool,
    outcome: spec_fn(nat, int) -> AttemptView,
    i: int,
)
    requires
        0 <= i < ts.len(),
    ensures
        ({
            let end = run_rounds(
                initial_model(ts, policy, probe),
                outcome,
                policy.max_retries as nat + 1,
            );
            &&& end.tasks[i].status != TaskStatus::Pending
            &&& end.tasks[i].attempts >= 1
        }),
{
    let m = initial_model(ts, policy, probe);
    lemma_initial(ts, policy, probe, outcome);
    assert(m.tasks[i].status != TaskStatus::Success);
    assert(!is_finished(m));
    lemma_run_rounds(m.tasks, m, outcome, policy.max_retries as nat + 1);
    let end = run_rounds(m, outcome, policy.max_retries as nat + 1);
    lemma_attempted_once(m.tasks[i], i, outcome, end.round);
}

/// A pushed task is left as it is by every later round.
pub proof fn law_pushed_task_untouched(m: RunModel, rs: Seq<AttemptView>, i: int)
    requires
        model_wf(m),
        m.open,
        0 <= i < m.tasks.len(),
        m.tasks[i].status == TaskStatus::Success,
    ensures
        finish_round(m, rs).tasks[i] == m.tasks[i],
{
    lemma_eligible_upto(m.tasks, m.round, m.tasks.len());
    lemma_slot_of(m.in_flight, i);
    if m.in_flight.contains(i) {
        let k = choose|k: int| 0 <= k < m.in_flight.len() && m.in_flight[k] == i;
        assert(eligible(m.tasks[m.in_flight[k]], m.round));
    }
}

} // verus!
