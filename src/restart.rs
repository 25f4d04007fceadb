use vstd::prelude::*;

verus! {

/// What one invocation of the single-shot engine reported.
#[derive(Clone, Copy, Debug)]
pub enum Report<E> {
    /// The arm now holds a solution.
    Converged,
    /// The engine gave up on this seed; the payload carries its residuals.
    NotConverged(E),
    /// Malformed input, such as a configuration of the wrong length.
    Malformed(E),
}

/// What the driver of a solve does next.
#[derive(Clone, Copy, Debug)]
pub enum Step<E> {
    /// Invoke the engine on the arm as it stands.
    Attempt,
    /// Draw a fresh configuration (see `restart_configuration`), force-set the
    /// arm to it without validation, then invoke the engine.
    Reseed,
    /// Stop with success: the arm keeps the configuration the engine found.
    Accept,
    /// Stop with this convergence failure after restoring the arm to the
    /// configuration it had before the solve.
    GiveUp(E),
    /// Stop at once with this structural error; no retry is spent on it.
    Abort(E),
}

/// Solves by invoking `solver` up to `num_max_try` times, reseeding the arm at
/// random between attempts.
pub struct RandomInitializeIkSolver<I> {
    /// The single-shot engine invoked on each attempt.
    pub solver: I,
    /// The number of attempts allowed.
    pub num_max_try: usize,
}

/// The step that follows attempt `try_idx` (counted from zero) of a solve
/// allowed `num_max_try` attempts, when the engine reported `report`.
pub open spec fn decide<E>(num_max_try: nat, try_idx: nat, report: Report<E>) -> Step<E> {
    match report {
        Report::Converged => Step::Accept,
        Report::Malformed(e) => Step::Abort(e),
        Report::NotConverged(e) => if try_idx + 1 < num_max_try {
            Step::Reseed
        } else {
            Step::GiveUp(e)
        },
    }
}

impl<I> RandomInitializeIkSolver<I> {
    pub fn new(solver: I, num_max_try: usize) -> (r: Self)
        ensures
            r.solver == solver,
            r.num_max_try == num_max_try,
    {
        RandomInitializeIkSolver { solver, num_max_try }
    }

    /// The first step of a solve: an attempt, or, when no attempt is
    /// allowed, giving up with `no_attempt`.
    pub fn first_step<E>(&self, no_attempt: E) -> (s: Step<E>)
        ensures
            s == (if self.num_max_try == 0 {
                Step::GiveUp(no_attempt)
            } else {
                Step::Attempt
            }),
    {
        if self.num_max_try == 0 {
            Step::GiveUp(no_attempt)
        } else {
            Step::Attempt
        }
    }

    /// The step after attempt `try_idx` ended with `report`.
    pub fn next_step<E>(&self, try_idx: usize, report: Report<E>) -> (s: Step<E>)
        requires
            try_idx < self.num_max_try,
        ensures
            s == decide(self.num_max_try as nat, try_idx as nat, report),
    {
        match report {
            Report::Converged => Step::Accept,
            Report::Malformed(e) => Step::Abort(e),
            Report::NotConverged(e) => if try_idx + 1 < self.num_max_try {
                Step::Reseed
            } else {
                Step::GiveUp(e)
            },
        }
    }
}

/// The number of engine invocations from attempt `i` on, when attempt `j`
/// would report `reports[j]`.
pub open spec fn calls_from<E>(num_max_try: nat, reports: Seq<Report<E>>, i: nat) -> nat
    decreases num_max_try - i,
{
    if i >= num_max_try {
        i
    } else if decide(num_max_try, i, reports[i as int]) is Reseed {
        calls_from(num_max_try, reports, i + 1)
    } else {
        i + 1
    }
}

/// The number of engine invocations of a whole solve.
pub open spec fn engine_calls<E>(num_max_try: nat, reports: Seq<Report<E>>) -> nat {
    calls_from(num_max_try, reports, 0)
}

/// The number of random reseeds from attempt `i` on.
pub open spec fn reseeds_from<E>(num_max_try: nat, reports: Seq<Report<E>>, i: nat) -> nat
    decreases num_max_try - i,
{
    if i >= num_max_try {
        0
    } else if decide(num_max_try, i, reports[i as int]) is Reseed {
        1 + reseeds_from(num_max_try, reports, i + 1)
    } else {
        0
    }
}

/// The number of random reseeds of a whole solve.
pub open spec fn reseeds<E>(num_max_try: nat, reports: Seq<Report<E>>) -> nat {
    reseeds_from(num_max_try, reports, 0)
}

/// The step that ends a solve of at least one attempt.
pub open spec fn final_step<E>(num_max_try: nat, reports: Seq<Report<E>>) -> Step<E> {
    let k = engine_calls(num_max_try, reports);
    decide(num_max_try, (k - 1) as nat, reports[k - 1])
}

/// The arm's configuration once the solve has stopped with `last`, given the
/// configuration before the solve and the one after the last engine call.
pub open spec fn arm_after<E>(last: Step<E>, before: Seq<int>, after_engine: Seq<int>) -> Seq<int> {
    match last {
        Step::GiveUp(_) => before,
        _ => after_engine,
    }
}

/// The solve stops at the first attempt that converges: if attempts before
/// the `k`-th fail to converge and the `k`-th converges, exactly `k` engine
/// calls are made, `k - 1` reseeds, and the solve succeeds with the arm as the
/// engine left it.
pub proof fn lemma_first_success_wins<E>(num_max_try: nat, reports: Seq<Report<E>>, k: nat)
    requires
        1 <= k <= num_max_try,
        k <= reports.len(),
        forall|j: int| 0 <= j < k - 1 ==> #[trigger] reports[j] is NotConverged,
        reports[k - 1] is Converged,
    ensures
        engine_calls(num_max_try, reports) == k,
        reseeds(num_max_try, reports) == k - 1,
        final_step(num_max_try, reports) == Step::<E>::Accept,
        forall|before: Seq<int>, after: Seq<int>|
            #[trigger] arm_after(final_step(num_max_try, reports), before, after) == after,
{
    lemma_runs_to(num_max_try, reports, k, 0);
}

/// Counts the calls and reseeds from attempt `i` when every attempt from `i`
/// up to the `k`-th fails to converge and the `k`-th ends the run.
proof fn lemma_runs_to<E>(num_max_try: nat, reports: Seq<Report<E>>, k: nat, i: nat)
    requires
        1 <= k <= num_max_try,
        i < k,
        forall|j: int| i <= j < k - 1 ==> #[trigger] reports[j] is NotConverged,
        !(decide(num_max_try, (k - 1) as nat, reports[k - 1]) is Reseed),
    ensures
        calls_from(num_max_try, reports, i) == k,
        reseeds_from(num_max_try, reports, i) == k - 1 - i,
    decreases k - i,
{
    if i + 1 < k {
        assert(reports[i as int] is NotConverged);
        lemma_runs_to(num_max_try, reports, k, i + 1);
    }
}

/// When no attempt converges, all `num_max_try` attempts are made and the
/// solve gives up with the failure of the last one, the arm restored to its
/// configuration before the solve.
pub proof fn lemma_exhaustion_restores<E>(num_max_try: nat, reports: Seq<Report<E>>)
    requires
        1 <= num_max_try <= reports.len(),
        forall|j: int| 0 <= j < num_max_try ==> #[trigger] reports[j] is NotConverged,
    ensures
        engine_calls(num_max_try, reports) == num_max_try,
        reseeds(num_max_try, reports) == num_max_try - 1,
        final_step(num_max_try, reports) == Step::GiveUp(
            reports[num_max_try - 1]->NotConverged_0,
        ),
        forall|before: Seq<int>, after: Seq<int>|
            #[trigger] arm_after(final_step(num_max_try, reports), before, after) == before,
{
    lemma_runs_to(num_max_try, reports, num_max_try, 0);
}

/// A solve allowed one attempt invokes the engine once and never reseeds.
pub proof fn lemma_single_attempt<E>(reports: Seq<Report<E>>)
    requires
        1 <= reports.len(),
    ensures
        engine_calls(1, reports) == 1,
        reseeds(1, reports) == 0,
{
    lemma_runs_to(1, reports, 1, 0);
}

/// A malformed-input report at attempt `k` ends the solve there with that
/// error: no further attempt is made and no reseed is spent on it.
pub proof fn lemma_malformed_aborts<E>(num_max_try: nat, reports: Seq<Report<E>>, k: nat)
    requires
        1 <= k <= num_max_try,
        k <= reports.len(),
        forall|j: int| 0 <= j < k - 1 ==> #[trigger] reports[j] is NotConverged,
        reports[k - 1] is Malformed,
    ensures
        engine_calls(num_max_try, reports) == k,
        reseeds(num_max_try, reports) == k - 1,
        final_step(num_max_try, reports) == Step::Abort(reports[k - 1]->Malformed_0),
{
    lemma_runs_to(num_max_try, reports, k, 0);
}

} // verus!
