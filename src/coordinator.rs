//! The coordinator: validates a request, splits the trials across workers,
//! and merges what the workers hand back.

use vstd::prelude::*;

use crate::trial::{run_seeded_trials, trials_made, TrialError, CATEGORIES};

verus! {

/// Why a simulation request was refused before any work started.
#[derive(Clone, Copy, Debug, PartialEq, Eq, Structural)]
pub enum RequestError {
    /// The number of trials was negative.
    NegativeTrials,
    /// The number of workers was negative.
    NegativeWorkers,
    /// Trials were asked for with no worker to run them.
    NoWorkers,
}

/// The share of worker `i`: every worker but the last gets `total / workers`,
/// the last one gets what is left.
pub open spec fn share(total: int, workers: int, i: int) -> int {
    if i < workers - 1 {
        total / workers
    } else {
        total - (workers - 1) * (total / workers)
    }
}

/// The whole partition plan, one share per worker.
pub open spec fn plan_of(total: int, workers: nat) -> Seq<int> {
    Seq::new(workers, |i: int| share(total, workers as int, i))
}

/// Sum of a sequence of integers.
pub open spec fn sum(s: Seq<int>) -> int
    decreases s.len(),
{
    if s.len() == 0 {
        0
    } else {
        sum(s.drop_last()) + s.last()
    }
}

/// The outcomes of several partial results laid end to end.
pub open spec fn concat_all<A>(parts: Seq<Seq<A>>) -> Seq<A>
    decreases parts.len(),
{
    if parts.len() == 0 {
        Seq::empty()
    } else {
        concat_all(parts.drop_last()) + parts.last()
    }
}

/// The lengths of several partial results.
pub open spec fn lengths(parts: Seq<Seq<i32>>) -> Seq<int> {
    Seq::new(parts.len(), |i: int| parts[i].len() as int)
}

/// The plain values held in a sequence of `i32`s.
pub open spec fn as_ints(s: Seq<i32>) -> Seq<int> {
    Seq::new(s.len(), |i: int| s[i] as int)
}

/// The shares of a partition plan add up to the number of trials asked for.
pub proof fn lemma_plan_sums_to_total(total: int, workers: nat)
    requires
        total >= 0,
        workers >= 1,
    ensures
        sum(plan_of(total, workers)) == total,
{
    let plan = plan_of(total, workers);
    let base = total / (workers as int);
    assert forall|k: nat| k <= workers - 1 implies #[trigger] sum(plan.take(k as int)) == k * base by {
        lemma_sum_of_equal_prefix(total, workers, k);
    }
    assert(plan.drop_last() =~= plan.take(workers - 1));
    assert(sum(plan.take(workers - 1)) == (workers - 1) * base);
}

proof fn lemma_sum_of_equal_prefix(total: int, workers: nat, k: nat)
    requires
        workers >= 1,
        k <= workers - 1,
    ensures
        sum(plan_of(total, workers).take(k as int)) == k * (total / (workers as int)),
    decreases k,
{
    let plan = plan_of(total, workers);
    let base = total / (workers as int);
    if k > 0 {
        lemma_sum_of_equal_prefix(total, workers, (k - 1) as nat);
        assert(plan.take(k as int).drop_last() =~= plan.take(k - 1));
        assert((k - 1) * base + base == k * base) by (nonlinear_arith);
    } else {
        assert(plan.take(0) =~= Seq::<int>::empty());
    }
}

/// Laying partial results end to end gives as many outcomes as their lengths add up to.
pub proof fn lemma_concat_length(parts: Seq<Seq<i32>>)
    ensures
        concat_all(parts).len() == sum(lengths(parts)),
    decreases parts.len(),
{
    if parts.len() > 0 {
        lemma_concat_length(parts.drop_last());
        assert(lengths(parts).drop_last() =~= lengths(parts.drop_last()));
    }
}

/// Workers that each ran exactly their share of a plan hand back, together,
/// exactly the number of trials asked for.
pub proof fn lemma_merged_length_is_total(total: int, workers: nat, parts: Seq<Seq<i32>>)
    requires
        total >= 0,
        workers >= 1,
        parts.len() == workers,
        forall|i: int| 0 <= i < workers ==> #[trigger] parts[i].len() == share(total, workers as int, i),
    ensures
        concat_all(parts).len() == sum(lengths(parts)),
        sum(lengths(parts)) == sum(plan_of(total, workers)),
        concat_all(parts).len() == total,
{
    lemma_concat_length(parts);
    assert(lengths(parts) =~= plan_of(total, workers));
    lemma_plan_sums_to_total(total, workers);
}


/// The outcome sequences of the workers that succeeded; a failed worker contributes nothing.
pub open spec fn outcomes_of(parts: Seq<Result<Vec<i32>, TrialError>>) -> Seq<Seq<i32>> {
    Seq::new(
        parts.len(),
        |i: int|
            match parts[i] {
                Ok(v) => v@,
                Err(_) => Seq::empty(),
            },
    )
}

/// Splits `total_trials` across `workers`: every worker but the last gets
/// `total_trials / workers`, the last one gets the rest.
pub fn partition(total_trials: i32, workers: i32) -> (plan: Vec<i32>)
    requires
        total_trials >= 0,
        workers >= 1,
    ensures
        as_ints(plan@) == plan_of(total_trials as int, workers as nat),
        sum(as_ints(plan@)) == total_trials,
{
    let base = total_trials / workers;
    proof {
        vstd::arithmetic::div_mod::lemma_fundamental_div_mod(total_trials as int, workers as int);
        assert(base >= 0);
        assert((workers - 1) * base <= workers * base) by (nonlinear_arith)
            requires
                base >= 0,
        ;
    }
    let mut plan: Vec<i32> = Vec::new();
    let mut i: i32 = 0;
    while i < workers - 1
        invariant
            0 <= i <= workers - 1,
            workers >= 1,
            base == total_trials / workers,
            plan@.len() == i,
            forall|k: int| 0 <= k < i ==> #[trigger] plan@[k] == base,
        decreases workers - 1 - i,
    {
        plan.push(base);
        i = i + 1;
    }
    let rest = total_trials - (workers - 1) * base;
    plan.push(rest);
    proof {
        assert(as_ints(plan@) =~= plan_of(total_trials as int, workers as nat));
        lemma_plan_sums_to_total(total_trials as int, workers as nat);
    }
    plan
}

/// Checks a request for `total_trials` trials on `workers` workers and returns
/// the share of each worker to dispatch. No trials means no worker at all.
pub fn plan_simulation(total_trials: i32, workers: i32) -> (r: Result<Vec<i32>, RequestError>)
    ensures
        (r == Err::<Vec<i32>, RequestError>(RequestError::NegativeTrials)) <==> total_trials < 0,
        (r == Err::<Vec<i32>, RequestError>(RequestError::NegativeWorkers)) <==> (total_trials >= 0
            && workers < 0),
        (r == Err::<Vec<i32>, RequestError>(RequestError::NoWorkers)) <==> (total_trials >= 0
            && workers == 0),
        total_trials == 0 && workers >= 1 ==> (r matches Ok(plan) && plan@.len() == 0),
        total_trials > 0 && workers >= 1 ==> (r matches Ok(plan) && as_ints(plan@) == plan_of(
            total_trials as int,
            workers as nat,
        )),
{
    if total_trials < 0 {
        Err(RequestError::NegativeTrials)
    } else if workers < 0 {
        Err(RequestError::NegativeWorkers)
    } else if workers == 0 {
        Err(RequestError::NoWorkers)
    } else if total_trials == 0 {
        Ok(Vec::new())
    } else {
        Ok(partition(total_trials, workers))
    }
}

/// Lays the partial results of all workers end to end, once every worker has
/// reported. A single failed worker fails the whole simulation.
pub fn merge_partials(
    partials: &Vec<Result<Vec<i32>, TrialError>>,
) -> (r: Result<Vec<i32>, TrialError>)
    ensures
        r is Ok <==> forall|i: int| 0 <= i < partials@.len() ==> #[trigger] partials@[i] is Ok,
        r matches Ok(v) ==> v@ == concat_all(outcomes_of(partials@)),
        r matches Err(e) ==> exists|i: int|
            0 <= i < partials@.len() && #[trigger] partials@[i] == Err::<Vec<i32>, TrialError>(e),
{
    let mut merged: Vec<i32> = Vec::new();
    let mut i: usize = 0;
    while i < partials.len()
        invariant
            i <= partials@.len(),
            forall|k: int| 0 <= k < i ==> #[trigger] partials@[k] is Ok,
            merged@ == concat_all(outcomes_of(partials@).take(i as int)),
        decreases partials@.len() - i,
    {
        match &partials[i] {
            Ok(part) => {
                let ghost before = merged@;
                let mut j: usize = 0;
                while j < part.len()
                    invariant
                        j <= part@.len(),
                        merged@ == before + part@.take(j as int),
                    decreases part@.len() - j,
                {
                    merged.push(part[j]);
                    j = j + 1;
                    assert(merged@ =~= before + part@.take(j as int));
                }
                assert(part@.take(j as int) =~= part@);
                assert(outcomes_of(partials@).take(i + 1).drop_last() =~= outcomes_of(
                    partials@,
                ).take(i as int));
            },
            Err(e) => {
                return Err(*e);
            },
        }
        i = i + 1;
    }
    assert(outcomes_of(partials@).take(i as int) =~= outcomes_of(partials@));
    Ok(merged)
}


#[verifier::external_type_specification]
#[verifier::external_body]
pub struct ExInstant(std::time::Instant);

/// Relies on std's `Instant::now`: a reading of the monotonic clock.
#[verifier::external_body]
fn clock_now() -> (r: std::time::Instant) {
    std::time::Instant::now()
}

/// Relies on std's `Instant::elapsed`: the time passed since `start`.
#[verifier::external_body]
fn time_since(start: &std::time::Instant) -> (r: std::time::Duration) {
    start.elapsed()
}

/// Runs `number_of_loops` trials on the calling thread and returns their
/// outcomes with the time it took. No trials gives no outcomes.
pub fn simulation_single_thread(
    number_of_loops: i32,
) -> (r: Result<(Vec<i32>, std::time::Duration), TrialError>)
    requires
        number_of_loops >= 0,
    ensures
        match r {
            Ok((v, _)) => v@.len() == number_of_loops && (exists|trials: Seq<Seq<usize>>|
                #[trigger] trials_made(trials, v@, concat_all(trials))) && (forall|i: int|
                0 <= i < v@.len() ==> #[trigger] v@[i] >= CATEGORIES),
            Err(_) => number_of_loops > 0,
        },
{
    let start = clock_now();
    let outcomes = run_seeded_trials(number_of_loops)?;
    let elapsed = time_since(&start);
    Ok((outcomes, elapsed))
}

} // verus!
