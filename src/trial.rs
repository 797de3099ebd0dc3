//! The trial engine: one trial opens boxes until every category has been seen.

use vstd::prelude::*;

use crate::coordinator::concat_all;
use crate::source::DrawSource;

verus! {

/// Number of distinct prize categories.
pub const CATEGORIES: usize = 6;

/// Largest number of draws a single trial may take before it is abandoned.
pub const DRAW_LIMIT: i32 = 2147483647;

/// Why a batch of trials produced no outcomes.
#[derive(Clone, Copy, Debug, PartialEq, Eq, Structural)]
pub enum TrialError {
    /// The operating system gave no seed for the random generator.
    NoEntropy,
    /// A trial reached `DRAW_LIMIT` draws without seeing every category.
    DrawLimitReached,
}

/// Every category has been drawn at least once.
pub open spec fn all_seen(draws: Seq<usize>) -> bool {
    forall|c: usize| c < CATEGORIES ==> #[trigger] draws.contains(c)
}

/// Every draw names a category.
pub open spec fn valid_draws(draws: Seq<usize>) -> bool {
    forall|i: int| 0 <= i < draws.len() ==> #[trigger] draws[i] < CATEGORIES
}

/// A finished trial: it stops at the first draw after which every category has been seen.
pub open spec fn is_trial(draws: Seq<usize>) -> bool {
    &&& draws.len() > 0
    &&& valid_draws(draws)
    &&& all_seen(draws)
    &&& !all_seen(draws.drop_last())
}

/// The draws made after `before`, when `after` extends it.
pub open spec fn new_draws(before: Seq<usize>, after: Seq<usize>) -> Seq<usize> {
    after.skip(before.len() as int)
}

/// `draws` is the finished trials `trials` laid end to end, and `outcomes`
/// holds their lengths, in the same order.
pub open spec fn trials_made(trials: Seq<Seq<usize>>, outcomes: Seq<i32>, draws: Seq<usize>) -> bool {
    &&& trials.len() == outcomes.len()
    &&& forall|i: int|
        0 <= i < trials.len() ==> is_trial(#[trigger] trials[i]) && outcomes[i] == trials[i].len()
    &&& draws == concat_all(trials)
}

/// The state of one trial in progress: how often each category was drawn so far.
pub struct TrialState {
    counts: Vec<u32>,
    opens: i32,
    draws: Ghost<Seq<usize>>,
}

impl View for TrialState {
    type V = Seq<usize>;

    /// The draws made so far, in order.
    closed spec fn view(&self) -> Seq<usize> {
        self.draws@
    }
}

impl TrialState {
    pub closed spec fn wf(&self) -> bool {
        &&& self.counts@.len() == CATEGORIES
        &&& self.opens == self.draws@.len()
        &&& valid_draws(self.draws@)
        &&& forall|c: usize|
            c < CATEGORIES ==> (#[trigger] self.counts@[c as int] > 0 <==> self.draws@.contains(c))
        &&& forall|c: int| 0 <= c < CATEGORIES ==> #[trigger] self.counts@[c] <= self.opens
    }

    /// A trial with no draws yet.
    pub fn new() -> (r: TrialState)
        ensures
            r.wf(),
            r@ == Seq::<usize>::empty(),
    {
        let mut counts: Vec<u32> = Vec::new();
        let mut i: usize = 0;
        while i < CATEGORIES
            invariant
                i <= CATEGORIES,
                counts@.len() == i,
                forall|c: int| 0 <= c < i ==> #[trigger] counts@[c] == 0,
            decreases CATEGORIES - i,
        {
            counts.push(0);
            i = i + 1;
        }
        TrialState { counts, opens: 0, draws: Ghost(Seq::empty()) }
    }

    /// Number of draws made so far.
    pub fn opens(&self) -> (r: i32)
        requires
            self.wf(),
        ensures
            r == self@.len(),
    {
        self.opens
    }

    /// Records one draw of category `c`.
    pub fn record(&mut self, c: usize)
        requires
            old(self).wf(),
            c < CATEGORIES,
            old(self)@.len() < DRAW_LIMIT,
        ensures
            final(self).wf(),
            final(self)@ == old(self)@.push(c),
    {
        let ghost prev = self.draws@;
        let n = self.counts[c];
        self.counts.set(c, n + 1);
        self.opens = self.opens + 1;
        self.draws = Ghost(prev.push(c));
        assert forall|d: usize| d < CATEGORIES implies (#[trigger] self.counts@[d as int] > 0
            <==> self.draws@.contains(d)) by {
            if d != c {
                if prev.push(c).contains(d) {
                    let j = choose|j: int| 0 <= j < prev.push(c).len() && prev.push(c)[j] == d;
                    assert(prev[j] == d);
                }
                if prev.contains(d) {
                    let j = choose|j: int| 0 <= j < prev.len() && prev[j] == d;
                    assert(prev.push(c)[j] == d);
                }
            } else {
                assert(prev.push(c)[prev.len() as int] == c);
            }
        }
    }

    /// Whether every category has been drawn.
    pub fn is_complete(&self) -> (r: bool)
        requires
            self.wf(),
        ensures
            r == all_seen(self@),
    {
        let mut i: usize = 0;
        while i < CATEGORIES
            invariant
                self.wf(),
                i <= CATEGORIES,
                forall|c: usize| c < i ==> #[trigger] self@.contains(c),
            decreases CATEGORIES - i,
        {
            if self.counts[i] == 0 {
                assert(!self@.contains(i));
                return false;
            }
            i = i + 1;
        }
        true
    }
}


/// Every finished trial takes at least one draw per category.
pub proof fn lemma_trial_at_least_categories(draws: Seq<usize>)
    requires
        is_trial(draws),
    ensures
        draws.len() >= CATEGORIES,
{
    broadcast use vstd::set::group_set_axioms, vstd::seq_lib::seq_to_set_is_finite;

    let wanted = set![0usize, 1usize, 2usize, 3usize, 4usize, 5usize];
    assert(wanted.len() == CATEGORIES);
    assert forall|c: usize| wanted.contains(c) implies draws.to_set().contains(c) by {
        assert(draws.contains(c));
    }
    vstd::set_lib::lemma_len_subset(wanted, draws.to_set());
    draws.lemma_cardinality_of_set();
}

/// The outcome of a trial whose draws are `draws`: the length of the shortest
/// prefix that holds every category, or `None` when no prefix does.
pub fn trial_length(draws: &Vec<usize>) -> (r: Option<i32>)
    requires
        valid_draws(draws@),
        draws@.len() <= DRAW_LIMIT,
    ensures
        match r {
            Some(n) => 0 < n <= draws@.len() && is_trial(draws@.take(n as int)),
            None => !all_seen(draws@),
        },
{
    let mut state = TrialState::new();
    let mut i: usize = 0;
    while !state.is_complete()
        invariant
            state.wf(),
            i <= draws@.len() <= DRAW_LIMIT,
            valid_draws(draws@),
            state@ == draws@.take(i as int),
            i > 0 ==> !all_seen(state@.drop_last()),
        decreases draws@.len() - i,
    {
        if i == draws.len() {
            assert(draws@.take(i as int) =~= draws@);
            return None;
        }
        let ghost prev = state@;
        state.record(draws[i]);
        i = i + 1;
        assert(state@ =~= draws@.take(i as int));
        assert(state@.drop_last() == prev);
    }
    if i == 0 {
        assert(!state@.contains(0usize));
    }
    Some(state.opens())
}

/// Runs one trial: draws categories from `src` until every one has been seen,
/// and returns the number of draws it took.
pub fn run_trial(src: &mut DrawSource) -> (r: Result<i32, TrialError>)
    ensures
        final(src)@ == old(src)@ + new_draws(old(src)@, final(src)@),
        match r {
            Ok(n) => is_trial(new_draws(old(src)@, final(src)@)) && n == new_draws(
                old(src)@,
                final(src)@,
            ).len() && n >= CATEGORIES,
            Err(e) => e == TrialError::DrawLimitReached && new_draws(old(src)@, final(src)@).len()
                == DRAW_LIMIT && valid_draws(new_draws(old(src)@, final(src)@)) && !all_seen(
                new_draws(old(src)@, final(src)@),
            ),
        },
{
    let ghost start = src@;
    let mut state = TrialState::new();
    while !state.is_complete()
        invariant
            state.wf(),
            start == old(src)@,
            src@ == start + state@,
            state@.len() > 0 ==> !all_seen(state@.drop_last()),
        decreases DRAW_LIMIT - state@.len(),
    {
        if state.opens() == DRAW_LIMIT {
            assert(new_draws(start, src@) =~= state@);
            return Err(TrialError::DrawLimitReached);
        }
        let ghost prev = state@;
        let c = src.draw(CATEGORIES);
        state.record(c);
        assert(state@.drop_last() == prev);
        assert(src@ =~= start + state@);
    }
    proof {
        assert(new_draws(start, src@) =~= state@);
        if state@.len() == 0 {
            assert(!state@.contains(0usize));
        }
        assert(is_trial(state@));
        lemma_trial_at_least_categories(state@);
    }
    Ok(state.opens())
}

/// Runs `count` trials one after another on `src` and returns their outcomes.
/// Fails as a whole when one trial fails.
pub fn run_trials(src: &mut DrawSource, count: i32) -> (r: Result<Vec<i32>, TrialError>)
    requires
        count >= 0,
    ensures
        final(src)@ == old(src)@ + new_draws(old(src)@, final(src)@),
        match r {
            Ok(v) => v@.len() == count && (exists|trials: Seq<Seq<usize>>|
                #[trigger] trials_made(trials, v@, new_draws(old(src)@, final(src)@))) && (forall|
                i: int,
            | 0 <= i < v@.len() ==> #[trigger] v@[i] >= CATEGORIES),
            Err(e) => count > 0 && e == TrialError::DrawLimitReached,
        },
{
    let ghost start = src@;
    let ghost mut trials: Seq<Seq<usize>> = Seq::empty();
    let mut outcomes: Vec<i32> = Vec::new();
    let mut done: i32 = 0;
    while done < count
        invariant
            0 <= done <= count,
            outcomes@.len() == done,
            start == old(src)@,
            src@ == start + concat_all(trials),
            trials_made(trials, outcomes@, concat_all(trials)),
            forall|i: int| 0 <= i < outcomes@.len() ==> #[trigger] outcomes@[i] >= CATEGORIES,
        decreases count - done,
    {
        let ghost before = src@;
        let n = match run_trial(src) {
            Ok(n) => n,
            Err(e) => {
                assert(src@ =~= start + new_draws(start, src@));
                return Err(e);
            },
        };
        proof {
            let t = new_draws(before, src@);
            assert(trials.push(t).drop_last() =~= trials);
            assert(src@ =~= start + concat_all(trials.push(t)));
            trials = trials.push(t);
        }
        outcomes.push(n);
        done = done + 1;
        assert(forall|i: int| 0 <= i < trials.len() - 1 ==> trials[i] == trials.drop_last()[i]);
    }
    proof {
        assert(new_draws(start, src@) =~= concat_all(trials));
    }
    Ok(outcomes)
}

/// Runs `count` trials on a source of its own, seeded by the operating system.
pub fn run_seeded_trials(count: i32) -> (r: Result<Vec<i32>, TrialError>)
    requires
        count >= 0,
    ensures
        match r {
            Ok(v) => v@.len() == count && (exists|trials: Seq<Seq<usize>>|
                #[trigger] trials_made(trials, v@, concat_all(trials))) && (forall|i: int|
                0 <= i < v@.len() ==> #[trigger] v@[i] >= CATEGORIES),
            Err(_) => count > 0,
        },
{
    if count == 0 {
        let v: Vec<i32> = Vec::new();
        assert(trials_made(Seq::empty(), v@, concat_all(Seq::<Seq<usize>>::empty())));
        return Ok(v);
    }
    match DrawSource::from_entropy() {
        Some(mut src) => {
            let r = run_trials(&mut src, count);
            proof {
                if let Ok(v) = &r {
                    let trials = choose|trials: Seq<Seq<usize>>|
                        #[trigger] trials_made(trials, v@, new_draws(Seq::empty(), src@));
                    assert(trials_made(trials, v@, concat_all(trials)));
                }
            }
            r
        },
        None => Err(TrialError::NoEntropy),
    }
}

} // verus!
