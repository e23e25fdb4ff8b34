use vstd::prelude::*;
use crate::options::{Options, texts, flag_args, base_args};
use crate::subsets::{feature_sets, rendered_sets};

verus! {

/// From this many subsets on, a run asks for confirmation first.
pub const CONFIRMATION_THRESHOLD: usize = 10;

/// The exit status of a run in which at least one build failed.
pub const FAILURE_EXIT_CODE: i32 = 7;

/// Whether the run must be confirmed before it starts.
pub fn needs_confirmation(set_count: usize, yes: bool) -> (r: bool)
    ensures
        r == (set_count >= CONFIRMATION_THRESHOLD && !yes),
{
    set_count >= CONFIRMATION_THRESHOLD && !yes
}

/// The arguments of one child build: `check`, the shared flags, and
/// `--features` with the subset unless the subset is empty.
pub open spec fn invocation(base: Seq<Seq<char>>, set: Seq<char>) -> Seq<Seq<char>> {
    seq!["check"@] + base + if set.len() == 0 {
        Seq::empty()
    } else {
        seq!["--features"@, set]
    }
}

/// Builds the argument vector of the child build for one subset.
pub fn invocation_args(base: &Vec<String>, set: &String) -> (r: Vec<String>)
    ensures
        texts(r@) == invocation(texts(base@), set@),
{
    let mut r: Vec<String> = Vec::new();
    r.push("check".to_owned());
    let mut i: usize = 0;
    while i < base.len()
        invariant
            i <= base@.len(),
            texts(r@) == seq!["check"@] + texts(base@).take(i as int),
        decreases base@.len() - i,
    {
        let ghost prev = r@;
        assert(texts(prev).len() == prev.len());
        r.push(base[i].clone());
        i = i + 1;
        assert forall|t: int| 0 <= t < r@.len() implies texts(r@)[t] == (seq!["check"@] + texts(base@).take(i as int))[t] by {
            if t < prev.len() {
                assert(texts(prev)[t] == (seq!["check"@] + texts(base@).take(i - 1))[t]);
            }
        }
        assert(texts(r@) =~= seq!["check"@] + texts(base@).take(i as int));
    }
    assert(texts(base@).take(base@.len() as int) =~= texts(base@));
    let ghost head = texts(r@);
    if !set.as_str().is_empty() {
        r.push("--features".to_owned());
        r.push(set.clone());
        assert(texts(r@) =~= head + seq!["--features"@, set@]);
    } else {
        assert(texts(r@) =~= head + Seq::<Seq<char>>::empty());
    }
    r
}

/// The state of a run: the subsets to build, the flags shared by every
/// build, how many builds have finished and whether one of them failed.
#[derive(Debug)]
pub struct Driver {
    pub sets: Vec<String>,
    pub base: Vec<String>,
    pub next: usize,
    pub failed: bool,
}

/// The status with which a run ends.
pub open spec fn exit_status(failed: bool) -> i32 {
    if failed {
        FAILURE_EXIT_CODE
    } else {
        0
    }
}

/// The state after one more build finished, successfully or not.
pub open spec fn stepped(d: Driver, succeeded: bool) -> Driver {
    Driver { sets: d.sets, base: d.base, next: (d.next + 1) as usize, failed: d.failed || !succeeded }
}

/// The state after builds with the given outcomes, in order.
pub open spec fn after_builds(d: Driver, outcomes: Seq<bool>) -> Driver
    decreases outcomes.len(),
{
    if outcomes.len() == 0 {
        d
    } else {
        stepped(after_builds(d, outcomes.drop_last()), outcomes.last())
    }
}

impl Driver {
    /// The run never gets past its last subset.
    pub open spec fn wf(&self) -> bool {
        self.next <= self.sets@.len()
    }

    /// A run over every subset of the declared features, before any build.
    pub fn new(options: Options, feature_names: &Vec<String>) -> (r: Driver)
        ensures
            r.wf(),
            texts(r.sets@) == rendered_sets(texts(feature_names@)),
            texts(r.base@) == flag_args(options),
            r.next == 0,
            !r.failed,
    {
        Driver { sets: feature_sets(feature_names), base: base_args(options), next: 0, failed: false }
    }

    /// How many subsets the run builds.
    pub fn set_count(&self) -> (r: usize)
        ensures
            r == self.sets@.len(),
    {
        self.sets.len()
    }

    /// The arguments of the next build, or `None` when every subset was built.
    pub fn next_invocation(&self) -> (r: Option<Vec<String>>)
        requires
            self.wf(),
        ensures
            r is None <==> self.next == self.sets@.len(),
            r matches Some(a) ==> texts(a@) == invocation(
                texts(self.base@),
                self.sets@[self.next as int]@,
            ),
    {
        if self.next < self.sets.len() {
            Some(invocation_args(&self.base, &self.sets[self.next]))
        } else {
            None
        }
    }

    /// Records the outcome of the build the run is at; a failure is
    /// remembered and the run goes on with the next subset.
    pub fn record(&mut self, succeeded: bool)
        requires
            old(self).wf(),
            old(self).next < old(self).sets@.len(),
        ensures
            final(self).wf(),
            *final(self) == stepped(*old(self), succeeded),
    {
        let count = self.sets.len();
        assert(self.next < count);
        self.next = self.next + 1;
        if !succeeded {
            self.failed = true;
        }
    }

    /// Ends the run without building what is left, as when the user declines.
    pub fn decline(&mut self)
        requires
            old(self).wf(),
        ensures
            final(self).wf(),
            final(self).next == final(self).sets@.len(),
            final(self).sets == old(self).sets,
            final(self).base == old(self).base,
            final(self).failed == old(self).failed,
    {
        self.next = self.sets.len();
    }

    /// The exit status of the run so far.
    pub fn exit_code(&self) -> (r: i32)
        ensures
            r == exit_status(self.failed),
    {
        if self.failed {
            FAILURE_EXIT_CODE
        } else {
            0
        }
    }
}

proof fn lemma_after_builds(d: Driver, outcomes: Seq<bool>)
    ensures
        after_builds(d, outcomes).sets == d.sets,
        d.next + outcomes.len() <= usize::MAX ==> after_builds(d, outcomes).next == d.next
            + outcomes.len(),
        after_builds(d, outcomes).failed <==> (d.failed || exists|k: int|
            0 <= k < outcomes.len() && !#[trigger] outcomes[k]),
    decreases outcomes.len(),
{
    if outcomes.len() > 0 {
        let rest = outcomes.drop_last();
        lemma_after_builds(d, rest);
        if exists|k: int| 0 <= k < rest.len() && !#[trigger] rest[k] {
            let k = choose|k: int| 0 <= k < rest.len() && !#[trigger] rest[k];
            assert(!outcomes[k]);
        }
        if exists|k: int| 0 <= k < outcomes.len() && !#[trigger] outcomes[k] {
            let k = choose|k: int| 0 <= k < outcomes.len() && !#[trigger] outcomes[k];
            if k < rest.len() {
                assert(!rest[k]);
            }
        }
    }
}

/// Failure aggregation: when some of the builds of a run fail, every subset
/// is still built, the run then has no next build, and it ends with the
/// failure status.
pub proof fn lemma_failure_aggregation(d: Driver, outcomes: Seq<bool>)
    requires
        d.next == 0,
        !d.failed,
        outcomes.len() == d.sets@.len(),
        d.sets@.len() <= usize::MAX,
        exists|k: int| 0 <= k < outcomes.len() && !#[trigger] outcomes[k],
    ensures
        after_builds(d, outcomes).next == d.sets@.len(),
        after_builds(d, outcomes).sets == d.sets,
        after_builds(d, outcomes).failed,
        exit_status(after_builds(d, outcomes).failed) == FAILURE_EXIT_CODE,
{
    lemma_after_builds(d, outcomes);
}

/// A run whose builds all succeed ends with status zero.
pub proof fn lemma_success(d: Driver, outcomes: Seq<bool>)
    requires
        !d.failed,
        forall|k: int| 0 <= k < outcomes.len() ==> #[trigger] outcomes[k],
    ensures
        exit_status(after_builds(d, outcomes).failed) == 0,
{
    lemma_after_builds(d, outcomes);
}

/// Every build of a run gets the same flags, in the same order, right
/// after `check`.
pub proof fn lemma_flags_shared(options: Options, s1: Seq<char>, s2: Seq<char>)
    ensures
        invocation(flag_args(options), s1).subrange(1, 1 + flag_args(options).len() as int)
            == flag_args(options),
        invocation(flag_args(options), s1).subrange(1, 1 + flag_args(options).len() as int)
            == invocation(flag_args(options), s2).subrange(1, 1 + flag_args(options).len() as int),
{
    let f = flag_args(options);
    assert(invocation(f, s1).subrange(1, 1 + f.len() as int) =~= f);
    assert(invocation(f, s2).subrange(1, 1 + f.len() as int) =~= f);
}

} // verus!
