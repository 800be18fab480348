//! Seeding the missing directories: which copy to make next, and the account of
//! what came of each copy. The copies themselves are made by the caller.

use vstd::prelude::*;
use crate::path_set::{texts, PathSet};

verus! {

/// What came of one copy.
#[derive(Debug)]
pub enum CopyOutcome {
    /// The directory was made.
    Created,
    /// The copy failed; the text says why.
    Failed(String),
}

/// One copy to make: the contents of `source` go into `target`, which is made as a
/// new directory.
#[derive(Debug)]
pub struct CopyRequest {
    /// The seed directory.
    pub source: String,
    /// The directory to make.
    pub target: String,
    /// Whether the contents of `source` are put directly into `target`, so that
    /// `target` becomes a copy of `source` and not its parent.
    pub into_new_directory: bool,
}

/// A directory that could not be made.
#[derive(Debug)]
pub struct CopyFailure {
    /// The directory that was to be made.
    pub path: String,
    /// Why the copy failed.
    pub reason: String,
}

/// The account of a pass: the directories that were made and those that were not,
/// each list in the order in which the directories were tried.
#[derive(Debug)]
pub struct ProvisionReport {
    /// The directories that were made.
    pub created: Vec<String>,
    /// The directories that could not be made, each with the reason.
    pub failures: Vec<CopyFailure>,
}

/// The targets whose copy succeeded, in order: `outcomes[i]` is what came of the
/// copy to `targets[i]`.
pub open spec fn created_of(targets: Seq<Seq<char>>, outcomes: Seq<CopyOutcome>) -> Seq<Seq<char>>
    decreases outcomes.len(),
{
    if outcomes.len() == 0 {
        Seq::empty()
    } else {
        match outcomes.last() {
            CopyOutcome::Created => created_of(targets, outcomes.drop_last()).push(
                targets[outcomes.len() - 1],
            ),
            CopyOutcome::Failed(_) => created_of(targets, outcomes.drop_last()),
        }
    }
}

/// The targets whose copy failed, each with the reason, in order: `outcomes[i]` is
/// what came of the copy to `targets[i]`.
pub open spec fn failures_of(targets: Seq<Seq<char>>, outcomes: Seq<CopyOutcome>) -> Seq<
    (Seq<char>, Seq<char>),
>
    decreases outcomes.len(),
{
    if outcomes.len() == 0 {
        Seq::empty()
    } else {
        match outcomes.last() {
            CopyOutcome::Created => failures_of(targets, outcomes.drop_last()),
            CopyOutcome::Failed(reason) => failures_of(targets, outcomes.drop_last()).push(
                (targets[outcomes.len() - 1], reason@),
            ),
        }
    }
}

impl ProvisionReport {
    /// The directories that were made, in order.
    pub open spec fn created_paths(&self) -> Seq<Seq<char>> {
        texts(self.created@)
    }

    /// The directories that could not be made, each with the reason, in order.
    pub open spec fn failed(&self) -> Seq<(Seq<char>, Seq<char>)> {
        Seq::new(self.failures@.len(), |i: int| (self.failures@[i].path@, self.failures@[i].reason@))
    }
}

/// A pass over the missing directories. It names one copy at a time, takes what
/// came of it, and goes on to the next whatever that was.
pub struct Provisioner {
    seed_dir: String,
    targets: PathSet,
    outcomes: Vec<CopyOutcome>,
}

impl Provisioner {
    /// The seed directory.
    pub closed spec fn seed(&self) -> Seq<char> {
        self.seed_dir@
    }

    /// The directories to make, in the order in which they are tried.
    pub closed spec fn targets(&self) -> Seq<Seq<char>> {
        self.targets.paths()
    }

    /// What came of the copies made so far: `outcomes()[i]` belongs to
    /// `targets()[i]`.
    pub closed spec fn outcomes(&self) -> Seq<CopyOutcome> {
        self.outcomes@
    }

    /// The invariant of the type: no target occurs twice, and there is no outcome
    /// without its target.
    #[verifier::type_invariant]
    pub open spec fn wf(&self) -> bool {
        &&& self.targets().no_duplicates()
        &&& self.outcomes().len() <= self.targets().len()
    }

    /// A pass that will copy `seed_dir` to each path of `missing`, with nothing
    /// tried yet.
    pub fn new(seed_dir: String, missing: PathSet) -> (pass: Provisioner)
        ensures
            pass.seed() == seed_dir@,
            pass.targets() == missing.paths(),
            pass.outcomes() == Seq::<CopyOutcome>::empty(),
    {
        proof {
            use_type_invariant(&missing);
        }
        Provisioner { seed_dir, targets: missing, outcomes: Vec::new() }
    }

    /// Whether every target has its outcome.
    pub fn is_done(&self) -> (done: bool)
        ensures
            done == (self.outcomes().len() == self.targets().len()),
            self.outcomes().len() <= self.targets().len(),
    {
        proof {
            use_type_invariant(self);
        }
        self.outcomes.len() >= self.targets.len()
    }

    /// The copy to make next: from the seed to the first target without an outcome.
    /// `None` when every target has its outcome.
    pub fn next_request(&self) -> (request: Option<CopyRequest>)
        ensures
            match request {
                Some(copy) => {
                    &&& self.outcomes().len() < self.targets().len()
                    &&& copy.source@ == self.seed()
                    &&& copy.target@ == self.targets()[self.outcomes().len() as int]
                    &&& copy.into_new_directory
                },
                None => self.outcomes().len() == self.targets().len(),
            },
    {
        proof {
            use_type_invariant(self);
        }
        match self.targets.get(self.outcomes.len()) {
            Some(target) => Some(
                CopyRequest {
                    source: self.seed_dir.clone(),
                    target: target.clone(),
                    into_new_directory: true,
                },
            ),
            None => None,
        }
    }

    /// Takes what came of the copy that `next_request` named, and moves on to the
    /// next target, whether the copy succeeded or failed. Returns whether there was
    /// a target for the outcome; where every target has its outcome already, the
    /// pass stays as it was.
    pub fn record(&mut self, outcome: CopyOutcome) -> (taken: bool)
        ensures
            final(self).seed() == old(self).seed(),
            final(self).targets() == old(self).targets(),
            taken == (old(self).outcomes().len() < old(self).targets().len()),
            final(self).outcomes() == if taken {
                old(self).outcomes().push(outcome)
            } else {
                old(self).outcomes()
            },
    {
        proof {
            use_type_invariant(&*self);
        }
        if self.outcomes.len() < self.targets.len() {
            let mut outcomes: Vec<CopyOutcome> = Vec::new();
            std::mem::swap(&mut outcomes, &mut self.outcomes);
            outcomes.push(outcome);
            self.outcomes = outcomes;
            true
        } else {
            false
        }
    }

    /// The account of the pass so far: the targets whose copy succeeded, and those
    /// whose copy failed with the reasons.
    pub fn report(&self) -> (report: ProvisionReport)
        ensures
            report.created_paths() == created_of(self.targets(), self.outcomes()),
            report.failed() == failures_of(self.targets(), self.outcomes()),
    {
        let mut report = ProvisionReport { created: Vec::new(), failures: Vec::new() };
        let mut i: usize = 0;
        proof {
            use_type_invariant(self);
        }
        assert(self.outcomes@.take(0) =~= Seq::<CopyOutcome>::empty());
        assert(report.created_paths() =~= Seq::<Seq<char>>::empty());
        assert(report.failed() =~= Seq::<(Seq<char>, Seq<char>)>::empty());
        while i < self.outcomes.len()
            invariant
                i <= self.outcomes.len(),
                self.outcomes().len() <= self.targets().len(),
                report.created_paths() == created_of(self.targets(), self.outcomes@.take(i as int)),
                report.failed() == failures_of(self.targets(), self.outcomes@.take(i as int)),
            decreases self.outcomes.len() - i,
        {
            let ghost created = report.created_paths();
            let ghost failed = report.failed();
            assert(self.outcomes@.take(i + 1).drop_last() =~= self.outcomes@.take(i as int));
            if let Some(target) = self.targets.get(i) {
                match &self.outcomes[i] {
                    CopyOutcome::Created => {
                        report.created.push(target.clone());
                        assert(report.created_paths() =~= created.push(target@));
                        assert(report.failed() =~= failed);
                    },
                    CopyOutcome::Failed(reason) => {
                        report.failures.push(
                            CopyFailure { path: target.clone(), reason: reason.clone() },
                        );
                        assert(report.failed() =~= failed.push((target@, reason@)));
                        assert(report.created_paths() =~= created);
                    },
                }
            }
            i = i + 1;
        }
        assert(self.outcomes@.take(i as int) =~= self.outcomes@);
        report
    }
}

/// The paths of `failures`, in order.
pub open spec fn paths_of(failures: Seq<(Seq<char>, Seq<char>)>) -> Seq<Seq<char>> {
    Seq::new(failures.len(), |i: int| failures[i].0)
}

/// The account speaks of the targets that have an outcome, and of no others.
pub proof fn lemma_account_ignores_untried_targets(
    targets: Seq<Seq<char>>,
    others: Seq<Seq<char>>,
    outcomes: Seq<CopyOutcome>,
)
    requires
        outcomes.len() <= targets.len(),
        outcomes.len() <= others.len(),
        forall|i: int| 0 <= i < outcomes.len() ==> targets[i] == others[i],
    ensures
        created_of(targets, outcomes) == created_of(others, outcomes),
        failures_of(targets, outcomes) == failures_of(others, outcomes),
    decreases outcomes.len(),
{
    if outcomes.len() > 0 {
        lemma_account_ignores_untried_targets(targets, others, outcomes.drop_last());
    }
}

/// A path is among the created ones exactly when it is a target whose copy
/// succeeded.
pub proof fn lemma_created_are_the_successes(
    targets: Seq<Seq<char>>,
    outcomes: Seq<CopyOutcome>,
    path: Seq<char>,
)
    requires
        outcomes.len() <= targets.len(),
    ensures
        created_of(targets, outcomes).contains(path) <==> exists|i: int|
            0 <= i < outcomes.len() && targets[i] == path && #[trigger] outcomes[i]
                is Created,
    decreases outcomes.len(),
{
    if outcomes.len() > 0 {
        let init = outcomes.drop_last();
        let n = outcomes.len() - 1;
        let before = created_of(targets, init);
        lemma_created_are_the_successes(targets, init, path);
        if before.contains(path) {
            let i = choose|i: int|
                0 <= i < init.len() && targets[i] == path && #[trigger] init[i] is Created;
            assert(outcomes[i] is Created);
            if outcomes.last() is Created {
                let k = choose|k: int| 0 <= k < before.len() && before[k] == path;
                assert(before.push(targets[n])[k] == path);
            }
        }
        if outcomes.last() is Created {
            assert(before.push(targets[n])[before.len() as int] == targets[n]);
        }
        if exists|i: int|
            0 <= i < outcomes.len() && targets[i] == path && #[trigger] outcomes[i]
                is Created {
            let i = choose|i: int|
                0 <= i < outcomes.len() && targets[i] == path && #[trigger] outcomes[i]
                    is Created;
            if i < n {
                assert(init[i] is Created);
            }
        }
        if created_of(targets, outcomes).contains(path) && !before.contains(path) {
            let k = choose|k: int|
                0 <= k < created_of(targets, outcomes).len() && created_of(targets, outcomes)[k]
                    == path;
            if k < before.len() {
                assert(before[k] == path);
            }
            assert(outcomes[n] is Created);
        }
    }
}

/// A path is among the failed ones with a reason exactly when it is a target whose
/// copy failed for that reason.
pub proof fn lemma_failures_are_the_failed(
    targets: Seq<Seq<char>>,
    outcomes: Seq<CopyOutcome>,
    path: Seq<char>,
    reason: Seq<char>,
)
    requires
        outcomes.len() <= targets.len(),
    ensures
        failures_of(targets, outcomes).contains((path, reason)) <==> exists|i: int|
            0 <= i < outcomes.len() && targets[i] == path && (#[trigger] outcomes[i]
                matches CopyOutcome::Failed(why) && why@ == reason),
    decreases outcomes.len(),
{
    if outcomes.len() > 0 {
        let init = outcomes.drop_last();
        let n = outcomes.len() - 1;
        let before = failures_of(targets, init);
        let after = failures_of(targets, outcomes);
        lemma_failures_are_the_failed(targets, init, path, reason);
        if before.contains((path, reason)) {
            let i = choose|i: int|
                0 <= i < init.len() && targets[i] == path && (#[trigger] init[i]
                    matches CopyOutcome::Failed(why) && why@ == reason);
            assert(outcomes[i] matches CopyOutcome::Failed(why) && why@ == reason);
            let k = choose|k: int| 0 <= k < before.len() && before[k] == (path, reason);
            assert(after[k] == (path, reason));
        }
        if let CopyOutcome::Failed(why) = outcomes.last() {
            assert(after[before.len() as int] == (targets[n], why@));
        }
        if exists|i: int|
            0 <= i < outcomes.len() && targets[i] == path && (#[trigger] outcomes[i]
                matches CopyOutcome::Failed(why) && why@ == reason) {
            let i = choose|i: int|
                0 <= i < outcomes.len() && targets[i] == path && (#[trigger] outcomes[i]
                    matches CopyOutcome::Failed(why) && why@ == reason);
            if i < n {
                assert(init[i] matches CopyOutcome::Failed(why) && why@ == reason);
            }
        }
        if after.contains((path, reason)) && !before.contains((path, reason)) {
            let k = choose|k: int| 0 <= k < after.len() && after[k] == (path, reason);
            if k < before.len() {
                assert(before[k] == (path, reason));
            }
            assert(outcomes[n] matches CopyOutcome::Failed(why) && why@ == reason);
        }
    }
}

/// One copy's failure leaves the others as they are: where the copy to
/// `targets[a]` failed and the copy to `targets[b]` succeeded, the account lists
/// the first among the failures with its reason and not among the created, and
/// the second among the created and not among the failures.
pub proof fn lemma_failure_is_isolated(
    targets: Seq<Seq<char>>,
    outcomes: Seq<CopyOutcome>,
    a: int,
    b: int,
)
    requires
        targets.no_duplicates(),
        outcomes.len() <= targets.len(),
        0 <= a < outcomes.len(),
        0 <= b < outcomes.len(),
        outcomes[a] is Failed,
        outcomes[b] is Created,
    ensures
        failures_of(targets, outcomes).contains((targets[a], outcomes[a]->Failed_0@)),
        !created_of(targets, outcomes).contains(targets[a]),
        created_of(targets, outcomes).contains(targets[b]),
        forall|reason: Seq<char>| !failures_of(targets, outcomes).contains((targets[b], reason)),
{
    lemma_failures_are_the_failed(targets, outcomes, targets[a], outcomes[a]->Failed_0@);
    lemma_created_are_the_successes(targets, outcomes, targets[a]);
    lemma_created_are_the_successes(targets, outcomes, targets[b]);
    assert forall|reason: Seq<char>|
        !failures_of(targets, outcomes).contains((targets[b], reason)) by {
        lemma_failures_are_the_failed(targets, outcomes, targets[b], reason);
    }
}

/// Whether a target is among the created depends on its own copy alone: two
/// passes over the same targets that agree on the outcome for `targets[b]` agree
/// on whether it was created, whatever came of the other copies.
pub proof fn lemma_outcome_depends_on_own_copy(
    targets: Seq<Seq<char>>,
    outcomes: Seq<CopyOutcome>,
    others: Seq<CopyOutcome>,
    b: int,
)
    requires
        targets.no_duplicates(),
        outcomes.len() <= targets.len(),
        others.len() == outcomes.len(),
        0 <= b < outcomes.len(),
        outcomes[b] is Created <==> others[b] is Created,
    ensures
        created_of(targets, outcomes).contains(targets[b]) <==> created_of(
            targets,
            others,
        ).contains(targets[b]),
{
    lemma_created_are_the_successes(targets, outcomes, targets[b]);
    lemma_created_are_the_successes(targets, others, targets[b]);
}

/// A pass in which every copy succeeded has made every target, in order.
pub proof fn lemma_all_created(targets: Seq<Seq<char>>, outcomes: Seq<CopyOutcome>)
    requires
        outcomes.len() == targets.len(),
        forall|i: int| 0 <= i < outcomes.len() ==> #[trigger] outcomes[i] is Created,
    ensures
        created_of(targets, outcomes) == targets,
        failures_of(targets, outcomes) == Seq::<(Seq<char>, Seq<char>)>::empty(),
    decreases outcomes.len(),
{
    if outcomes.len() > 0 {
        let init = outcomes.drop_last();
        let fewer = targets.drop_last();
        lemma_all_created(fewer, init);
        lemma_account_ignores_untried_targets(targets, fewer, init);
        assert(outcomes.last() == outcomes[outcomes.len() - 1]);
        assert(fewer.push(targets.last()) =~= targets);
    } else {
        assert(targets =~= Seq::<Seq<char>>::empty());
    }
}

} // verus!
