//! What holds of a whole run: of the reconciliation together with the pass that
//! seeds the missing directories.

use vstd::prelude::*;
use crate::name::is_directory_name;
use crate::path::{is_child_of, lemma_join_directory_name};
use crate::path_set::lemma_first_occurrences_is_set;
use crate::provision::{
    created_of,
    failures_of,
    lemma_account_ignores_untried_targets,
    lemma_all_created,
    lemma_created_are_the_successes,
    paths_of,
    CopyOutcome,
};
use crate::reconcile::{
    lemma_missing_paths_depends_on_expected,
    lemma_missing_paths_is_difference,
    lemma_missing_paths_of_union,
    lemma_missing_paths_push,
    missing_paths,
};
use crate::resolve::{joined_all, paths_under};

verus! {

/// A path is missing exactly when it is expected and does not exist. So a
/// directory that exists and is not expected is never among the missing ones, and
/// no copy is ever asked for it.
pub proof fn lemma_missing_is_expected_and_absent(
    expected: Seq<Seq<char>>,
    actual: Set<Seq<char>>,
    path: Seq<char>,
)
    ensures
        missing_paths(expected, actual).contains(path) <==> expected.contains(path)
            && !actual.contains(path),
        !expected.contains(path) ==> !missing_paths(expected, actual).contains(path),
{
    lemma_missing_paths_is_difference(expected, actual);
    assert(missing_paths(expected, actual).to_set().contains(path) <==> expected.to_set().contains(
        path,
    ) && !actual.contains(path));
}

/// Of sets: once every missing directory exists, none is missing.
pub proof fn lemma_nothing_missing_once_all_exist(
    expected: Set<Seq<char>>,
    actual: Set<Seq<char>>,
)
    ensures
        expected.difference(actual.union(expected.difference(actual))) == Set::<
            Seq<char>,
        >::empty(),
{
    assert(expected.difference(actual.union(expected.difference(actual))) =~= Set::<
        Seq<char>,
    >::empty());
}

/// Among the targets of a finished pass, those that are not among the created
/// ones are those whose copy failed, in the same order.
pub proof fn lemma_not_created_is_failed(targets: Seq<Seq<char>>, outcomes: Seq<CopyOutcome>)
    requires
        targets.no_duplicates(),
        outcomes.len() == targets.len(),
    ensures
        missing_paths(targets, created_of(targets, outcomes).to_set()) == paths_of(
            failures_of(targets, outcomes),
        ),
    decreases targets.len(),
{
    if targets.len() == 0 {
        reveal(Seq::filter);
        assert(paths_of(failures_of(targets, outcomes)) =~= Seq::<Seq<char>>::empty());
    } else {
        let fewer = targets.drop_last();
        let last = targets.last();
        let init = outcomes.drop_last();
        assert(targets == fewer.push(last));
        lemma_not_created_is_failed(fewer, init);
        lemma_account_ignores_untried_targets(targets, fewer, init);
        let made_before = created_of(fewer, init).to_set();
        let made = created_of(targets, outcomes).to_set();
        assert(!fewer.contains(last)) by {
            if fewer.contains(last) {
                let k = choose|k: int| 0 <= k < fewer.len() && fewer[k] == last;
                assert(targets[k] == targets[targets.len() - 1]);
            }
        }
        assert(!made_before.contains(last)) by {
            lemma_created_are_the_successes(fewer, init, last);
            if created_of(fewer, init).contains(last) {
                let i = choose|i: int|
                    0 <= i < init.len() && fewer[i] == last && #[trigger] init[i] is Created;
                assert(fewer.contains(fewer[i]));
            }
        }
        created_of(fewer, init).lemma_push_to_set_commute(last);
        assert forall|i: int| 0 <= i < fewer.len() implies made.contains(#[trigger] fewer[i])
            == made_before.contains(fewer[i]) by {
            assert(fewer.contains(fewer[i]));
        }
        lemma_missing_paths_depends_on_expected(fewer, made, made_before);
        lemma_missing_paths_push(fewer, last, made);
        match outcomes.last() {
            CopyOutcome::Created => {},
            CopyOutcome::Failed(reason) => {
                assert(paths_of(failures_of(targets, outcomes)) =~= paths_of(
                    failures_of(fewer, init),
                ).push(last));
            },
        }
    }
}

/// After a pass over the missing directories, a second reconciliation finds
/// missing the directories whose copy failed, and no others.
pub proof fn lemma_second_run_finds_the_failures(
    expected: Seq<Seq<char>>,
    actual: Set<Seq<char>>,
    outcomes: Seq<CopyOutcome>,
)
    requires
        expected.no_duplicates(),
        outcomes.len() == missing_paths(expected, actual).len(),
    ensures
        missing_paths(
            expected,
            actual.union(created_of(missing_paths(expected, actual), outcomes).to_set()),
        ) == paths_of(failures_of(missing_paths(expected, actual), outcomes)),
{
    let missing = missing_paths(expected, actual);
    let made = created_of(missing, outcomes).to_set();
    lemma_missing_paths_of_union(expected, actual, made);
    lemma_missing_paths_is_difference(expected, actual);
    lemma_not_created_is_failed(missing, outcomes);
}

/// After a pass in which every copy succeeded, a second reconciliation finds
/// nothing missing.
pub proof fn lemma_second_run_finds_nothing(
    expected: Seq<Seq<char>>,
    actual: Set<Seq<char>>,
    outcomes: Seq<CopyOutcome>,
)
    requires
        expected.no_duplicates(),
        outcomes.len() == missing_paths(expected, actual).len(),
        forall|i: int| 0 <= i < outcomes.len() ==> #[trigger] outcomes[i] is Created,
    ensures
        created_of(missing_paths(expected, actual), outcomes) == missing_paths(expected, actual),
        missing_paths(
            expected,
            actual.union(created_of(missing_paths(expected, actual), outcomes).to_set()),
        ) == Seq::<Seq<char>>::empty(),
{
    let missing = missing_paths(expected, actual);
    lemma_second_run_finds_the_failures(expected, actual, outcomes);
    lemma_all_created(missing, outcomes);
    assert(paths_of(failures_of(missing, outcomes)) =~= Seq::<Seq<char>>::empty());
}

/// Where every name is a directory name, every expected path is a directory
/// directly under the root: no copy is made anywhere else.
pub proof fn lemma_expected_paths_are_children(root: Seq<char>, names: Seq<Seq<char>>)
    requires
        forall|i: int| 0 <= i < names.len() ==> is_directory_name(#[trigger] names[i]),
    ensures
        forall|i: int|
            0 <= i < paths_under(root, names).len() ==> is_child_of(
                #[trigger] paths_under(root, names)[i],
                root,
            ),
{
    let all = joined_all(root, names);
    let kept = paths_under(root, names);
    lemma_first_occurrences_is_set(all);
    assert forall|i: int| 0 <= i < kept.len() implies is_child_of(#[trigger] kept[i], root) by {
        assert(kept.contains(kept[i]));
        assert(kept.to_set().contains(kept[i]));
        assert(all.contains(kept[i]));
        let k = choose|k: int| 0 <= k < all.len() && all[k] == kept[i];
        lemma_join_directory_name(root, names[k]);
    }
}

} // verus!
