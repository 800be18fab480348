//! Reconciliation: which of the expected directories are missing.

use vstd::prelude::*;
use crate::path_set::PathSet;

verus! {

/// The paths of `expected` that are not in `actual`, in the order of `expected`.
pub open spec fn missing_paths(expected: Seq<Seq<char>>, actual: Set<Seq<char>>) -> Seq<Seq<char>> {
    expected.filter(|path: Seq<char>| !actual.contains(path))
}

/// What `missing_paths` makes of one more expected path: the path is added at the
/// end where `actual` lacks it, and dropped where `actual` has it.
pub proof fn lemma_missing_paths_push(
    expected: Seq<Seq<char>>,
    path: Seq<char>,
    actual: Set<Seq<char>>,
)
    ensures
        missing_paths(expected.push(path), actual) == if actual.contains(path) {
            missing_paths(expected, actual)
        } else {
            missing_paths(expected, actual).push(path)
        },
{
    expected.lemma_filter_push(path, |path: Seq<char>| !actual.contains(path));
}

/// The missing paths as a set are the expected paths without the actual ones.
pub proof fn lemma_missing_paths_is_difference(expected: Seq<Seq<char>>, actual: Set<Seq<char>>)
    ensures
        missing_paths(expected, actual).to_set() == expected.to_set().difference(actual),
        expected.no_duplicates() ==> missing_paths(expected, actual).no_duplicates(),
    decreases expected.len(),
{
    if expected.len() == 0 {
        reveal(Seq::filter);
        assert(missing_paths(expected, actual) =~= Seq::<Seq<char>>::empty());
        assert(missing_paths(expected, actual).to_set() =~= expected.to_set().difference(actual));
    } else {
        let init = expected.drop_last();
        let last = expected.last();
        assert(expected == init.push(last));
        lemma_missing_paths_is_difference(init, actual);
        lemma_missing_paths_push(init, last, actual);
        init.lemma_push_to_set_commute(last);
        let before = missing_paths(init, actual);
        let after = missing_paths(expected, actual);
        if actual.contains(last) {
            assert(after.to_set() =~= expected.to_set().difference(actual));
        } else {
            before.lemma_push_to_set_commute(last);
            assert(after.to_set() =~= expected.to_set().difference(actual));
            if expected.no_duplicates() {
                assert(init.no_duplicates());
                assert(!init.contains(last)) by {
                    if init.contains(last) {
                        let k = choose|k: int| 0 <= k < init.len() && init[k] == last;
                        assert(expected[k] == expected[expected.len() - 1]);
                    }
                }
                assert(!before.to_set().contains(last));
                assert(!before.contains(last));
                assert forall|i: int, j: int|
                    0 <= i < after.len() && 0 <= j < after.len() && i != j implies after[i]
                    != after[j] by {
                    if i < before.len() {
                        assert(before.contains(before[i]));
                    }
                    if j < before.len() {
                        assert(before.contains(before[j]));
                    }
                }
            }
        }
    }
}

/// Only the actual paths that are among the expected ones count: two sets that
/// hold the same paths of `expected` leave the same paths missing.
pub proof fn lemma_missing_paths_depends_on_expected(
    expected: Seq<Seq<char>>,
    actual: Set<Seq<char>>,
    other: Set<Seq<char>>,
)
    requires
        forall|i: int|
            0 <= i < expected.len() ==> actual.contains(#[trigger] expected[i]) == other.contains(
                expected[i],
            ),
    ensures
        missing_paths(expected, actual) == missing_paths(expected, other),
    decreases expected.len(),
{
    if expected.len() == 0 {
        reveal(Seq::filter);
    } else {
        let init = expected.drop_last();
        let last = expected.last();
        assert(expected == init.push(last));
        assert forall|i: int| 0 <= i < init.len() implies actual.contains(#[trigger] init[i])
            == other.contains(init[i]) by {
            assert(init[i] == expected[i]);
        }
        lemma_missing_paths_depends_on_expected(init, actual, other);
        lemma_missing_paths_push(init, last, actual);
        lemma_missing_paths_push(init, last, other);
        assert(last == expected[expected.len() - 1]);
    }
}

/// What is missing beside `actual` and `more` together is what is missing beside
/// `more` among the paths that are missing beside `actual`.
pub proof fn lemma_missing_paths_of_union(
    expected: Seq<Seq<char>>,
    actual: Set<Seq<char>>,
    more: Set<Seq<char>>,
)
    ensures
        missing_paths(expected, actual.union(more)) == missing_paths(
            missing_paths(expected, actual),
            more,
        ),
    decreases expected.len(),
{
    if expected.len() == 0 {
        reveal(Seq::filter);
    } else {
        let init = expected.drop_last();
        let last = expected.last();
        assert(expected == init.push(last));
        lemma_missing_paths_of_union(init, actual, more);
        lemma_missing_paths_push(init, last, actual);
        lemma_missing_paths_push(init, last, actual.union(more));
        if !actual.contains(last) {
            lemma_missing_paths_push(missing_paths(init, actual), last, more);
        }
    }
}

/// The directories that should exist and do not: the paths of `expected` that are
/// not in `actual`, in the order in which `expected` holds them. A path that only
/// `actual` holds never appears in the result.
pub fn diff(expected: &PathSet, actual: &PathSet) -> (missing: PathSet)
    ensures
        missing.paths() == missing_paths(expected.paths(), actual@),
        missing@ == expected@.difference(actual@),
        forall|path: Seq<char>|
            missing@.contains(path) <==> expected@.contains(path) && !actual@.contains(path),
{
    let mut missing = PathSet::new();
    let mut i: usize = 0;
    proof {
        use_type_invariant(expected);
        reveal(Seq::filter);
        assert(expected.paths().take(0) =~= Seq::<Seq<char>>::empty());
    }
    while i < expected.len()
        invariant
            i <= expected.paths().len(),
            expected.paths().no_duplicates(),
            missing.paths() == missing_paths(expected.paths().take(i as int), actual@),
        decreases expected.paths().len() - i,
    {
        if let Some(path) = expected.get(i) {
            proof {
                let seen = expected.paths().take(i as int);
                assert(expected.paths().take(i + 1) =~= seen.push(path@));
                lemma_missing_paths_push(seen, path@, actual@);
                lemma_missing_paths_is_difference(seen, actual@);
                assert(!seen.contains(path@)) by {
                    if seen.contains(path@) {
                        let k = choose|k: int| 0 <= k < seen.len() && seen[k] == path@;
                        assert(expected.paths()[k] == expected.paths()[i as int]);
                    }
                }
            }
            if !actual.contains(path) {
                missing.insert(path.clone());
            }
        }
        i = i + 1;
    }
    proof {
        assert(expected.paths().take(i as int) =~= expected.paths());
        lemma_missing_paths_is_difference(expected.paths(), actual@);
    }
    missing
}

} // verus!
