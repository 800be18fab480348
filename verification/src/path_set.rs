//! A set of paths that keeps the order in which the paths came in.

use vstd::prelude::*;

verus! {

/// The texts of `items`, in order.
pub open spec fn texts(items: Seq<String>) -> Seq<Seq<char>> {
    Seq::new(items.len(), |i: int| items[i]@)
}

/// `paths` without its repeats: each path stands where it first occurs.
pub open spec fn first_occurrences(paths: Seq<Seq<char>>) -> Seq<Seq<char>>
    decreases paths.len(),
{
    if paths.len() == 0 {
        paths
    } else if paths.drop_last().contains(paths.last()) {
        first_occurrences(paths.drop_last())
    } else {
        first_occurrences(paths.drop_last()).push(paths.last())
    }
}

/// What `first_occurrences` makes of one more path: the path is added at the end
/// where it is new, and dropped where it has occurred before.
pub proof fn lemma_first_occurrences_push(paths: Seq<Seq<char>>, path: Seq<char>)
    ensures
        first_occurrences(paths.push(path)) == if paths.contains(path) {
            first_occurrences(paths)
        } else {
            first_occurrences(paths).push(path)
        },
{
    assert(paths.push(path).drop_last() =~= paths);
}

/// `first_occurrences` keeps every path once: the result has no repeats and holds
/// the same paths as the argument.
pub proof fn lemma_first_occurrences_is_set(paths: Seq<Seq<char>>)
    ensures
        first_occurrences(paths).no_duplicates(),
        first_occurrences(paths).to_set() == paths.to_set(),
    decreases paths.len(),
{
    if paths.len() == 0 {
    } else {
        let init = paths.drop_last();
        let last = paths.last();
        assert(paths == init.push(last));
        lemma_first_occurrences_is_set(init);
        init.lemma_push_to_set_commute(last);
        let before = first_occurrences(init);
        if init.contains(last) {
            assert(init.to_set().contains(last));
            assert(paths.to_set() =~= init.to_set());
        } else {
            before.lemma_push_to_set_commute(last);
            assert(!before.to_set().contains(last));
            assert(!before.contains(last));
            let after = before.push(last);
            assert forall|i: int, j: int|
                0 <= i < after.len() && 0 <= j < after.len() && i != j implies after[i]
                != after[j] by {
                if i < before.len() {
                    assert(before.contains(before[i]));
                }
                if j < before.len() {
                    assert(before.contains(before[j]));
                }
            }
        }
    }
}

/// A sequence without repeats is its own `first_occurrences`.
pub proof fn lemma_first_occurrences_of_distinct(paths: Seq<Seq<char>>)
    requires
        paths.no_duplicates(),
    ensures
        first_occurrences(paths) == paths,
    decreases paths.len(),
{
    if paths.len() > 0 {
        let init = paths.drop_last();
        assert(paths == init.push(paths.last()));
        lemma_first_occurrences_of_distinct(init);
        if init.contains(paths.last()) {
            let k = choose|k: int| 0 <= k < init.len() && init[k] == paths.last();
            assert(paths[k] == paths[paths.len() - 1]);
        }
    }
}

/// A finite set of paths. A path is in the set at most once, and the paths stay in
/// the order of their first insertion.
#[derive(Debug)]
pub struct PathSet {
    items: Vec<String>,
}

impl View for PathSet {
    type V = Set<Seq<char>>;

    /// The paths of the set.
    open spec fn view(&self) -> Set<Seq<char>> {
        self.paths().to_set()
    }
}

impl PathSet {
    /// The paths of the set, in the order of their insertion.
    pub closed spec fn paths(&self) -> Seq<Seq<char>> {
        texts(self.items@)
    }

    /// The invariant of the type: no path occurs twice.
    #[verifier::type_invariant]
    pub open spec fn wf(&self) -> bool {
        self.paths().no_duplicates()
    }

    /// The empty set.
    pub fn new() -> (set: PathSet)
        ensures
            set.paths() == Seq::<Seq<char>>::empty(),
            set@ == Set::<Seq<char>>::empty(),
    {
        let set = PathSet { items: Vec::new() };
        assert(set.paths() =~= Seq::<Seq<char>>::empty());
        assert(set@ =~= Set::<Seq<char>>::empty());
        set
    }

    /// The number of paths in the set. No path is counted twice.
    pub fn len(&self) -> (n: usize)
        ensures
            n == self.paths().len(),
            n == self@.len(),
            self.paths().no_duplicates(),
    {
        proof {
            use_type_invariant(self);
            self.paths().unique_seq_to_set();
        }
        self.items.len()
    }

    /// Whether the set holds no path.
    pub fn is_empty(&self) -> (b: bool)
        ensures
            b == (self.paths().len() == 0),
            b == (self@ == Set::<Seq<char>>::empty()),
    {
        let b = self.items.len() == 0;
        proof {
            if b {
                assert(self@ =~= Set::<Seq<char>>::empty());
            } else {
                assert(self.paths().contains(self.paths()[0]));
                assert(self@.contains(self.paths()[0]));
            }
        }
        b
    }

    /// The path at position `i` in the order of insertion; `None` where the set
    /// has no more than `i` paths.
    pub fn get(&self, i: usize) -> (path: Option<&String>)
        ensures
            match path {
                Some(text) => i < self.paths().len() && text@ == self.paths()[i as int],
                None => i >= self.paths().len(),
            },
    {
        if i < self.items.len() {
            Some(&self.items[i])
        } else {
            None
        }
    }

    /// Whether `path` is in the set.
    pub fn contains(&self, path: &String) -> (found: bool)
        ensures
            found == self@.contains(path@),
    {
        let mut i: usize = 0;
        while i < self.items.len()
            invariant
                i <= self.items.len(),
                forall|j: int| 0 <= j < i ==> self.paths()[j] != path@,
            decreases self.items.len() - i,
        {
            if self.items[i] == *path {
                assert(self.paths()[i as int] == path@);
                assert(self.paths().contains(path@));
                return true;
            }
            i = i + 1;
        }
        assert(!self.paths().contains(path@));
        false
    }

    /// Puts `path` into the set. Returns whether the path is new to the set; one
    /// that the set holds already is dropped, and the set stays as it was.
    pub fn insert(&mut self, path: String) -> (added: bool)
        ensures
            added == !old(self)@.contains(path@),
            final(self)@ == old(self)@.insert(path@),
            final(self).paths() == if added {
                old(self).paths().push(path@)
            } else {
                old(self).paths()
            },
    {
        if self.contains(&path) {
            assert(self@.insert(path@) =~= self@);
            false
        } else {
            let ghost before = self.paths();
            proof {
                use_type_invariant(&*self);
            }
            let mut items: Vec<String> = Vec::new();
            std::mem::swap(&mut items, &mut self.items);
            items.push(path);
            proof {
                let after = texts(items@);
                assert(after =~= before.push(path@));
                before.lemma_push_to_set_commute(path@);
                assert forall|i: int, j: int|
                    0 <= i < after.len() && 0 <= j < after.len() && i != j implies after[i]
                    != after[j] by {
                    if i < before.len() {
                        assert(before.contains(before[i]));
                    }
                    if j < before.len() {
                        assert(before.contains(before[j]));
                    }
                }
            }
            self.items = items;
            true
        }
    }

    /// Puts every path of `paths` into the set, in their order. Paths that the set
    /// holds already, and repeats among `paths`, are dropped.
    pub fn extend(&mut self, paths: &Vec<String>)
        ensures
            final(self).paths() == first_occurrences(old(self).paths() + texts(paths@)),
            final(self)@ == old(self)@.union(texts(paths@).to_set()),
    {
        let ghost start = self.paths();
        let ghost added = texts(paths@);
        proof {
            use_type_invariant(&*self);
            lemma_first_occurrences_of_distinct(start);
            assert(start + added.take(0) =~= start);
        }
        let mut i: usize = 0;
        while i < paths.len()
            invariant
                i <= paths.len(),
                added == texts(paths@),
                self.paths() == first_occurrences(start + added.take(i as int)),
            decreases paths.len() - i,
        {
            proof {
                let seen = start + added.take(i as int);
                assert(start + added.take(i + 1) =~= seen.push(paths@[i as int]@));
                lemma_first_occurrences_push(seen, paths@[i as int]@);
                lemma_first_occurrences_is_set(seen);
            }
            self.insert(paths[i].clone());
            i = i + 1;
        }
        proof {
            assert(added.take(i as int) =~= added);
            lemma_first_occurrences_is_set(start + added);
            vstd::seq_lib::seq_to_set_distributes_over_add(start, added);
        }
    }

    /// The set of the paths of `paths`, in the order in which each first occurs.
    pub fn from_paths(paths: &Vec<String>) -> (set: PathSet)
        ensures
            set.paths() == first_occurrences(texts(paths@)),
            set@ == texts(paths@).to_set(),
    {
        let mut set = PathSet::new();
        set.extend(paths);
        proof {
            assert(Seq::<Seq<char>>::empty() + texts(paths@) =~= texts(paths@));
            assert(Set::<Seq<char>>::empty().union(texts(paths@).to_set()) =~= texts(
                paths@,
            ).to_set());
        }
        set
    }

    /// The paths of the set, in the order of their insertion.
    pub fn to_vec(&self) -> (paths: Vec<String>)
        ensures
            texts(paths@) == self.paths(),
    {
        let mut paths: Vec<String> = Vec::new();
        let mut i: usize = 0;
        while i < self.items.len()
            invariant
                i <= self.items.len(),
                paths.len() == i,
                forall|j: int| 0 <= j < i ==> paths@[j]@ == self.items@[j]@,
            decreases self.items.len() - i,
        {
            paths.push(self.items[i].clone());
            i = i + 1;
        }
        assert(texts(paths@) =~= self.paths());
        paths
    }

    /// The set is finite.
    pub proof fn lemma_view_is_finite(&self)
        ensures
            self@.finite(),
    {
        vstd::seq_lib::seq_to_set_is_finite(self.paths());
    }
}

} // verus!
