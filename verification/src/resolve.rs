//! The two sides of a reconciliation: the directories that should exist, from
//! what the database answered, and the directories that do exist, from what the
//! listing of the root gave.

use vstd::prelude::*;
use vstd::string::*;
use crate::config::Cli;
use crate::name::{normalize, normalized_name};
use crate::path::{join, joined};
use crate::path_set::{
    first_occurrences,
    lemma_first_occurrences_is_set,
    lemma_first_occurrences_push,
    texts,
    PathSet,
};
use crate::status::Status;

verus! {

/// Why a run could not find out what to reconcile.
#[derive(Debug)]
pub enum SyncError {
    /// The database could not be reached.
    Connection(String),
    /// The database refused the query or failed while answering it.
    Query(String),
    /// The root directory could not be listed.
    Filesystem(String),
}

impl SyncError {
    /// What went wrong, in words: the kind of the failure and the reason given.
    pub open spec fn text(&self) -> Seq<char> {
        match self {
            SyncError::Connection(reason) => "cannot reach the database: "@ + reason@,
            SyncError::Query(reason) => "the query failed: "@ + reason@,
            SyncError::Filesystem(reason) => "cannot list the root directory: "@ + reason@,
        }
    }

    /// What went wrong, in words.
    pub fn message(&self) -> (text: String)
        ensures
            text@ == self.text(),
    {
        match self {
            SyncError::Connection(reason) => {
                let mut text = String::from_str("cannot reach the database: ");
                text.append(reason.as_str());
                text
            },
            SyncError::Query(reason) => {
                let mut text = String::from_str("the query failed: ");
                text.append(reason.as_str());
                text
            },
            SyncError::Filesystem(reason) => {
                let mut text = String::from_str("cannot list the root directory: ");
                text.append(reason.as_str());
                text
            },
        }
    }
}

/// What came of asking the database for the projects.
#[derive(Debug)]
pub enum DbReply {
    /// The directory names of the rows that the query selected.
    Rows(Vec<String>),
    /// No connection could be made; the text says why.
    ConnectionFailed(String),
    /// The connection stood, and the query failed; the text says why.
    QueryFailed(String),
}

/// One entry of the root directory, as the listing gave it.
#[derive(Debug)]
pub enum RootEntry {
    /// An entry that is a directory, with its name.
    Directory(String),
    /// An entry that is no directory, or of which this could not be found out,
    /// with its name.
    Other(String),
    /// An entry that could not be read at all.
    Unreadable,
}

/// What came of listing the root directory.
#[derive(Debug)]
pub enum Listing {
    /// The entries of the root.
    Entries(Vec<RootEntry>),
    /// The root could not be listed; the text says why.
    Failed(String),
}

/// A project phase as the database holds it.
#[derive(Debug)]
pub struct ProjectRecord {
    /// The number of the phase, such as `2023-01`.
    pub phase_number: String,
    /// The name of the project.
    pub project_name: String,
    /// The year of the project.
    pub year: i32,
    /// The stage that the phase has reached.
    pub status: Status,
}

impl ProjectRecord {
    /// The name of the project's directory.
    pub open spec fn directory_name(&self) -> Seq<char> {
        normalized_name(self.phase_number@, self.project_name@)
    }

    /// Whether the record is of the year `year` and, where a least stage is given,
    /// has reached it.
    pub open spec fn is_selected(&self, year: i32, min_status: Option<Status>) -> bool {
        &&& self.year == year
        &&& match min_status {
            Some(min) => self.status.reaches(min),
            None => true,
        }
    }

    /// The name of the project's directory.
    pub fn dir_name(&self) -> (name: String)
        ensures
            name@ == self.directory_name(),
    {
        normalize(self.phase_number.as_str(), self.project_name.as_str())
    }

    /// Whether the record is of the year `year` and, where a least stage is given,
    /// has reached it. The stage `min_status` itself counts as reached.
    pub fn selected(&self, year: i32, min_status: Option<Status>) -> (b: bool)
        ensures
            b == self.is_selected(year, min_status),
    {
        if self.year != year {
            return false;
        }
        match min_status {
            Some(min) => self.status.at_least(min),
            None => true,
        }
    }
}

/// With a least stage given, a record of the year is selected exactly when its
/// stage stands at or after the least stage in the order of the stages; a record
/// of another year is never selected.
pub proof fn lemma_threshold_decides(record: ProjectRecord, year: i32, min_status: Status)
    ensures
        record.year == year ==> (record.is_selected(year, Some(min_status))
            <==> record.status.rank_of() >= min_status.rank_of()),
        record.year != year ==> !record.is_selected(year, Some(min_status)),
{
}

/// Selection follows the stages: beside a selected record, every record of the
/// same year that has reached the stage of the first is selected too.
pub proof fn lemma_selection_follows_the_stages(
    record: ProjectRecord,
    later: ProjectRecord,
    year: i32,
    min_status: Option<Status>,
)
    requires
        record.is_selected(year, min_status),
        later.year == year,
        later.status.reaches(record.status),
    ensures
        later.is_selected(year, min_status),
{
}

/// The directory names of the selected records among `records`, in their order.
pub open spec fn selected_names(
    records: Seq<ProjectRecord>,
    year: i32,
    min_status: Option<Status>,
) -> Seq<Seq<char>>
    decreases records.len(),
{
    if records.len() == 0 {
        Seq::empty()
    } else if records.last().is_selected(year, min_status) {
        selected_names(records.drop_last(), year, min_status).push(
            records.last().directory_name(),
        )
    } else {
        selected_names(records.drop_last(), year, min_status)
    }
}

/// Each of `names` joined to `root`, in order.
pub open spec fn joined_all(root: Seq<char>, names: Seq<Seq<char>>) -> Seq<Seq<char>> {
    Seq::new(names.len(), |i: int| joined(root, names[i]))
}

/// The paths under `root` of the directories `names`, each path once, in the order
/// in which the names first give it.
pub open spec fn paths_under(root: Seq<char>, names: Seq<Seq<char>>) -> Seq<Seq<char>> {
    first_occurrences(joined_all(root, names))
}

/// The names of the entries among `entries` that are directories, in their order.
pub open spec fn directory_names(entries: Seq<RootEntry>) -> Seq<Seq<char>>
    decreases entries.len(),
{
    if entries.len() == 0 {
        Seq::empty()
    } else {
        match entries.last() {
            RootEntry::Directory(name) => directory_names(entries.drop_last()).push(name@),
            _ => directory_names(entries.drop_last()),
        }
    }
}

/// The directory names of the records of the year `year` that have reached
/// `min_status`, where one is given: what a query with these two limits selects.
pub fn select_dir_names(records: &Vec<ProjectRecord>, year: i32, min_status: Option<Status>) -> (names:
    Vec<String>)
    ensures
        texts(names@) == selected_names(records@, year, min_status),
{
    let mut names: Vec<String> = Vec::new();
    let mut i: usize = 0;
    assert(records@.take(0) =~= Seq::<ProjectRecord>::empty());
    while i < records.len()
        invariant
            i <= records.len(),
            texts(names@) == selected_names(records@.take(i as int), year, min_status),
        decreases records.len() - i,
    {
        let ghost before = texts(names@);
        assert(records@.take(i + 1).drop_last() =~= records@.take(i as int));
        if records[i].selected(year, min_status) {
            let name = records[i].dir_name();
            names.push(name);
            assert(texts(names@) =~= before.push(name@));
        }
        i = i + 1;
    }
    assert(records@.take(i as int) =~= records@);
    names
}

/// The set of the paths under `root_dir` of the directories `names`: each name is
/// joined to the root, and a path that several names give is kept once.
pub fn expected_set(root_dir: &str, names: &Vec<String>) -> (set: PathSet)
    ensures
        set.paths() == paths_under(root_dir@, texts(names@)),
        set@ == joined_all(root_dir@, texts(names@)).to_set(),
{
    let mut set = PathSet::new();
    let ghost all = joined_all(root_dir@, texts(names@));
    let mut i: usize = 0;
    assert(all.take(0) =~= Seq::<Seq<char>>::empty());
    while i < names.len()
        invariant
            i <= names.len(),
            all == joined_all(root_dir@, texts(names@)),
            set.paths() == first_occurrences(all.take(i as int)),
        decreases names.len() - i,
    {
        let path = join(root_dir, names[i].as_str());
        proof {
            let seen = all.take(i as int);
            assert(all.take(i + 1) =~= seen.push(path@));
            lemma_first_occurrences_push(seen, path@);
            lemma_first_occurrences_is_set(seen);
        }
        set.insert(path);
        i = i + 1;
    }
    proof {
        assert(all.take(i as int) =~= all);
        lemma_first_occurrences_is_set(all);
    }
    set
}

/// The set of the paths under `root_dir` of the entries among `entries` that are
/// directories. Entries that are no directories, and entries that could not be
/// read, are left out.
pub fn actual_set(root_dir: &str, entries: &Vec<RootEntry>) -> (set: PathSet)
    ensures
        set.paths() == paths_under(root_dir@, directory_names(entries@)),
        set@ == joined_all(root_dir@, directory_names(entries@)).to_set(),
{
    let mut names: Vec<String> = Vec::new();
    let mut i: usize = 0;
    assert(entries@.take(0) =~= Seq::<RootEntry>::empty());
    while i < entries.len()
        invariant
            i <= entries.len(),
            texts(names@) == directory_names(entries@.take(i as int)),
        decreases entries.len() - i,
    {
        let ghost before = texts(names@);
        assert(entries@.take(i + 1).drop_last() =~= entries@.take(i as int));
        match &entries[i] {
            RootEntry::Directory(name) => {
                names.push(name.clone());
                assert(texts(names@) =~= before.push(name@));
            },
            _ => {},
        }
        i = i + 1;
    }
    assert(entries@.take(i as int) =~= entries@);
    expected_set(root_dir, &names)
}

/// The directories that should exist, from what the database answered: the paths
/// under the root of `args` of the directory names in the rows. A failure to
/// connect and a failure of the query are handed on as they are.
pub fn get_db_projects(args: &Cli, reply: DbReply) -> (result: Result<PathSet, SyncError>)
    ensures
        match reply {
            DbReply::Rows(names) => {
                &&& result matches Ok(set)
                &&& set.paths() == paths_under(args.root_dir@, texts(names@))
                &&& set@ == joined_all(args.root_dir@, texts(names@)).to_set()
            },
            DbReply::ConnectionFailed(reason) => result == Result::<PathSet, SyncError>::Err(
                SyncError::Connection(reason),
            ),
            DbReply::QueryFailed(reason) => result == Result::<PathSet, SyncError>::Err(
                SyncError::Query(reason),
            ),
        },
{
    match reply {
        DbReply::Rows(names) => Ok(expected_set(args.root_dir.as_str(), &names)),
        DbReply::ConnectionFailed(reason) => Err(SyncError::Connection(reason)),
        DbReply::QueryFailed(reason) => Err(SyncError::Query(reason)),
    }
}

/// The directories that exist, from what the listing of `root_dir` gave: the paths
/// of the entries that are directories. A failure to list the root is handed on;
/// an entry that could not be read is passed over.
pub fn get_fs_projects(root_dir: &String, listing: Listing) -> (result: Result<PathSet, SyncError>)
    ensures
        match listing {
            Listing::Entries(entries) => {
                &&& result matches Ok(set)
                &&& set.paths() == paths_under(root_dir@, directory_names(entries@))
                &&& set@ == joined_all(root_dir@, directory_names(entries@)).to_set()
            },
            Listing::Failed(reason) => result == Result::<PathSet, SyncError>::Err(
                SyncError::Filesystem(reason),
            ),
        },
{
    match listing {
        Listing::Entries(entries) => Ok(actual_set(root_dir.as_str(), &entries)),
        Listing::Failed(reason) => Err(SyncError::Filesystem(reason)),
    }
}

} // verus!
