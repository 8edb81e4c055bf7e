//! The set of files to rename.
use std::path::PathBuf;
use vstd::prelude::*;

verus! {

/// `std::path::PathBuf`, carried through as an opaque value.
#[verifier::external_type_specification]
#[verifier::external_body]
pub struct ExPathBuf(PathBuf);

/// The files chosen for renaming.
pub struct SrrFileSet {
    pub file_set: Vec<PathBuf>,
}

/// The paths of the directory entries that are not directories, in order.
pub open spec fn files_of(entries: Seq<(PathBuf, bool)>) -> Seq<PathBuf>
    decreases entries.len(),
{
    if entries.len() == 0 {
        Seq::empty()
    } else if entries.last().1 {
        files_of(entries.drop_last())
    } else {
        files_of(entries.drop_last()).push(entries.last().0)
    }
}

/// The files of a listing are exactly the paths of its entries that are not
/// directories, in the order of the listing.
pub proof fn lemma_files_are_non_directories(entries: Seq<(PathBuf, bool)>)
    ensures
        files_of(entries) == entries.filter(|e: (PathBuf, bool)| !e.1).map_values(
            |e: (PathBuf, bool)| e.0,
        ),
    decreases entries.len(),
{
    reveal_with_fuel(Seq::filter, 1);
    if entries.len() > 0 {
        lemma_files_are_non_directories(entries.drop_last());
        let pred = |e: (PathBuf, bool)| !e.1;
        let get = |e: (PathBuf, bool)| e.0;
        let rest = entries.drop_last().filter(pred);
        if !entries.last().1 {
            assert(rest.push(entries.last()).map_values(get) =~= rest.map_values(get).push(
                entries.last().0,
            ));
        }
    }
}

/// No path of a listing's files comes from an entry marked as a directory
/// unless the same path is also listed as a file.
pub proof fn lemma_no_directory_kept(entries: Seq<(PathBuf, bool)>, i: int)
    requires
        0 <= i < files_of(entries).len(),
    ensures
        entries.contains((files_of(entries)[i], false)),
    decreases entries.len(),
{
    if entries.len() > 0 {
        let rest = files_of(entries.drop_last());
        if !entries.last().1 && i == rest.len() {
            assert(entries[entries.len() - 1] == (files_of(entries)[i], false));
        } else {
            lemma_no_directory_kept(entries.drop_last(), i);
            let j = choose|j: int|
                0 <= j < entries.drop_last().len() && entries.drop_last()[j] == (
                    files_of(entries)[i],
                    false,
                );
            assert(entries[j] == entries.drop_last()[j]);
        }
    }
}

impl SrrFileSet {
    /// An empty set.
    pub fn new() -> (res: SrrFileSet)
        ensures
            res.file_set@ == Seq::<PathBuf>::empty(),
    {
        SrrFileSet { file_set: Vec::new() }
    }

    /// The set of the one file at `file_path`, when that file exists.
    pub fn from_existing_path(file_path: PathBuf, exists: bool) -> (res: Option<SrrFileSet>)
        ensures
            exists <==> res is Some,
            res matches Some(set) ==> set.file_set@ == seq![file_path],
    {
        if exists {
            let mut file_set = Vec::new();
            file_set.push(file_path);
            Some(SrrFileSet { file_set })
        } else {
            None
        }
    }

    /// The set of the files of a directory listing: each entry is a path
    /// and whether it is a directory; the directories are left out and the
    /// other paths kept in order.
    pub fn from_listing(entries: Vec<(PathBuf, bool)>) -> (res: SrrFileSet)
        ensures
            res.file_set@ == files_of(entries@),
            res.file_set@ == entries@.filter(|e: (PathBuf, bool)| !e.1).map_values(
                |e: (PathBuf, bool)| e.0,
            ),
    {
        let ghost all = entries@;
        let mut entries = entries;
        let mut file_set: Vec<PathBuf> = Vec::new();
        let mut k: usize = 0;
        let n: usize = entries.len();
        while entries.len() > 0
            invariant
                n == all.len(),
                k + entries@.len() == n,
                entries@ == all.skip(k as int),
                file_set@ == files_of(all.take(k as int)),
            decreases entries@.len(),
        {
            let (path, is_dir) = entries.remove(0);
            proof {
                assert(all.take(k + 1).drop_last() =~= all.take(k as int));
                assert(all.take(k + 1).last() == all[k as int]);
                assert(all.skip(k + 1) =~= all.skip(k as int).remove(0));
            }
            if !is_dir {
                file_set.push(path);
            }
            k = k + 1;
        }
        assert(all.take(n as int) =~= all);
        proof {
            lemma_files_are_non_directories(all);
        }
        SrrFileSet { file_set }
    }
}

} // verus!
