//! Groups raw entries by parent path and assembles the directory tree.
use vstd::prelude::*;
use vstd::string::StrSliceExecFns;
use crate::archive::ArchiveError;
use crate::entry::{EntryKind, FileOrDir, RawEntry, RawView, entry_path, raw_views};
use crate::path::{parent_of, parent_path, lemma_last_slash_bounds};

verus! {

/// The entries among the first `n` of `raws` whose parent is `key`, in order.
pub open spec fn group_upto(raws: Seq<RawView>, key: Seq<char>, n: int) -> Seq<RawView>
    decreases n,
{
    if n <= 0 {
        Seq::empty()
    } else {
        let g = group_upto(raws, key, n - 1);
        if parent_of(raws[n - 1].path) == key {
            g.push(raws[n - 1])
        } else {
            g
        }
    }
}

/// The entries of `raws` whose parent is `key`, in archive order.
pub open spec fn group(raws: Seq<RawView>, key: Seq<char>) -> Seq<RawView> {
    group_upto(raws, key, raws.len() as int)
}

/// Whether some directory record has an empty path.
pub open spec fn has_empty_dir(raws: Seq<RawView>) -> bool {
    exists|i: int|
        0 <= i < raws.len() && raws[i].kind == EntryKind::Directory && raws[i].path.len() == 0
}

/// `e` stands for the raw entry `r`: same kind and path, and for a file the
/// same size and time.
pub open spec fn node_matches(r: RawView, e: FileOrDir) -> bool {
    match e {
        FileOrDir::File { path, size, modified } => {
            &&& r.kind == EntryKind::File
            &&& path@ == r.path
            &&& size == r.size
            &&& modified == r.modified
        },
        FileOrDir::Dir { path, expanded, .. } => {
            &&& r.kind == EntryKind::Directory
            &&& path@ == r.path
            &&& !expanded
        },
    }
}

/// `forest` is what the entries of `raws` under `key` build: one node per
/// entry of the group, in order, each directory holding its own group.
pub open spec fn built_forest(raws: Seq<RawView>, key: Seq<char>, forest: Seq<FileOrDir>) -> bool
    decreases forest,
{
    &&& forest.len() == group(raws, key).len()
    &&& forall|i: int|
        0 <= i < forest.len() ==> {
            &&& #[trigger] node_matches(group(raws, key)[i], forest[i])
            &&& forest[i] is Dir ==> built_forest(
                raws,
                entry_path(forest[i]),
                forest[i]->Dir_children@,
            )
        }
}

/// The longest path among `raws`.
pub open spec fn max_path_len(raws: Seq<RawView>) -> nat
    decreases raws.len(),
{
    if raws.len() == 0 {
        0
    } else {
        let m = max_path_len(raws.drop_last());
        if raws.last().path.len() > m {
            raws.last().path.len()
        } else {
            m
        }
    }
}

proof fn lemma_max_path_len(raws: Seq<RawView>)
    ensures
        forall|i: int| 0 <= i < raws.len() ==> raws[i].path.len() <= max_path_len(raws),
    decreases raws.len(),
{
    if raws.len() > 0 {
        lemma_max_path_len(raws.drop_last());
        assert forall|i: int| 0 <= i < raws.len() implies raws[i].path.len() <= max_path_len(
            raws,
        ) by {
            if i < raws.len() - 1 {
                assert(raws[i] == raws.drop_last()[i]);
            }
        }
    }
}

/// Every member of a group names the group's key as its parent.
pub proof fn lemma_group_parent(raws: Seq<RawView>, key: Seq<char>, n: int)
    ensures
        forall|j: int|
            0 <= j < group_upto(raws, key, n).len() ==> parent_of(
                #[trigger] group_upto(raws, key, n)[j].path,
            ) == key,
    decreases n,
{
    if n > 0 {
        lemma_group_parent(raws, key, n - 1);
    }
}

/// A child's path is longer than its parent's, unless both are empty.
proof fn lemma_parent_shorter(p: Seq<char>)
    ensures
        parent_of(p).len() < p.len() || p.len() == 0,
{
    lemma_last_slash_bounds(p);
}

/// Every directory's children name that directory as their parent, all the
/// way down.
pub open spec fn parents_consistent(forest: Seq<FileOrDir>) -> bool
    decreases forest,
{
    forall|i: int|
        0 <= i < forest.len() && #[trigger] forest[i] is Dir ==> {
            &&& forall|j: int|
                0 <= j < forest[i]->Dir_children@.len() ==> parent_of(
                    entry_path(#[trigger] forest[i]->Dir_children@[j]),
                ) == entry_path(forest[i])
            &&& parents_consistent(forest[i]->Dir_children@)
        }
}

/// In a built tree, each entry's parent path is the path of the directory
/// whose children hold it, and the entries of a level all have that level's
/// path as parent.
pub proof fn lemma_built_tree_parents(raws: Seq<RawView>, key: Seq<char>, forest: Seq<FileOrDir>)
    requires
        built_forest(raws, key, forest),
    ensures
        parents_consistent(forest),
        forall|i: int| 0 <= i < forest.len() ==> parent_of(entry_path(#[trigger] forest[i])) == key,
    decreases forest,
{
    lemma_group_parent(raws, key, raws.len() as int);
    assert forall|i: int| 0 <= i < forest.len() implies parent_of(
        entry_path(#[trigger] forest[i]),
    ) == key by {
        assert(node_matches(group(raws, key)[i], forest[i]));
    }
    assert forall|i: int| 0 <= i < forest.len() && #[trigger] forest[i] is Dir implies {
        &&& forall|j: int|
            0 <= j < forest[i]->Dir_children@.len() ==> parent_of(
                entry_path(#[trigger] forest[i]->Dir_children@[j]),
            ) == entry_path(forest[i])
        &&& parents_consistent(forest[i]->Dir_children@)
    } by {
        assert(node_matches(group(raws, key)[i], forest[i]));
        lemma_built_tree_parents(raws, entry_path(forest[i]), forest[i]->Dir_children@);
    }
}

/// The nodes that the entries of `raws` under `key` build.
fn build_level(raws: &Vec<RawEntry>, key: &String, Ghost(bound): Ghost<nat>) -> (r: Vec<FileOrDir>)
    requires
        !has_empty_dir(raw_views(raws@)),
        forall|i: int| 0 <= i < raws.len() ==> raw_views(raws@)[i].path.len() <= bound,
        key@.len() <= bound,
    ensures
        built_forest(raw_views(raws@), key@, r@),
    decreases bound - key@.len(),
{
    let mut r: Vec<FileOrDir> = Vec::new();
    let mut i: usize = 0;
    while i < raws.len()
        invariant
            i <= raws.len(),
            !has_empty_dir(raw_views(raws@)),
            forall|k: int| 0 <= k < raws.len() ==> raw_views(raws@)[k].path.len() <= bound,
            key@.len() <= bound,
            r@.len() == group_upto(raw_views(raws@), key@, i as int).len(),
            forall|j: int|
                0 <= j < r@.len() ==> {
                    &&& #[trigger] node_matches(group_upto(raw_views(raws@), key@, i as int)[j], r@[j])
                    &&& r@[j] is Dir ==> built_forest(
                        raw_views(raws@),
                        entry_path(r@[j]),
                        r@[j]->Dir_children@,
                    )
                },
        decreases raws.len() - i,
    {
        let raw = &raws[i];
        assert(raw_views(raws@)[i as int] == raw@);
        let parent = parent_path(raw.path.as_str());
        let ghost before = r@;
        let ghost g0 = group_upto(raw_views(raws@), key@, i as int);
        if parent == *key {
            match raw.kind {
                EntryKind::Directory => {
                    proof {
                        lemma_parent_shorter(raw.path@);
                        assert(raw.path@.len() > 0);
                    }
                    let children = build_level(raws, &raw.path, Ghost(bound));
                    r.push(FileOrDir::Dir { path: raw.path.clone(), expanded: false, children });
                },
                EntryKind::File => {
                    r.push(
                        FileOrDir::File {
                            path: raw.path.clone(),
                            size: raw.size,
                            modified: raw.modified,
                        },
                    );
                },
            }
            proof {
                let g = group_upto(raw_views(raws@), key@, i + 1);
                assert(g == g0.push(raw_views(raws@)[i as int]));
                assert(node_matches(g[before.len() as int], r@[before.len() as int]));
                assert forall|j: int| 0 <= j < r@.len() implies {
                    &&& #[trigger] node_matches(g[j], r@[j])
                    &&& r@[j] is Dir ==> built_forest(
                        raw_views(raws@),
                        entry_path(r@[j]),
                        r@[j]->Dir_children@,
                    )
                } by {
                    if j < before.len() {
                        assert(r@[j] == before[j]);
                        assert(g[j] == g0[j]);
                    }
                }
            }
        } else {
            assert(group_upto(raw_views(raws@), key@, i + 1) == g0);
        }
        assert(forall|j: int|
                0 <= j < r@.len() ==> {
                    &&& #[trigger] node_matches(group_upto(raw_views(raws@), key@, i + 1)[j], r@[j])
                    &&& r@[j] is Dir ==> built_forest(
                        raw_views(raws@),
                        entry_path(r@[j]),
                        r@[j]->Dir_children@,
                    )
                });
        i = i + 1;
    }
    assert(group(raw_views(raws@), key@) == group_upto(raw_views(raws@), key@, i as int));
    assert forall|j: int| 0 <= j < r@.len() implies {
        &&& #[trigger] node_matches(group(raw_views(raws@), key@)[j], r@[j])
        &&& r@[j] is Dir ==> built_forest(raw_views(raws@), entry_path(r@[j]), r@[j]->Dir_children@)
    } by {}
    r
}

/// Builds the root forest: the entries without a parent directory, each
/// directory carrying the entries below it. Fails when a directory record has
/// an empty path.
pub fn build_tree(raws: &Vec<RawEntry>) -> (r: Result<Vec<FileOrDir>, ArchiveError>)
    ensures
        match r {
            Ok(forest) => !has_empty_dir(raw_views(raws@)) && built_forest(raw_views(raws@), Seq::empty(), forest@),
            Err(e) => has_empty_dir(raw_views(raws@)) && e is Malformed,
        },
{
    let mut i: usize = 0;
    while i < raws.len()
        invariant
            i <= raws.len(),
            forall|k: int|
                0 <= k < i ==> !(raw_views(raws@)[k].kind == EntryKind::Directory && raw_views(raws@)[k].path.len()
                    == 0),
        decreases raws.len() - i,
    {
        assert(raw_views(raws@)[i as int] == raws@[i as int]@);
        if raws[i].kind == EntryKind::Directory && raws[i].path.as_str().unicode_len() == 0 {
            return Err(ArchiveError::Malformed);
        }
        i = i + 1;
    }
    proof {
        lemma_max_path_len(raw_views(raws@));
    }
    let root = String::new();
    Ok(build_level(raws, &root, Ghost(max_path_len(raw_views(raws@)))))
}

} // verus!
