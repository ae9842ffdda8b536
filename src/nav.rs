//! The listing of a directory's children and the navigation state over it.
use vstd::prelude::*;
use crate::entry::{FileOrDir, RawView, entry_path};
use crate::tree::{built_forest, group, group_upto, has_empty_dir, node_matches};
use vstd::string::StrSliceExecFns;
use crate::path::{contains_slash, has_slash, join_path, join_slash, parent_of, lemma_last_slash_bounds, seg_views};

verus! {

/// The children of the first directory, in pre-order from position `i` of
/// `forest` on, whose path is `scope`.
pub open spec fn find_dir(forest: Seq<FileOrDir>, scope: Seq<char>, i: int) -> Option<
    Seq<FileOrDir>,
>
    decreases forest, forest.len() - i,
{
    if i < 0 || i >= forest.len() {
        None
    } else {
        match forest[i] {
            FileOrDir::Dir { path, children, .. } => {
                if path@ == scope {
                    Some(children@)
                } else {
                    match find_dir(children@, scope, 0) {
                        Some(c) => Some(c),
                        None => find_dir(forest, scope, i + 1),
                    }
                }
            },
            FileOrDir::File { .. } => find_dir(forest, scope, i + 1),
        }
    }
}

/// The entries among the first `n` of `forest` whose path has no `/`.
pub open spec fn root_items(forest: Seq<FileOrDir>, n: int) -> Seq<FileOrDir>
    decreases n,
{
    if n <= 0 {
        Seq::empty()
    } else {
        let prev = root_items(forest, n - 1);
        if has_slash(entry_path(forest[n - 1])) {
            prev
        } else {
            prev.push(forest[n - 1])
        }
    }
}

/// What is listed at `scope`: at the root, the top-level entries without a
/// `/` in their path; elsewhere, the children of the directory whose path is
/// `scope`, or nothing when there is no such directory.
pub open spec fn listing(tree: Seq<FileOrDir>, scope: Seq<char>) -> Seq<FileOrDir> {
    if scope.len() == 0 {
        root_items(tree, tree.len() as int)
    } else {
        match find_dir(tree, scope, 0) {
            Some(c) => c,
            None => Seq::empty(),
        }
    }
}

/// The scope that a list of path segments names.
pub open spec fn scope_of(current_path: Seq<String>) -> Seq<char> {
    join_slash(seg_views(current_path))
}

fn find_children<'a>(forest: &'a Vec<FileOrDir>, scope: &String) -> (r: Option<
    &'a Vec<FileOrDir>,
>)
    ensures
        match r {
            Some(c) => find_dir(forest@, scope@, 0) == Some(c@),
            None => find_dir(forest@, scope@, 0) is None,
        },
    decreases forest@,
{
    let mut i: usize = 0;
    while i < forest.len()
        invariant
            i <= forest.len(),
            find_dir(forest@, scope@, 0) == find_dir(forest@, scope@, i as int),
        decreases forest.len() - i,
    {
        match &forest[i] {
            FileOrDir::Dir { path, children, .. } => {
                if *path == *scope {
                    return Some(children);
                }
                proof {
                    assert(decreases_to!(forest@ => forest@[i as int]));
                }
                match find_children(children, scope) {
                    Some(c) => {
                        return Some(c);
                    },
                    None => {},
                }
            },
            FileOrDir::File { .. } => {},
        }
        i = i + 1;
    }
    None
}

/// The entries listed under `current_path`, in order.
pub fn list_children<'a>(tree: &'a Vec<FileOrDir>, current_path: &Vec<String>) -> (r: Vec<
    &'a FileOrDir,
>)
    ensures
        r@.unref() == listing(tree@, scope_of(current_path@)),
{
    let scope = join_path(current_path);
    let mut r: Vec<&'a FileOrDir> = Vec::new();
    if scope.as_str().unicode_len() == 0 {
        let mut i: usize = 0;
        while i < tree.len()
            invariant
                i <= tree.len(),
                scope@.len() == 0,
                r@.unref() == root_items(tree@, i as int),
            decreases tree.len() - i,
        {
            let item = &tree[i];
            let ghost prev = r@;
            if !contains_slash(item.path()) {
                r.push(item);
                assert(r@.unref() =~= prev.unref().push(tree@[i as int]));
            }
            i = i + 1;
        }
    } else {
        match find_children(tree, &scope) {
            Some(children) => {
                let mut i: usize = 0;
                while i < children.len()
                    invariant
                        i <= children.len(),
                        r@.unref() =~= children@.subrange(0, i as int),
                    decreases children.len() - i,
                {
                    let ghost prev = r@;
                    r.push(&children[i]);
                    assert(r@.unref() =~= prev.unref().push(children@[i as int]));
                    assert(children@.subrange(0, i + 1) =~= children@.subrange(0, i as int).push(
                        children@[i as int],
                    ));
                    i = i + 1;
                }
                assert(children@.subrange(0, children.len() as int) == children@);
            },
            None => {},
        }
    }
    r
}

/// The raw entries among the first `n` of `raws` whose path has no `/`.
pub open spec fn slashless(raws: Seq<RawView>, n: int) -> Seq<RawView>
    decreases n,
{
    if n <= 0 {
        Seq::empty()
    } else {
        let prev = slashless(raws, n - 1);
        if has_slash(raws[n - 1].path) {
            prev
        } else {
            prev.push(raws[n - 1])
        }
    }
}

/// Listing the root of a built tree gives one node for each raw entry whose
/// path has no `/`, in archive order.
pub proof fn lemma_root_listing(raws: Seq<RawView>, tree: Seq<FileOrDir>)
    requires
        built_forest(raws, Seq::empty(), tree),
    ensures
        listing(tree, Seq::empty()).len() == slashless(raws, raws.len() as int).len(),
        forall|k: int|
            0 <= k < listing(tree, Seq::empty()).len() ==> node_matches(
                #[trigger] slashless(raws, raws.len() as int)[k],
                listing(tree, Seq::empty())[k],
            ),
{
    lemma_root_items_match(raws, tree, tree.len() as int);
    lemma_slashless_group(raws, raws.len() as int);
}

/// Every node of `forest`, at any depth, has a `/` in its path.
pub open spec fn all_nested_have_slash(forest: Seq<FileOrDir>) -> bool
    decreases forest,
{
    forall|i: int|
        0 <= i < forest.len() ==> {
            &&& has_slash(entry_path(#[trigger] forest[i]))
            &&& forest[i] is Dir ==> all_nested_have_slash(forest[i]->Dir_children@)
        }
}

/// Below the top level of a built tree every path holds a `/`, so the root
/// listing, which keeps the top-level entries without one, holds every node
/// of the tree whose path has no `/`, each once, and nothing else.
pub proof fn lemma_root_listing_covers_tree(raws: Seq<RawView>, tree: Seq<FileOrDir>)
    requires
        built_forest(raws, Seq::empty(), tree),
        !has_empty_dir(raws),
    ensures
        forall|i: int|
            0 <= i < tree.len() && #[trigger] tree[i] is Dir ==> all_nested_have_slash(
                tree[i]->Dir_children@,
            ),
        listing(tree, Seq::empty()) == root_items(tree, tree.len() as int),
{
    assert forall|i: int| 0 <= i < tree.len() && #[trigger] tree[i] is Dir implies all_nested_have_slash(
        tree[i]->Dir_children@,
    ) by {
        assert(node_matches(group(raws, Seq::empty())[i], tree[i]));
        let p = entry_path(tree[i]);
        lemma_group_member(raws, Seq::empty(), raws.len() as int, i);
        lemma_nested_have_slash(raws, p, tree[i]->Dir_children@);
    }
}

proof fn lemma_nested_have_slash(raws: Seq<RawView>, key: Seq<char>, forest: Seq<FileOrDir>)
    requires
        built_forest(raws, key, forest),
        key.len() > 0,
    ensures
        all_nested_have_slash(forest),
    decreases forest,
{
    crate::tree::lemma_group_parent(raws, key, raws.len() as int);
    assert forall|i: int| 0 <= i < forest.len() implies {
        &&& has_slash(entry_path(#[trigger] forest[i]))
        &&& forest[i] is Dir ==> all_nested_have_slash(forest[i]->Dir_children@)
    } by {
        assert(node_matches(group(raws, key)[i], forest[i]));
        let p = entry_path(forest[i]);
        lemma_last_slash_bounds(p);
        assert(parent_of(p) == key);
        if forest[i] is Dir {
            lemma_parent_nonempty_longer(p);
            lemma_nested_have_slash(raws, p, forest[i]->Dir_children@);
        }
    }
}

proof fn lemma_group_member(raws: Seq<RawView>, key: Seq<char>, n: int, j: int)
    requires
        0 <= n <= raws.len(),
        0 <= j < group_upto(raws, key, n).len(),
    ensures
        exists|k: int| 0 <= k < n && raws[k] == group_upto(raws, key, n)[j],
    decreases n,
{
    let g0 = group_upto(raws, key, n - 1);
    if j < g0.len() {
        lemma_group_member(raws, key, n - 1, j);
        let k = choose|k: int| 0 <= k < n - 1 && raws[k] == g0[j];
        assert(raws[k] == group_upto(raws, key, n)[j]);
    } else {
        assert(raws[n - 1] == group_upto(raws, key, n)[j]);
    }
}

proof fn lemma_parent_nonempty_longer(p: Seq<char>)
    requires
        parent_of(p).len() > 0,
    ensures
        p.len() > 0,
{
    lemma_last_slash_bounds(p);
}

proof fn lemma_root_items_match(raws: Seq<RawView>, tree: Seq<FileOrDir>, k: int)
    requires
        built_forest(raws, Seq::empty(), tree),
        0 <= k <= tree.len(),
    ensures
        root_items(tree, k).len() == slashless(group(raws, Seq::empty()), k).len(),
        forall|j: int|
            0 <= j < root_items(tree, k).len() ==> node_matches(
                #[trigger] slashless(group(raws, Seq::empty()), k)[j],
                root_items(tree, k)[j],
            ),
    decreases k,
{
    if k > 0 {
        lemma_root_items_match(raws, tree, k - 1);
        let g = group(raws, Seq::empty());
        assert(node_matches(g[k - 1], tree[k - 1]));
        assert(entry_path(tree[k - 1]) == g[k - 1].path);
        let a = root_items(tree, k - 1);
        let b = slashless(g, k - 1);
        assert forall|j: int| 0 <= j < root_items(tree, k).len() implies node_matches(
            #[trigger] slashless(g, k)[j],
            root_items(tree, k)[j],
        ) by {
            if j < a.len() {
                assert(node_matches(b[j], a[j]));
            }
        }
    }
}

proof fn lemma_slashless_push(s: Seq<RawView>, x: RawView, m: int)
    requires
        0 <= m <= s.len(),
    ensures
        slashless(s.push(x), m) == slashless(s, m),
    decreases m,
{
    if m > 0 {
        lemma_slashless_push(s, x, m - 1);
        assert(s.push(x)[m - 1] == s[m - 1]);
    }
}

proof fn lemma_slashless_group(raws: Seq<RawView>, n: int)
    requires
        0 <= n <= raws.len(),
    ensures
        slashless(group_upto(raws, Seq::empty(), n), group_upto(raws, Seq::empty(), n).len() as int)
            == slashless(raws, n),
    decreases n,
{
    if n > 0 {
        lemma_slashless_group(raws, n - 1);
        let g0 = group_upto(raws, Seq::empty(), n - 1);
        let r = raws[n - 1];
        lemma_last_slash_bounds(r.path);
        if parent_of(r.path) == Seq::<char>::empty() {
            lemma_slashless_push(g0, r, g0.len() as int);
            assert(g0.push(r)[g0.len() as int] == r);
        }
    }
}

} // verus!
