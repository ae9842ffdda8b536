//! Navigation state: the current directory, the selection, and the key
//! commands that change them.
use vstd::prelude::*;
use crate::entry::{Args, FileOrDir, RawView, entry_path};
use crate::nav::{find_dir, list_children, listing, root_items, scope_of};
use crate::path::{has_slash, join_slash, last_slash, lemma_last_slash_at, parent_of,
    lemma_last_slash_bounds, seg_views, split_path, split_slash};
use crate::tree::{built_forest, lemma_built_tree_parents, parents_consistent};

verus! {

/// The browser's state: the tree, where in it the user is, and which row is
/// selected.
pub struct App {
    pub running: bool,
    pub tar_contents: Vec<FileOrDir>,
    pub selected: Option<usize>,
    pub current_path: Vec<String>,
    pub debug: bool,
}

/// The keys the browser reacts to; anything else is `Other`.
#[derive(Clone, Copy, Debug, PartialEq, Eq)]
pub enum Key {
    Char(char),
    Up,
    Down,
    Enter,
    Right,
    Backspace,
    Left,
    Other,
}

/// The selection after moving up through `n` listed rows: one row up,
/// wrapping from the first to the last, and from past the end to the last;
/// unchanged when nothing is listed.
pub open spec fn up_index(sel: Option<usize>, n: nat) -> Option<usize> {
    if n == 0 {
        sel
    } else {
        Some(
            match sel {
                Some(s) => if s == 0 || s >= n {
                    (n - 1) as usize
                } else {
                    (s - 1) as usize
                },
                None => 0,
            },
        )
    }
}

/// The selection after moving down through `n` listed rows: one row down,
/// wrapping from the last (or beyond) to the first; unchanged when nothing is
/// listed.
pub open spec fn down_index(sel: Option<usize>, n: nat) -> Option<usize> {
    if n == 0 {
        sel
    } else {
        Some(
            match sel {
                Some(s) => if s >= n - 1 {
                    0
                } else {
                    (s + 1) as usize
                },
                None => 0,
            },
        )
    }
}

/// The entries listed in the state's current directory.
pub open spec fn listed(app: App) -> Seq<FileOrDir> {
    listing(app.tar_contents@, scope_of(app.current_path@))
}

/// `after` is `before` after entering the selected entry: when it is a listed
/// directory, the path becomes that directory's segments and the first row
/// is selected; otherwise nothing changes.
pub open spec fn entered(before: App, after: App) -> bool {
    let l = listed(before);
    if before.selected is Some && before.selected->0 < l.len() && l[before.selected->0 as int] is Dir {
        &&& seg_views(after.current_path@) == split_slash(entry_path(l[before.selected->0 as int]))
        &&& after.selected == Some(0usize)
        &&& after.tar_contents == before.tar_contents
        &&& after.running == before.running
        &&& after.debug == before.debug
    } else {
        after == before
    }
}

/// `after` is `before` after going back: the last segment is dropped and the first
/// row selected; at the root nothing changes.
pub open spec fn went_back(before: App, after: App) -> bool {
    if before.current_path.len() > 0 {
        &&& after.current_path@ == before.current_path@.drop_last()
        &&& after.selected == Some(0usize)
        &&& after.tar_contents == before.tar_contents
        &&& after.running == before.running
        &&& after.debug == before.debug
    } else {
        after == before
    }
}

impl App {
    /// A running browser at the root of `tar_contents`, first row selected.
    pub fn new(args: Args, tar_contents: Vec<FileOrDir>) -> (r: App)
        ensures
            r.running,
            r.tar_contents == tar_contents,
            r.selected == Some(0usize),
            r.current_path@.len() == 0,
            r.debug == args.debug,
    {
        App { running: true, tar_contents, selected: Some(0), current_path: Vec::new(), debug: args.debug }
    }

    /// The entries of the current directory, in order.
    pub fn display_contents(&self) -> (r: Vec<&FileOrDir>)
        ensures
            r@.unref() == listed(*self),
    {
        list_children(&self.tar_contents, &self.current_path)
    }

    /// Enters the selected entry when it is a directory.
    pub fn enter_directory(&mut self)
        ensures
            entered(*old(self), *final(self)),
    {
        match self.selected {
            Some(selected) => {
                let contents = self.display_contents();
                if selected < contents.len() {
                    match contents[selected] {
                        FileOrDir::Dir { path, .. } => {
                            let components = split_path(path.as_str());
                            self.current_path = components;
                            self.selected = Some(0);
                        },
                        FileOrDir::File { .. } => {},
                    }
                }
            },
            None => {},
        }
    }

    /// Goes up one directory; does nothing at the root.
    pub fn go_back(&mut self)
        ensures
            went_back(*old(self), *final(self)),
    {
        if self.current_path.len() > 0 {
            self.current_path.pop();
            self.selected = Some(0);
        }
    }

    /// Moves the selection one row up, wrapping to the last row.
    pub fn move_up(&mut self)
        ensures
            *final(self) == (App {
                selected: up_index(old(self).selected, listed(*old(self)).len()),
                ..*old(self)
            }),
    {
        let n = self.display_contents().len();
        let previous: usize = match self.selected {
            Some(selected) => if selected == 0 || selected >= n {
                if n > 0 {
                    n - 1
                } else {
                    0
                }
            } else {
                selected - 1
            },
            None => 0,
        };
        if n > 0 {
            self.selected = Some(previous);
        }
    }

    /// Moves the selection one row down, wrapping to the first row.
    pub fn move_down(&mut self)
        ensures
            *final(self) == (App {
                selected: down_index(old(self).selected, listed(*old(self)).len()),
                ..*old(self)
            }),
    {
        let n = self.display_contents().len();
        let next: usize = match self.selected {
            Some(selected) => if n == 0 || selected >= n - 1 {
                0
            } else {
                selected + 1
            },
            None => 0,
        };
        if n > 0 {
            self.selected = Some(next);
        }
    }

    /// Periodic work between key events: there is none.
    pub fn tick(&mut self)
        ensures
            *final(self) == *old(self),
    {
    }

    /// Stops the browser.
    pub fn quit(&mut self)
        ensures
            *final(self) == (App { running: false, ..*old(self) }),
    {
        self.running = false;
    }
}

/// What a key does: `q` quits, up or `k` and down or `j` move the selection,
/// enter or right enters, backspace or left goes back; other keys do nothing.
pub open spec fn key_effect(key: Key, before: App, after: App) -> bool {
    match key {
        Key::Char('q') => after == (App { running: false, ..before }),
        Key::Up | Key::Char('k') => after == (App {
            selected: up_index(before.selected, listed(before).len()),
            ..before
        }),
        Key::Down | Key::Char('j') => after == (App {
            selected: down_index(before.selected, listed(before).len()),
            ..before
        }),
        Key::Enter | Key::Right => entered(before, after),
        Key::Backspace | Key::Left => went_back(before, after),
        _ => after == before,
    }
}

/// Applies one key to the state.
pub fn handle_key_events(key: Key, app: &mut App)
    ensures
        key_effect(key, *old(app), *final(app)),
{
    match key {
        Key::Char('q') => app.quit(),
        Key::Up | Key::Char('k') => app.move_up(),
        Key::Down | Key::Char('j') => app.move_down(),
        Key::Enter | Key::Right => app.enter_directory(),
        Key::Backspace | Key::Left => app.go_back(),
        _ => {},
    }
}

/// Moving up through a single listed row selects that row, whatever the
/// selection was before.
pub proof fn lemma_move_up_single(sel: Option<usize>)
    ensures
        up_index(sel, 1) == Some(0usize),
{
}

/// Path segments that a current path can hold: non-empty and without `/`.
pub open spec fn valid_segments(segs: Seq<Seq<char>>) -> bool {
    forall|i: int| 0 <= i < segs.len() ==> segs[i].len() > 0 && !has_slash(#[trigger] segs[i])
}

/// Entering a listed directory of a built tree and going straight back
/// restores the path that was current before, with the first row selected.
pub proof fn lemma_enter_then_back(raws: Seq<RawView>, start: App, inside: App, back: App)
    requires
        built_forest(raws, Seq::empty(), start.tar_contents@),
        valid_segments(seg_views(start.current_path@)),
        start.selected is Some,
        start.selected->0 < listed(start).len(),
        listed(start)[start.selected->0 as int] is Dir,
        entered(start, inside),
        went_back(inside, back),
    ensures
        seg_views(back.current_path@) == seg_views(start.current_path@),
        back.selected == Some(0usize),
{
    let tree = start.tar_contents@;
    let cur = seg_views(start.current_path@);
    let d = listed(start)[start.selected->0 as int];
    let p = entry_path(d);
    lemma_last_slash_bounds(p);
    lemma_split_nonempty(p);
    assert(seg_views(inside.current_path@).len() == inside.current_path@.len());
    assert(seg_views(back.current_path@) =~= seg_views(inside.current_path@).drop_last());
    if cur.len() == 0 {
        assert(scope_of(start.current_path@) == join_slash(cur));
        lemma_root_items_slashless(tree, tree.len() as int);
        assert(!has_slash(p));
        assert(split_slash(p) == seq![p]);
        assert(seg_views(back.current_path@) =~= cur);
    } else {
        lemma_join_nonempty(cur);
        let scope = scope_of(start.current_path@);
        lemma_built_tree_parents(raws, Seq::empty(), tree);
        lemma_find_dir_parent(tree, scope, 0);
        assert(parent_of(p) == scope);
        assert(last_slash(p) >= 0);
        assert(split_slash(p).drop_last() == split_slash(parent_of(p)));
        lemma_split_join(cur);
    }
}

proof fn lemma_split_nonempty(p: Seq<char>)
    ensures
        split_slash(p).len() >= 1,
    decreases p.len(),
{
    lemma_last_slash_bounds(p);
    if last_slash(p) >= 0 {
        lemma_split_nonempty(p.subrange(0, last_slash(p)));
    }
}

proof fn lemma_root_items_slashless(forest: Seq<FileOrDir>, n: int)
    ensures
        forall|k: int|
            0 <= k < root_items(forest, n).len() ==> !has_slash(
                entry_path(#[trigger] root_items(forest, n)[k]),
            ),
    decreases n,
{
    if n > 0 {
        lemma_root_items_slashless(forest, n - 1);
        let prev = root_items(forest, n - 1);
        assert forall|k: int| 0 <= k < root_items(forest, n).len() implies !has_slash(
            entry_path(#[trigger] root_items(forest, n)[k]),
        ) by {
            if k < prev.len() {
                assert(root_items(forest, n)[k] == prev[k]);
            }
        }
    }
}

proof fn lemma_join_nonempty(segs: Seq<Seq<char>>)
    requires
        segs.len() > 0,
        valid_segments(segs),
    ensures
        join_slash(segs).len() > 0,
{
    assert(segs[segs.len() - 1].len() > 0);
}

proof fn lemma_find_dir_parent(forest: Seq<FileOrDir>, scope: Seq<char>, i: int)
    requires
        parents_consistent(forest),
        find_dir(forest, scope, i) is Some,
    ensures
        forall|k: int|
            0 <= k < find_dir(forest, scope, i)->Some_0.len() ==> parent_of(
                entry_path(#[trigger] find_dir(forest, scope, i)->Some_0[k]),
            ) == scope,
    decreases forest, forest.len() - i,
{
    if 0 <= i < forest.len() {
        match forest[i] {
            FileOrDir::Dir { path, children, .. } => {
                assert(forest[i] is Dir);
                if path@ != scope {
                    if find_dir(children@, scope, 0) is Some {
                        assert(decreases_to!(forest => forest[i]));
                        lemma_find_dir_parent(children@, scope, 0);
                    } else {
                        lemma_find_dir_parent(forest, scope, i + 1);
                    }
                }
            },
            FileOrDir::File { .. } => {
                lemma_find_dir_parent(forest, scope, i + 1);
            },
        }
    }
}

proof fn lemma_split_join(segs: Seq<Seq<char>>)
    requires
        segs.len() > 0,
        valid_segments(segs),
    ensures
        split_slash(join_slash(segs)) == segs,
    decreases segs.len(),
{
    if segs.len() == 1 {
        lemma_last_slash_bounds(segs[0]);
        assert(split_slash(segs[0]) == seq![segs[0]]);
        assert(seq![segs[0]] =~= segs);
    } else {
        let init = segs.drop_last();
        let last = segs.last();
        assert(!has_slash(last));
        assert(valid_segments(init));
        lemma_split_join(init);
        let head = join_slash(init);
        let p = join_slash(segs);
        assert(p == head + seq!['/'] + last);
        let k = head.len() as int;
        assert forall|j: int| k < j < p.len() implies p[j] != '/' by {
            assert(p[j] == last[j - k - 1]);
        }
        lemma_last_slash_at(p, k);
        assert(p.subrange(0, k) =~= head);
        assert(p.subrange(k + 1, p.len() as int) =~= last);
        assert(segs =~= init.push(last));
    }
}

} // verus!
