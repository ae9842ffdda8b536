//! Slash-separated archive paths: trimming, parent, file name, segments.
use vstd::prelude::*;
use vstd::string::StrSliceExecFns;
use vstd::string::StringExecFns;

verus! {

/// `p` with every trailing `/` removed.
pub open spec fn trim_slashes(p: Seq<char>) -> Seq<char>
    decreases p.len(),
{
    if p.len() > 0 && p.last() == '/' {
        trim_slashes(p.drop_last())
    } else {
        p
    }
}

/// Index of the last `/` in `p`, or -1 when there is none.
pub open spec fn last_slash(p: Seq<char>) -> int
    decreases p.len(),
{
    if p.len() == 0 {
        -1
    } else if p.last() == '/' {
        p.len() - 1
    } else {
        last_slash(p.drop_last())
    }
}

/// Does `p` contain a `/` anywhere?
pub open spec fn has_slash(p: Seq<char>) -> bool {
    exists|i: int| 0 <= i < p.len() && p[i] == '/'
}

/// Everything before the last `/` (empty for a path without one).
pub open spec fn parent_of(p: Seq<char>) -> Seq<char> {
    if last_slash(p) < 0 {
        Seq::empty()
    } else {
        p.subrange(0, last_slash(p))
    }
}

/// Everything after the last `/`.
pub open spec fn file_name_of(p: Seq<char>) -> Seq<char> {
    p.subrange(last_slash(p) + 1, p.len() as int)
}

/// Metadata shadow files written by some archivers start with `._`.
pub open spec fn is_indicator_name(n: Seq<char>) -> bool {
    n.len() >= 2 && n[0] == '.' && n[1] == '_'
}

/// The pieces of `p` between slashes, as `str::split('/')` gives them.
pub open spec fn split_slash(p: Seq<char>) -> Seq<Seq<char>>
    decreases p.len(),
    via split_slash_decreases
{
    if last_slash(p) < 0 {
        seq![p]
    } else {
        split_slash(p.subrange(0, last_slash(p))).push(
            p.subrange(last_slash(p) + 1, p.len() as int),
        )
    }
}

#[via_fn]
proof fn split_slash_decreases(p: Seq<char>) {
    lemma_last_slash_bounds(p);
}

/// The segments joined with `/` between them (empty for no segment).
pub open spec fn join_slash(segs: Seq<Seq<char>>) -> Seq<char>
    decreases segs.len(),
{
    if segs.len() == 0 {
        Seq::empty()
    } else if segs.len() == 1 {
        segs[0]
    } else {
        join_slash(segs.drop_last()) + seq!['/'] + segs.last()
    }
}

/// The character sequences of a list of strings.
pub open spec fn seg_views(v: Seq<String>) -> Seq<Seq<char>> {
    v.map_values(|s: String| s@)
}

pub proof fn lemma_last_slash_bounds(p: Seq<char>)
    ensures
        -1 <= last_slash(p) < p.len(),
        last_slash(p) >= 0 ==> p[last_slash(p)] == '/',
        forall|i: int| last_slash(p) < i < p.len() ==> p[i] != '/',
        last_slash(p) < 0 <==> !has_slash(p),
    decreases p.len(),
{
    if p.len() > 0 && p.last() != '/' {
        lemma_last_slash_bounds(p.drop_last());
        assert forall|i: int| last_slash(p) < i < p.len() implies p[i] != '/' by {
            if i < p.len() - 1 {
                assert(p[i] == p.drop_last()[i]);
            }
        }
        if has_slash(p) {
            let i = choose|i: int| 0 <= i < p.len() && p[i] == '/';
            assert(p.drop_last()[i] == '/');
        }
        if has_slash(p.drop_last()) {
            let i = choose|i: int| 0 <= i < p.drop_last().len() && p.drop_last()[i] == '/';
            assert(p[i] == '/');
        }
    }
}

/// Position of the last `/` in `s`.
fn find_last_slash(s: &str) -> (r: Option<usize>)
    ensures
        match r {
            Some(k) => k == last_slash(s@),
            None => last_slash(s@) < 0,
        },
{
    proof {
        lemma_last_slash_bounds(s@);
    }
    let n = s.unicode_len();
    let mut i: usize = n;
    while i > 0
        invariant
            i <= n == s@.len(),
            forall|j: int| i <= j < n ==> s@[j] != '/',
        decreases i,
    {
        if s.get_char(i - 1) == '/' {
            proof {
                lemma_last_slash_is_last(s@, i - 1);
            }
            return Some(i - 1);
        }
        i = i - 1;
    }
    proof {
        if last_slash(s@) >= 0 {
            assert(s@[last_slash(s@)] == '/');
        }
    }
    None
}

pub proof fn lemma_last_slash_at(p: Seq<char>, k: int)
    requires
        0 <= k < p.len(),
        p[k] == '/',
        forall|j: int| k < j < p.len() ==> p[j] != '/',
    ensures
        last_slash(p) == k,
{
    lemma_last_slash_is_last(p, k);
}

proof fn lemma_last_slash_is_last(p: Seq<char>, k: int)
    requires
        0 <= k < p.len(),
        p[k] == '/',
        forall|j: int| k < j < p.len() ==> p[j] != '/',
    ensures
        last_slash(p) == k,
    decreases p.len(),
{
    if k < p.len() - 1 {
        assert(p.drop_last()[k] == '/');
        lemma_last_slash_is_last(p.drop_last(), k);
    }
}

/// Whether `s` holds a `/`.
pub fn contains_slash(s: &str) -> (r: bool)
    ensures
        r == has_slash(s@),
{
    proof {
        lemma_last_slash_bounds(s@);
    }
    find_last_slash(s).is_some()
}

/// Removes every trailing `/`.
pub fn trim_trailing_slashes(s: &str) -> (r: String)
    ensures
        r@ == trim_slashes(s@),
{
    let n = s.unicode_len();
    let mut end: usize = n;
    assert(s@.subrange(0, n as int) =~= s@);
    while end > 0 && s.get_char(end - 1) == '/'
        invariant
            end <= n == s@.len(),
            trim_slashes(s@.subrange(0, end as int)) == trim_slashes(s@),
        decreases end,
    {
        assert(s@.subrange(0, end as int).drop_last() == s@.subrange(0, end - 1));
        end = end - 1;
    }
    String::from_str(s.substring_char(0, end))
}

/// Everything before the last `/`, or the empty string.
pub fn parent_path(s: &str) -> (r: String)
    ensures
        r@ == parent_of(s@),
{
    proof {
        lemma_last_slash_bounds(s@);
    }
    match find_last_slash(s) {
        Some(k) => String::from_str(s.substring_char(0, k)),
        None => String::new(),
    }
}

/// Whether the last segment of `s` names an indicator file.
pub fn is_indicator_path(s: &str) -> (r: bool)
    ensures
        r == is_indicator_name(file_name_of(s@)),
{
    proof {
        lemma_last_slash_bounds(s@);
    }
    let n = s.unicode_len();
    let start: usize = match find_last_slash(s) {
        Some(k) => k + 1,
        None => 0,
    };
    if n - start >= 2 {
        s.get_char(start) == '.' && s.get_char(start + 1) == '_'
    } else {
        false
    }
}

/// The segments of `s` between slashes.
pub fn split_path(s: &str) -> (r: Vec<String>)
    ensures
        seg_views(r@) == split_slash(s@),
    decreases s@.len(),
{
    proof {
        lemma_last_slash_bounds(s@);
    }
    match find_last_slash(s) {
        None => {
            let v = vec![String::from_str(s)];
            assert(seg_views(v@) =~= seq![s@]);
            v
        },
        Some(k) => {
            let n = s.unicode_len();
            let head = s.substring_char(0, k);
            let mut v = split_path(head);
            let ghost before = v@;
            v.push(String::from_str(s.substring_char(k + 1, n)));
            assert(seg_views(v@) =~= seg_views(before).push(s@.subrange(k + 1, n as int)));
            v
        },
    }
}

/// The segments joined with `/`.
pub fn join_path(segs: &Vec<String>) -> (r: String)
    ensures
        r@ == join_slash(seg_views(segs@)),
{
    let mut r = String::new();
    let mut i: usize = 0;
    while i < segs.len()
        invariant
            i <= segs.len(),
            r@ == join_slash(seg_views(segs@.subrange(0, i as int))),
        decreases segs.len() - i,
    {
        let ghost prev = seg_views(segs@.subrange(0, i as int));
        if i > 0 {
            let slash = "/";
            proof {
                reveal_strlit("/");
            }
            r.append(slash);
        }
        r.append(segs[i].as_str());
        proof {
            let next = seg_views(segs@.subrange(0, i + 1));
            assert(next.drop_last() =~= prev);
            assert(next.last() == segs@[i as int]@);
            if i == 0 {
                assert(next.len() == 1);
            }
        }
        i = i + 1;
    }
    assert(segs@.subrange(0, segs.len() as int) =~= segs@);
    r
}

} // verus!
