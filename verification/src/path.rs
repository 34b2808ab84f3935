//! Paths as a client writes them: split at `/`, and reduced to a leaf name.

use vstd::prelude::*;
use vstd::string::StrSliceExecFns;

use crate::text::chars_of;
use crate::text::same_text;

verus! {

/// The number of characters before the first `/` of `s`, or before its end.
pub open spec fn run_len(s: Seq<char>) -> nat
    decreases s.len(),
{
    if s.len() == 0 || s[0] == '/' {
        0
    } else {
        1 + run_len(s.drop_first())
    }
}

/// The non-empty pieces of `s` between its `/` characters, in order.
pub open spec fn segments(s: Seq<char>) -> Seq<Seq<char>>
    decreases s.len(),
    via segments_decreases
{
    if s.len() == 0 {
        Seq::empty()
    } else if s[0] == '/' {
        segments(s.drop_first())
    } else {
        seq![s.take(run_len(s) as int)] + segments(s.skip(run_len(s) as int))
    }
}

#[via_fn]
proof fn segments_decreases(s: Seq<char>) {
    lemma_run_len_bounds(s);
}

/// A run ends inside the text, and holds no `/`.
pub proof fn lemma_run_len_bounds(s: Seq<char>)
    ensures
        run_len(s) <= s.len(),
        s.len() > 0 && s[0] != '/' ==> run_len(s) > 0,
        forall|j: int| 0 <= j < run_len(s) ==> s[j] != '/',
        run_len(s) < s.len() ==> s[run_len(s) as int] == '/',
    decreases s.len(),
{
    if s.len() != 0 && s[0] != '/' {
        let rest = s.drop_first();
        lemma_run_len_bounds(rest);
        assert forall|j: int| 0 <= j < run_len(s) implies s[j] != '/' by {
            if j > 0 {
                assert(rest[j - 1] == s[j]);
            }
        }
    }
}

/// A stretch without `/` that ends at a `/` or at the end is the run.
pub proof fn lemma_run_len_is(s: Seq<char>, k: int)
    requires
        0 <= k <= s.len(),
        forall|j: int| 0 <= j < k ==> s[j] != '/',
        k == s.len() || s[k] == '/',
    ensures
        run_len(s) == k,
    decreases k,
{
    if k > 0 {
        let rest = s.drop_first();
        lemma_run_len_is(rest, k - 1);
    }
}

/// Every segment is non-empty and holds no `/`.
pub proof fn lemma_segments_plain(s: Seq<char>)
    ensures
        forall|i: int|
            0 <= i < segments(s).len() ==> (#[trigger] segments(s)[i]).len() > 0 && !segments(
                s,
            )[i].contains('/'),
    decreases s.len(),
{
    if s.len() == 0 {
    } else if s[0] == '/' {
        lemma_segments_plain(s.drop_first());
        assert(segments(s) == segments(s.drop_first()));
    } else {
        lemma_run_len_bounds(s);
        let k = run_len(s) as int;
        lemma_segments_plain(s.skip(k));
        assert forall|i: int| 0 <= i < segments(s).len() implies (#[trigger] segments(
            s,
        )[i]).len() > 0 && !segments(s)[i].contains('/') by {
            if i > 0 {
                assert(segments(s)[i] == segments(s.skip(k))[i - 1]);
            }
        }
    }
}

/// A `/` in front of a path adds no segment.
pub proof fn lemma_segments_after_separator(s: Seq<char>)
    ensures
        segments(seq!['/'] + s) == segments(s),
{
    assert((seq!['/'] + s).drop_first() =~= s);
}

/// A piece without `/` is the only segment of itself, and the first
/// segment of what it is put in front of with a `/` between.
pub proof fn lemma_segments_of_piece(piece: Seq<char>, s: Seq<char>)
    requires
        piece.len() > 0,
        !piece.contains('/'),
    ensures
        segments(piece) == seq![piece],
        segments(piece + seq!['/'] + s) == seq![piece] + segments(s),
{
    let k = piece.len() as int;
    assert forall|j: int| 0 <= j < k implies piece[j] != '/' by {
        if piece[j] == '/' {
            assert(piece.contains('/'));
        }
    }
    lemma_run_len_is(piece, k);
    assert(piece.take(k) =~= piece);
    assert(segments(piece.skip(k)) =~= Seq::<Seq<char>>::empty());
    assert(segments(piece) =~= seq![piece]);

    let whole = piece + seq!['/'] + s;
    lemma_run_len_is(whole, k);
    assert(whole.take(k) =~= piece);
    assert(whole.skip(k) =~= seq!['/'] + s);
    lemma_segments_after_separator(s);
}

/// Splits `path` at its `/` characters and drops the empty pieces.
pub fn path_segments(path: &str) -> (parts: Vec<String>)
    ensures
        parts.deep_view() == segments(path@),
{
    let chars = chars_of(path);
    let n = chars.len();
    let mut parts: Vec<String> = Vec::new();
    // `start` is where the piece that is being read began.
    let mut start: usize = 0;
    let mut i: usize = 0;
    assert(path@.skip(0) =~= path@);
    while i < n
        invariant
            chars@ == path@,
            n == chars.len(),
            start <= i <= n,
            forall|j: int| start <= j < i ==> chars[j] != '/',
            segments(path@) == parts.deep_view() + segments(path@.skip(start as int)),
        decreases n - i,
    {
        if chars[i] == '/' {
            // The piece from `start` to `i` is complete, and the `/` at `i`
            // belongs to no piece.
            let ghost rest = path@.skip(start as int);
            proof {
                let k = i - start;
                lemma_run_len_is(rest, k);
                assert(rest.skip(k) =~= path@.skip(i as int));
                assert(rest.take(k) =~= path@.subrange(start as int, i as int));
                assert(path@.skip(i as int).drop_first() =~= path@.skip(i + 1));
            }
            if start < i {
                parts.push(path.substring_char(start, i).to_owned());
                assert(segments(rest) == seq![rest.take(i - start)] + segments(
                    rest.skip(i - start),
                ));
            }
            start = i + 1;
        }
        i += 1;
    }
    if start < n {
        // The last piece runs to the end of the path.
        proof {
            let rest = path@.skip(start as int);
            let k = n - start;
            lemma_run_len_is(rest, k);
            assert(rest.take(k) =~= path@.subrange(start as int, n as int));
            assert(segments(rest) == seq![rest.take(k)] + segments(rest.skip(k)));
        }
        parts.push(path.substring_char(start, n).to_owned());
    }
    parts
}

/// The text `.`, which stands for the directory itself.
pub open spec fn dot() -> Seq<char> {
    seq!['.']
}

/// The text `..`, which stands for the parent directory.
pub open spec fn dot_dot() -> Seq<char> {
    seq!['.', '.']
}

/// The last of `parts` that is not `.`, unless that one is `..`.
pub open spec fn last_named(parts: Seq<Seq<char>>) -> Option<Seq<char>>
    decreases parts.len(),
{
    if parts.len() == 0 {
        None
    } else if parts.last() == dot() {
        last_named(parts.drop_last())
    } else if parts.last() == dot_dot() {
        None
    } else {
        Some(parts.last())
    }
}

/// The final component of the path `s`: its last segment that names
/// something. There is none where the path is empty, holds only `/` and `.`,
/// or ends in `..`.
pub open spec fn final_component(s: Seq<char>) -> Option<Seq<char>> {
    last_named(segments(s))
}

/// The name under which the path `s` is looked up: its final component, or
/// `s` itself where it has none.
pub open spec fn sanitized(s: Seq<char>) -> Seq<char> {
    match final_component(s) {
        Some(leaf) => leaf,
        None => s,
    }
}

/// Whether `s` is a plain name: not empty, without `/`, and neither `.` nor
/// `..`.
pub open spec fn is_leaf_name(s: Seq<char>) -> bool {
    s.len() > 0 && !s.contains('/') && s != dot() && s != dot_dot()
}

/// What `last_named` picks is one of the parts, and neither `.` nor `..`.
proof fn lemma_last_named(parts: Seq<Seq<char>>)
    ensures
        last_named(parts) matches Some(leaf) ==> parts.contains(leaf) && leaf != dot() && leaf
            != dot_dot(),
    decreases parts.len(),
{
    if parts.len() != 0 && parts.last() == dot() {
        let front = parts.drop_last();
        lemma_last_named(front);
        if let Some(leaf) = last_named(parts) {
            let i = choose|i: int| 0 <= i < front.len() && front[i] == leaf;
            assert(parts[i] == leaf);
        }
    }
}

/// The final component of any path is a plain name: no directory part of
/// the path survives in it.
pub proof fn lemma_final_component_is_leaf(s: Seq<char>)
    ensures
        final_component(s) matches Some(leaf) ==> is_leaf_name(leaf),
{
    lemma_last_named(segments(s));
    lemma_segments_plain(s);
}

/// A plain name is its own final component: sanitizing it changes nothing.
pub proof fn lemma_leaf_name_is_fixed(s: Seq<char>)
    requires
        is_leaf_name(s),
    ensures
        final_component(s) == Some(s),
        sanitized(s) == s,
{
    lemma_segments_of_piece(s, Seq::empty());
}

/// Sanitizing twice is sanitizing once.
pub proof fn lemma_sanitized_idempotent(s: Seq<char>)
    ensures
        sanitized(sanitized(s)) == sanitized(s),
{
    lemma_final_component_is_leaf(s);
    if let Some(leaf) = final_component(s) {
        lemma_leaf_name_is_fixed(leaf);
    }
}

/// The segments of two paths joined by a `/` are those of the first
/// followed by those of the second.
pub proof fn lemma_segments_join(front: Seq<char>, back: Seq<char>)
    ensures
        segments(front + seq!['/'] + back) == segments(front) + segments(back),
    decreases front.len(),
{
    let whole = front + seq!['/'] + back;
    if front.len() == 0 {
        assert(whole =~= seq!['/'] + back);
        lemma_segments_after_separator(back);
        assert(segments(front) + segments(back) =~= segments(back));
    } else if front[0] == '/' {
        assert(whole.drop_first() =~= front.drop_first() + seq!['/'] + back);
        lemma_segments_join(front.drop_first(), back);
    } else {
        lemma_run_len_bounds(front);
        let k = run_len(front) as int;
        lemma_run_len_is(whole, k);
        assert(whole.take(k) =~= front.take(k));
        assert(whole.skip(k) =~= front.skip(k) + seq!['/'] + back);
        lemma_segments_join(front.skip(k), back);
        assert(segments(whole) =~= segments(front) + segments(back));
    }
}

/// Whatever directories a path names, if it ends in a plain name, that
/// name is its final component.
pub proof fn lemma_final_component_of_join(dir: Seq<char>, leaf: Seq<char>)
    requires
        is_leaf_name(leaf),
    ensures
        final_component(dir + seq!['/'] + leaf) == Some(leaf),
        sanitized(dir + seq!['/'] + leaf) == leaf,
{
    lemma_segments_join(dir, leaf);
    lemma_segments_of_piece(leaf, Seq::empty());
    assert((segments(dir) + seq![leaf]).last() == leaf);
}

/// Finds the final component of a client-supplied path, if it has one.
pub fn leaf_name(name: &str) -> (leaf: Option<String>)
    ensures
        leaf.deep_view() == final_component(name@),
{
    proof {
        reveal_strlit(".");
        reveal_strlit("..");
    }
    let parts = path_segments(name);
    let mut i: usize = parts.len();
    assert(parts.deep_view().take(i as int) =~= parts.deep_view());
    while i > 0
        invariant
            i <= parts.len(),
            "."@ == dot(),
            ".."@ == dot_dot(),
            parts.deep_view() == segments(name@),
            final_component(name@) == last_named(parts.deep_view().take(i as int)),
        decreases i,
    {
        let ghost upto = parts.deep_view().take(i as int);
        assert(upto.drop_last() =~= parts.deep_view().take(i - 1));
        let part = &parts[i - 1];
        if same_text(part.as_str(), ".") {
            i -= 1;
        } else if same_text(part.as_str(), "..") {
            return None;
        } else {
            return Some(part.clone());
        }
    }
    None
}

/// Reduces a client-supplied path to the name that is looked up: its final
/// component, so that no directory part of the path takes part in the
/// lookup. A path without a final component is kept as it is.
pub fn sanitize_name(name: &str) -> (out: String)
    ensures
        out@ == sanitized(name@),
{
    match leaf_name(name) {
        Some(leaf) => leaf,
        None => name.to_owned(),
    }
}

/// `s` without the `/` characters at its front.
pub open spec fn skip_separators(s: Seq<char>) -> Seq<char>
    decreases s.len(),
{
    if s.len() > 0 && s[0] == '/' {
        skip_separators(s.drop_first())
    } else {
        s
    }
}

/// What follows the first segment of `s` and the `/` that ends it. It is
/// empty where `s` has no segment, or nothing after its first.
pub open spec fn after_first_segment(s: Seq<char>) -> Seq<char> {
    let from = skip_separators(s);
    let end = run_len(from) as int;
    if end < from.len() {
        from.skip(end + 1)
    } else {
        Seq::empty()
    }
}

/// Skipping the `/` characters at the front leaves what begins at the
/// first other character.
pub proof fn lemma_skip_separators_is(s: Seq<char>, i: int)
    requires
        0 <= i <= s.len(),
        forall|j: int| 0 <= j < i ==> s[j] == '/',
        i == s.len() || s[i] != '/',
    ensures
        skip_separators(s) == s.skip(i),
    decreases i,
{
    if i > 0 {
        let rest = s.drop_first();
        assert forall|j: int| 0 <= j < i - 1 implies rest[j] == '/' by {
            assert(rest[j] == s[j + 1]);
        }
        lemma_skip_separators_is(rest, i - 1);
        assert(rest.skip(i - 1) =~= s.skip(i));
    } else {
        assert(s.skip(0) =~= s);
    }
}

/// The `/` characters at the front of a path add no segment, and what is
/// left begins with none.
pub proof fn lemma_skip_separators(s: Seq<char>)
    ensures
        segments(skip_separators(s)) == segments(s),
        skip_separators(s).len() > 0 ==> skip_separators(s)[0] != '/',
    decreases s.len(),
{
    if s.len() > 0 && s[0] == '/' {
        lemma_skip_separators(s.drop_first());
    }
}

/// The segments of a path are its first segment and the segments of what
/// follows it.
pub proof fn lemma_segments_first(s: Seq<char>)
    ensures
        skip_separators(s).len() == 0 ==> segments(s).len() == 0,
        skip_separators(s).len() > 0 ==> segments(s) == seq![
            skip_separators(s).take(run_len(skip_separators(s)) as int),
        ] + segments(after_first_segment(s)),
{
    let from = skip_separators(s);
    lemma_skip_separators(s);
    if from.len() > 0 {
        lemma_run_len_bounds(from);
        let end = run_len(from) as int;
        if end < from.len() {
            assert(from.skip(end).drop_first() =~= from.skip(end + 1));
            assert(segments(from.skip(end)) == segments(from.skip(end + 1)));
        } else {
            assert(from.skip(end) =~= Seq::<char>::empty());
        }
        assert(segments(from) == seq![from.take(end)] + segments(from.skip(end)));
    }
}

/// Splits `path` into its first segment and what follows that segment and
/// the `/` that ends it. There is nothing to split where `path` has no
/// segment.
pub fn split_first_segment(path: &str) -> (split: Option<(String, String)>)
    ensures
        match split {
            Some((first, rest)) => {
                &&& segments(path@) == seq![first@] + segments(rest@)
                &&& rest@ == after_first_segment(path@)
            },
            None => segments(path@).len() == 0,
        },
{
    let chars = chars_of(path);
    let n = chars.len();
    let mut start: usize = 0;
    while start < n && chars[start] == '/'
        invariant
            chars@ == path@,
            n == chars.len(),
            start <= n,
            forall|j: int| 0 <= j < start ==> chars[j] == '/',
        decreases n - start,
    {
        start += 1;
    }
    let ghost from = path@.skip(start as int);
    proof {
        lemma_skip_separators_is(path@, start as int);
        lemma_segments_first(path@);
    }
    if start == n {
        return None;
    }
    let mut end: usize = start;
    while end < n && chars[end] != '/'
        invariant
            chars@ == path@,
            n == chars.len(),
            start <= end <= n,
            forall|j: int| start <= j < end ==> chars[j] != '/',
        decreases n - end,
    {
        end += 1;
    }
    proof {
        assert forall|j: int| 0 <= j < end - start implies from[j] != '/' by {
            assert(from[j] == chars[start + j]);
        }
        lemma_run_len_is(from, end - start);
        assert(from.take(end - start) =~= path@.subrange(start as int, end as int));
    }
    let first = path.substring_char(start, end).to_owned();
    let rest = if end < n {
        assert(from.skip(end - start + 1) =~= path@.subrange(end + 1, n as int));
        path.substring_char(end + 1, n).to_owned()
    } else {
        String::new()
    };
    Some((first, rest))
}

} // verus!
