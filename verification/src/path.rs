//! File paths as text, cut at `/`.
//!
//! A path is a sequence of segments; empty segments and `.` stand for
//! nothing, `..` for the directory above.

use crate::text::{from_range, same_text, split, split_spec, texts, to_chars};
use vstd::prelude::*;
use vstd::string::StringExecFns;

verus! {

/// Whether a segment stands for nothing: it is empty or `.`.
pub open spec fn is_blank_segment(segment: Seq<char>) -> bool {
    segment.len() == 0 || segment == seq!['.']
}

/// The last of the segments that stands for something, unless it is `..`.
pub open spec fn last_name(segments: Seq<Seq<char>>) -> Option<Seq<char>>
    decreases segments.len(),
{
    if segments.len() == 0 {
        None
    } else if is_blank_segment(segments.last()) {
        last_name(segments.drop_last())
    } else if segments.last() == seq!['.', '.'] {
        None
    } else {
        Some(segments.last())
    }
}

/// The final component of a path: the name of the file or directory that
/// it leads to. There is none where the path is empty, is the root, or
/// ends in `..`.
pub open spec fn file_name_spec(path: Seq<char>) -> Option<Seq<char>> {
    last_name(split_spec(path, '/', '/'))
}

/// The position of the last `c` in `s`, or -1 where there is none.
pub open spec fn last_index_of(s: Seq<char>, c: char) -> int
    decreases s.len(),
{
    if s.len() == 0 {
        -1
    } else if s.last() == c {
        s.len() - 1
    } else {
        last_index_of(s.drop_last(), c)
    }
}

/// The extension of a file name: what follows its last dot, unless the name
/// has no dot or only begins with one.
pub open spec fn name_extension(name: Seq<char>) -> Option<Seq<char>> {
    let dot = last_index_of(name, '.');
    if dot <= 0 {
        None
    } else {
        Some(name.skip(dot + 1))
    }
}

/// The extension of the file that a path leads to.
pub open spec fn extension_spec(path: Seq<char>) -> Option<Seq<char>> {
    match file_name_spec(path) {
        None => None,
        Some(name) => name_extension(name),
    }
}

/// `name` below the directory `base`: an absolute `name` stands alone,
/// otherwise a `/` goes between the two unless `base` is empty or ends in
/// one.
pub open spec fn join_spec(base: Seq<char>, name: Seq<char>) -> Seq<char> {
    if name.len() > 0 && name[0] == '/' {
        name
    } else if base.len() == 0 || base.last() == '/' {
        base + name
    } else {
        base + seq!['/'] + name
    }
}

/// The position found from the right is the one that the definition gives.
proof fn lemma_last_index_found(s: Seq<char>, c: char, at: int)
    requires
        -1 <= at < s.len(),
        at >= 0 ==> s[at] == c,
        forall|i: int| at < i < s.len() ==> s[i] != c,
    ensures
        last_index_of(s, c) == at,
    decreases s.len(),
{
    if s.len() > 0 && s.last() != c {
        lemma_last_index_found(s.drop_last(), c, at);
    }
}

/// Blank segments at the end do not change the name.
proof fn lemma_last_name_take(segments: Seq<Seq<char>>, k: int)
    requires
        0 <= k <= segments.len(),
        forall|i: int| k <= i < segments.len() ==> is_blank_segment(#[trigger] segments[i]),
    ensures
        last_name(segments) == last_name(segments.take(k)),
    decreases segments.len() - k,
{
    if k < segments.len() {
        assert(segments.drop_last().take(k) =~= segments.take(k));
        lemma_last_name_take(segments.drop_last(), k);
    } else {
        assert(segments.take(k) =~= segments);
    }
}

/// The final component of a path.
pub fn file_name(path: &str) -> (r: Option<String>)
    ensures
        match r {
            Some(name) => file_name_spec(path@) == Some(name@),
            None => file_name_spec(path@) is None,
        },
{
    let segments = split(path, '/', '/');
    let ghost all = texts(segments@);
    let mut k: usize = segments.len();
    while k > 0
        invariant
            k <= segments@.len(),
            all == texts(segments@),
            all == split_spec(path@, '/', '/'),
            forall|i: int| k <= i < all.len() ==> is_blank_segment(#[trigger] all[i]),
        decreases k,
    {
        let segment = segments[k - 1].as_str();
        proof {
            reveal_strlit(".");
            reveal_strlit("..");
            assert("."@ =~= seq!['.']);
            assert(".."@ =~= seq!['.', '.']);
        }
        let blank = same_text(segment, "") || same_text(segment, ".");
        proof {
            reveal_strlit("");
            assert(""@ =~= Seq::<char>::empty());
            assert(all[k - 1] == segment@);
            assert(blank == is_blank_segment(segment@)) by {
                if segment@.len() == 0 {
                    assert(segment@ =~= Seq::<char>::empty());
                }
            }
        }
        if !blank {
            proof {
                lemma_last_name_take(all, k as int);
                assert(all.take(k as int).last() == segment@);
            }
            if same_text(segment, "..") {
                return None;
            }
            return Some(segment.to_string());
        }
        k -= 1;
    }
    proof {
        lemma_last_name_take(all, 0);
    }
    None
}

/// The extension of a file name.
pub fn extension_of_name(name: &str) -> (r: Option<String>)
    ensures
        match r {
            Some(extension) => name_extension(name@) == Some(extension@),
            None => name_extension(name@) is None,
        },
{
    let v = to_chars(name);
    let mut k: usize = v.len();
    while k > 0 && v[k - 1] != '.'
        invariant
            k <= v.len(),
            forall|i: int| k <= i < v.len() ==> v@[i] != '.',
        decreases k,
    {
        k -= 1;
    }
    proof {
        lemma_last_index_found(v@, '.', k - 1);
    }
    if k <= 1 {
        None
    } else {
        Some(from_range(&v, k, v.len()))
    }
}

/// The extension of the file that a path leads to.
pub fn extension(path: &str) -> (r: Option<String>)
    ensures
        match r {
            Some(extension) => extension_spec(path@) == Some(extension@),
            None => extension_spec(path@) is None,
        },
{
    match file_name(path) {
        None => None,
        Some(name) => extension_of_name(name.as_str()),
    }
}

/// Where the final component of a path ends: what follows it stands for
/// nothing, being made of `/` and of `.` after a `/`.
pub open spec fn name_end(path: Seq<char>) -> int
    decreases path.len(),
{
    if path.len() == 0 {
        0
    } else if path.last() == '/' {
        name_end(path.drop_last())
    } else if path.last() == '.' && (path.len() == 1 || path[path.len() - 2] == '/') {
        name_end(path.drop_last())
    } else {
        path.len() as int
    }
}

/// Where the final component of a path begins.
pub open spec fn name_start(path: Seq<char>) -> int {
    last_index_of(path.take(name_end(path)), '/') + 1
}

/// A file name without its extension.
pub open spec fn name_stem(name: Seq<char>) -> Seq<char> {
    let dot = last_index_of(name, '.');
    if dot <= 0 {
        name
    } else {
        name.take(dot)
    }
}

/// The path with the extension of its file name replaced by `extension`,
/// or taken away where `extension` is empty. What follows the file name is
/// dropped. A path without a file name stays as it is.
pub open spec fn with_extension_spec(path: Seq<char>, extension: Seq<char>) -> Seq<char> {
    let start = name_start(path);
    let name = path.subrange(start, name_end(path));
    if name_end(path) == 0 || name == seq!['.', '.'] {
        path
    } else if extension.len() == 0 {
        path.take(start) + name_stem(name)
    } else {
        path.take(start) + name_stem(name) + seq!['.'] + extension
    }
}

/// Whether the character at `i` is a `/`, or a `.` that makes a segment of
/// its own.
pub open spec fn stands_for_nothing(path: Seq<char>, i: int) -> bool {
    path[i] == '/' || (path[i] == '.' && (i == 0 || path[i - 1] == '/'))
}

proof fn lemma_name_end(path: Seq<char>, end: int)
    requires
        0 <= end <= path.len(),
        name_end(path.take(end)) == end,
        forall|i: int| end <= i < path.len() ==> #[trigger] stands_for_nothing(path, i),
    ensures
        name_end(path) == end,
    decreases path.len() - end,
{
    if end < path.len() {
        let front = path.drop_last();
        assert(front.take(end) =~= path.take(end));
        assert forall|i: int| end <= i < front.len() implies #[trigger] stands_for_nothing(
            front,
            i,
        ) by {
            assert(stands_for_nothing(path, i));
        }
        lemma_name_end(front, end);
        assert(stands_for_nothing(path, path.len() - 1));
    } else {
        assert(path.take(end) =~= path);
    }
}

/// The path with the extension of its file name replaced.
pub fn with_extension(path: &str, extension: &str) -> (r: String)
    ensures
        r@ == with_extension_spec(path@, extension@),
{
    let v = to_chars(path);
    let mut end: usize = v.len();
    while end > 0 && (v[end - 1] == '/' || (v[end - 1] == '.' && (end == 1 || v[end - 2] == '/')))
        invariant
            end <= v.len(),
            forall|i: int| end <= i < v.len() ==> #[trigger] stands_for_nothing(v@, i),
        decreases end,
    {
        end -= 1;
    }
    proof {
        let head = v@.take(end as int);
        if end > 0 {
            assert(head.last() == v@[end - 1]);
            if end > 1 {
                assert(head[head.len() - 2] == v@[end - 2]);
            }
        }
        assert(name_end(head) == end);
        lemma_name_end(v@, end as int);
    }
    let mut start: usize = end;
    while start > 0 && v[start - 1] != '/'
        invariant
            start <= end <= v.len(),
            forall|i: int| start <= i < end ==> v@[i] != '/',
        decreases start,
    {
        start -= 1;
    }
    proof {
        let head = v@.take(end as int);
        if start > 0 {
            assert(head[start - 1] == '/');
        }
        assert forall|i: int| start - 1 < i < head.len() implies head[i] != '/' by {
            assert(head[i] == v@[i]);
        }
        lemma_last_index_found(head, '/', start - 1);
    }
    let name = from_range(&v, start, end);
    if end == 0 || same_text(name.as_str(), "..") {
        proof {
            reveal_strlit("..");
            assert(".."@ =~= seq!['.', '.']);
        }
        return path.to_string();
    }
    proof {
        reveal_strlit("..");
        assert(".."@ =~= seq!['.', '.']);
    }
    let n = to_chars(name.as_str());
    let mut dot: usize = n.len();
    while dot > 0 && n[dot - 1] != '.'
        invariant
            dot <= n.len(),
            forall|i: int| dot <= i < n.len() ==> n@[i] != '.',
        decreases dot,
    {
        dot -= 1;
    }
    proof {
        lemma_last_index_found(n@, '.', dot - 1);
    }
    let mut r = from_range(&v, 0, start);
    if dot <= 1 {
        r.append(name.as_str());
    } else {
        r.append(from_range(&n, 0, dot - 1).as_str());
    }
    if to_chars(extension).len() > 0 {
        r.push('.');
        r.append(extension);
    }
    r
}

/// The path of `name` below the directory `base`.
pub fn join(base: &str, name: &str) -> (r: String)
    ensures
        r@ == join_spec(base@, name@),
{
    let b = to_chars(base);
    let n = to_chars(name);
    if n.len() > 0 && n[0] == '/' {
        return name.to_string();
    }
    let mut r = base.to_string();
    if b.len() > 0 && b[b.len() - 1] != '/' {
        r.push('/');
    }
    r.append(name);
    r
}

} // verus!
