//! Character-level text operations with exact specifications.
//!
//! Every string is seen through its view, a `Seq<char>`; the functions here
//! cut, trim, compare and search such sequences.

use vstd::prelude::*;

verus! {

/// `String::push` appends one character.
pub assume_specification[ String::push ](s: &mut String, ch: char)
    ensures
        final(s)@ == old(s)@.push(ch),
;

/// The lower-case form of a text by the rules of Unicode, as
/// `str::to_lowercase` gives it.
pub uninterp spec fn lowercase_spec(text: Seq<char>) -> Seq<char>;

/// `str::to_lowercase`: the text with every character replaced by its
/// lower-case form. The form depends on the text alone.
#[verifier::external_body]
pub(crate) fn to_lowercase(text: &str) -> (r: String)
    ensures
        r@ == lowercase_spec(text@),
{
    text.to_lowercase()
}

/// The text that bytes stand for in UTF-8, with U+FFFD in place of what is
/// ill-formed, as `String::from_utf8_lossy` gives it.
pub uninterp spec fn utf8_lossy_spec(bytes: Seq<u8>) -> Seq<char>;

/// `String::from_utf8_lossy`: the bytes read as UTF-8. Well-formed bytes
/// give the text that they encode; ill-formed stretches are replaced.
#[verifier::external_body]
pub(crate) fn from_utf8_lossy(bytes: &[u8]) -> (r: String)
    ensures
        r@ == utf8_lossy_spec(bytes@),
        vstd::utf8::valid_utf8(bytes@) ==> r@ == vstd::utf8::decode_utf8(bytes@),
{
    String::from_utf8_lossy(bytes).into_owned()
}

/// A text as `Debug` shows it: in double quotes, with escapes for what
/// would not show.
pub uninterp spec fn debug_spec(text: Seq<char>) -> Seq<char>;

/// `<str as Debug>::fmt`: the text in double quotes, with quotes,
/// backslashes and characters that do not print escaped. What it gives
/// depends on the text alone.
#[verifier::external_body]
pub(crate) fn debug_text(text: &str) -> (r: String)
    ensures
        r@ == debug_spec(text@),
{
    format!("{:?}", text)
}

/// The views of a sequence of strings, in order.
pub open spec fn texts(v: Seq<String>) -> Seq<Seq<char>> {
    Seq::new(v.len(), |i: int| v[i]@)
}

/// Appending a string appends its view.
pub proof fn lemma_texts_push(v: Seq<String>, s: String)
    ensures
        texts(v.push(s)) == texts(v).push(s@),
{
    assert(texts(v.push(s)) =~= texts(v).push(s@));
}

/// Unicode `White_Space`.
pub open spec fn is_whitespace(c: char) -> bool {
    let n = c as u32;
    ||| 0x09 <= n <= 0x0D
    ||| n == 0x20
    ||| n == 0x85
    ||| n == 0xA0
    ||| n == 0x1680
    ||| 0x2000 <= n <= 0x200A
    ||| n == 0x2028
    ||| n == 0x2029
    ||| n == 0x202F
    ||| n == 0x205F
    ||| n == 0x3000
}

/// `s` without its leading white space.
pub open spec fn trim_start_spec(s: Seq<char>) -> Seq<char>
    decreases s.len(),
{
    if s.len() > 0 && is_whitespace(s[0]) {
        trim_start_spec(s.drop_first())
    } else {
        s
    }
}

/// `s` without its trailing white space.
pub open spec fn trim_end_spec(s: Seq<char>) -> Seq<char>
    decreases s.len(),
{
    if s.len() > 0 && is_whitespace(s.last()) {
        trim_end_spec(s.drop_last())
    } else {
        s
    }
}

/// `s` without leading and trailing white space.
pub open spec fn trim_spec(s: Seq<char>) -> Seq<char> {
    trim_end_spec(trim_start_spec(s))
}

/// The pieces of `s` between occurrences of the separators `a` and `b`.
/// A text with `n` separators has `n + 1` pieces, some of them possibly empty.
pub open spec fn split_spec(s: Seq<char>, a: char, b: char) -> Seq<Seq<char>>
    decreases s.len(),
{
    if s.len() == 0 {
        seq![Seq::<char>::empty()]
    } else {
        let before = split_spec(s.drop_last(), a, b);
        if s.last() == a || s.last() == b {
            before.push(Seq::<char>::empty())
        } else {
            before.drop_last().push(before.last().push(s.last()))
        }
    }
}

/// Whether `s` holds neither of the separators.
pub open spec fn has_no_separator(s: Seq<char>, a: char, b: char) -> bool {
    forall|i: int| 0 <= i < s.len() ==> #[trigger] s[i] != a && s[i] != b
}

/// Cutting a text always gives a piece.
pub proof fn lemma_split_has_a_piece(s: Seq<char>, a: char, b: char)
    ensures
        split_spec(s, a, b).len() >= 1,
    decreases s.len(),
{
    if s.len() > 0 {
        lemma_split_has_a_piece(s.drop_last(), a, b);
    }
}

/// What follows a text without holding a separator lengthens its last
/// piece.
pub proof fn lemma_split_append(s: Seq<char>, t: Seq<char>, a: char, b: char)
    requires
        has_no_separator(t, a, b),
    ensures
        split_spec(s, a, b).len() >= 1,
        split_spec(s + t, a, b) == split_spec(s, a, b).drop_last().push(
            split_spec(s, a, b).last() + t,
        ),
    decreases t.len(),
{
    lemma_split_has_a_piece(s, a, b);
    let pieces = split_spec(s, a, b);
    if t.len() == 0 {
        assert(s + t =~= s);
        assert(pieces.last() + t =~= pieces.last());
        assert(pieces.drop_last().push(pieces.last()) =~= pieces);
    } else {
        let shorter = t.drop_last();
        assert(has_no_separator(shorter, a, b)) by {
            assert forall|i: int| 0 <= i < shorter.len() implies #[trigger] shorter[i] != a
                && shorter[i] != b by {
                assert(shorter[i] == t[i]);
            }
        }
        lemma_split_append(s, shorter, a, b);
        assert((s + t).drop_last() =~= s + shorter);
        assert((s + t).last() == t[t.len() - 1]);
        let before = split_spec(s + shorter, a, b);
        assert(before.drop_last() =~= pieces.drop_last());
        assert(before.last().push(t.last()) =~= pieces.last() + t);
    }
}

/// Two texts without a separator, with a separator between them, are cut
/// into the two.
pub proof fn lemma_split_pair(left: Seq<char>, right: Seq<char>, a: char, b: char)
    requires
        has_no_separator(left, a, b),
        has_no_separator(right, a, b),
    ensures
        split_spec(left + seq![a] + right, a, b) == seq![left, right],
{
    let none = Seq::<char>::empty();
    lemma_split_append(none, left, a, b);
    assert(none + left =~= left);
    assert(split_spec(none, a, b) =~= seq![none]);
    assert(split_spec(left, a, b) =~= seq![left]);
    let cut = left + seq![a];
    assert(cut.drop_last() =~= left);
    assert(cut.last() == a);
    assert(split_spec(cut, a, b) =~= seq![left, none]);
    lemma_split_append(cut, right, a, b);
    assert(none + right =~= right);
    assert(split_spec(cut + right, a, b) =~= seq![left, right]);
}

/// Whether `needle` occurs in `hay` at position `at`.
pub open spec fn occurs_at(hay: Seq<char>, needle: Seq<char>, at: int) -> bool {
    &&& 0 <= at
    &&& at + needle.len() <= hay.len()
    &&& hay.subrange(at, at + needle.len()) == needle
}

/// Whether `needle` occurs somewhere in `hay`.
pub open spec fn contains_spec(hay: Seq<char>, needle: Seq<char>) -> bool {
    exists|at: int| occurs_at(hay, needle, at)
}

/// The lower-case form of an ASCII letter; any other character is unchanged.
pub open spec fn ascii_lower(c: char) -> char {
    if 'A' <= c && c <= 'Z' {
        ((c as u32) + 32) as u8 as char
    } else {
        c
    }
}

/// Equality up to the case of ASCII letters.
pub open spec fn eq_ignore_ascii_case_spec(a: Seq<char>, b: Seq<char>) -> bool {
    &&& a.len() == b.len()
    &&& forall|i: int| 0 <= i < a.len() ==> ascii_lower(#[trigger] a[i]) == ascii_lower(b[i])
}

/// `s` preceded by as many `fill` characters as it takes to reach `width`.
pub open spec fn pad_left_spec(s: Seq<char>, width: nat, fill: char) -> Seq<char> {
    if s.len() >= width {
        s
    } else {
        Seq::new((width - s.len()) as nat, |i: int| fill) + s
    }
}

/// White space at the start does not change what trimming the start gives.
pub proof fn lemma_trim_start_skip(s: Seq<char>, k: int)
    requires
        0 <= k <= s.len(),
        forall|i: int| 0 <= i < k ==> is_whitespace(#[trigger] s[i]),
    ensures
        trim_start_spec(s) == trim_start_spec(s.skip(k)),
    decreases k,
{
    if k > 0 {
        assert(s.drop_first().skip(k - 1) =~= s.skip(k));
        lemma_trim_start_skip(s.drop_first(), k - 1);
    } else {
        assert(s.skip(0) =~= s);
    }
}

/// White space at the end does not change what trimming the end gives.
pub proof fn lemma_trim_end_take(s: Seq<char>, k: int)
    requires
        0 <= k <= s.len(),
        forall|i: int| k <= i < s.len() ==> is_whitespace(#[trigger] s[i]),
    ensures
        trim_end_spec(s) == trim_end_spec(s.take(k)),
    decreases s.len() - k,
{
    if k < s.len() {
        assert(s.drop_last().take(k) =~= s.take(k));
        lemma_trim_end_take(s.drop_last(), k);
    } else {
        assert(s.take(k) =~= s);
    }
}

/// The characters of a string.
pub fn to_chars(s: &str) -> (v: Vec<char>)
    ensures
        v@ == s@,
{
    let mut v: Vec<char> = Vec::new();
    for c in it: s.chars()
        invariant
            v@ == it.seq().take(it.index() as int),
            it.seq() == s@,
    {
        v.push(c);
    }
    v
}

/// The string made of the characters `v[from..to]`.
pub fn from_range(v: &Vec<char>, from: usize, to: usize) -> (s: String)
    requires
        from <= to <= v.len(),
    ensures
        s@ == v@.subrange(from as int, to as int),
{
    let mut s = String::new();
    let mut i: usize = from;
    while i < to
        invariant
            from <= i <= to <= v.len(),
            s@ == v@.subrange(from as int, i as int),
        decreases to - i,
    {
        s.push(v[i]);
        i += 1;
        assert(v@.subrange(from as int, i as int) =~= v@.subrange(from as int, i - 1).push(
            v@[i - 1],
        ));
    }
    s
}

/// The string made of the characters of `v`.
pub fn from_chars(v: &Vec<char>) -> (s: String)
    ensures
        s@ == v@,
{
    let s = from_range(v, 0, v.len());
    assert(v@.subrange(0, v.len() as int) =~= v@);
    s
}

/// Whether two strings hold the same characters.
pub fn same_text(a: &str, b: &str) -> (r: bool)
    ensures
        r == (a@ == b@),
{
    let x = to_chars(a);
    let y = to_chars(b);
    if x.len() != y.len() {
        return false;
    }
    let mut i: usize = 0;
    while i < x.len()
        invariant
            i <= x.len(),
            x.len() == y.len(),
            x@ == a@,
            y@ == b@,
            x@.take(i as int) == y@.take(i as int),
        decreases x.len() - i,
    {
        if x[i] != y[i] {
            assert(a@[i as int] != b@[i as int]);
            return false;
        }
        i += 1;
        assert(x@.take(i as int) =~= x@.take(i - 1).push(x@[i - 1]));
        assert(y@.take(i as int) =~= y@.take(i - 1).push(y@[i - 1]));
    }
    assert(x@.take(x.len() as int) =~= x@);
    assert(y@.take(y.len() as int) =~= y@);
    true
}

/// Whether `c` is white space.
pub fn char_is_whitespace(c: char) -> (r: bool)
    ensures
        r == is_whitespace(c),
{
    let n: u32 = c as u32;
    (0x09 <= n && n <= 0x0D) || n == 0x20 || n == 0x85 || n == 0xA0 || n == 0x1680 || (0x2000 <= n
        && n <= 0x200A) || n == 0x2028 || n == 0x2029 || n == 0x202F || n == 0x205F || n == 0x3000
}

/// Removes leading and trailing white space.
pub fn trim(s: &str) -> (r: String)
    ensures
        r@ == trim_spec(s@),
{
    let v = to_chars(s);
    let mut start: usize = 0;
    while start < v.len() && char_is_whitespace(v[start])
        invariant
            start <= v.len(),
            forall|i: int| 0 <= i < start ==> is_whitespace(#[trigger] v@[i]),
        decreases v.len() - start,
    {
        start += 1;
    }
    let mut end: usize = v.len();
    while end > start && char_is_whitespace(v[end - 1])
        invariant
            start <= end <= v.len(),
            forall|i: int| end <= i < v.len() ==> is_whitespace(#[trigger] v@[i]),
        decreases end,
    {
        end -= 1;
    }
    proof {
        let tail = v@.skip(start as int);
        lemma_trim_start_skip(v@, start as int);
        assert(trim_start_spec(tail) == tail) by {
            if tail.len() > 0 {
                assert(tail[0] == v@[start as int]);
            }
        }
        let k = end - start;
        assert forall|i: int| k <= i < tail.len() implies is_whitespace(#[trigger] tail[i]) by {
            assert(tail[i] == v@[i + start]);
        }
        lemma_trim_end_take(tail, k);
        let body = tail.take(k);
        assert(body =~= v@.subrange(start as int, end as int));
        assert(trim_end_spec(body) == body) by {
            if body.len() > 0 {
                assert(body.last() == v@[end - 1]);
            }
        }
    }
    from_range(&v, start, end)
}

/// Cuts `s` at every occurrence of `a` or `b`.
pub fn split(s: &str, a: char, b: char) -> (r: Vec<String>)
    ensures
        texts(r@) == split_spec(s@, a, b),
{
    let v = to_chars(s);
    let mut pieces: Vec<String> = Vec::new();
    let mut current = String::new();
    let mut i: usize = 0;
    assert(s@.take(0) =~= Seq::<char>::empty());
    assert(texts(pieces@).push(current@) =~= seq![Seq::<char>::empty()]);
    while i < v.len()
        invariant
            i <= v.len(),
            v@ == s@,
            texts(pieces@).push(current@) == split_spec(s@.take(i as int), a, b),
        decreases v.len() - i,
    {
        let c = v[i];
        proof {
            let next = s@.take(i + 1);
            assert(next.drop_last() =~= s@.take(i as int));
            assert(next.last() == c);
        }
        let ghost before = texts(pieces@).push(current@);
        if c == a || c == b {
            proof {
                lemma_texts_push(pieces@, current);
            }
            pieces.push(current);
            current = String::new();
        } else {
            current.push(c);
            assert(texts(pieces@).push(current@) =~= before.drop_last().push(before.last().push(c)));
        }
        i += 1;
    }
    proof {
        assert(s@.take(v.len() as int) =~= s@);
        lemma_texts_push(pieces@, current);
    }
    pieces.push(current);
    pieces
}

/// Whether `needle` occurs in `hay`.
pub fn contains(hay: &str, needle: &str) -> (r: bool)
    ensures
        r == contains_spec(hay@, needle@),
{
    let h = to_chars(hay);
    let n = to_chars(needle);
    if n.len() > h.len() {
        assert forall|at: int| !occurs_at(hay@, needle@, at) by {}
        return false;
    }
    let last: usize = h.len() - n.len();
    let mut at: usize = 0;
    while at <= last
        invariant
            h@ == hay@,
            n@ == needle@,
            last + n.len() == h.len(),
            at <= last + 1,
            forall|k: int| 0 <= k < at ==> !occurs_at(hay@, needle@, k),
        decreases last + 1 - at,
    {
        let mut j: usize = 0;
        while j < n.len() && h[at + j] == n[j]
            invariant
                at <= last,
                last + n.len() == h.len(),
                j <= n.len(),
                forall|k: int| 0 <= k < j ==> h@[at + k] == n@[k],
            decreases n.len() - j,
        {
            j += 1;
        }
        if j == n.len() {
            assert(h@.subrange(at as int, at + n.len()) =~= n@);
            assert(occurs_at(hay@, needle@, at as int));
            return true;
        }
        assert(!occurs_at(hay@, needle@, at as int)) by {
            if occurs_at(hay@, needle@, at as int) {
                assert(h@.subrange(at as int, at + n.len())[j as int] == n@[j as int]);
            }
        }
        at += 1;
    }
    assert forall|k: int| !occurs_at(hay@, needle@, k) by {}
    false
}

/// The lower-case form of an ASCII letter.
pub fn char_ascii_lower(c: char) -> (r: char)
    ensures
        r == ascii_lower(c),
{
    if 'A' <= c && c <= 'Z' {
        ((c as u32 + 32) as u8) as char
    } else {
        c
    }
}

/// Whether two strings are equal up to the case of ASCII letters.
pub fn eq_ignore_ascii_case(a: &str, b: &str) -> (r: bool)
    ensures
        r == eq_ignore_ascii_case_spec(a@, b@),
{
    let x = to_chars(a);
    let y = to_chars(b);
    if x.len() != y.len() {
        return false;
    }
    let mut i: usize = 0;
    while i < x.len()
        invariant
            i <= x.len(),
            x.len() == y.len(),
            x@ == a@,
            y@ == b@,
            forall|k: int| 0 <= k < i ==> ascii_lower(#[trigger] x@[k]) == ascii_lower(y@[k]),
        decreases x.len() - i,
    {
        if char_ascii_lower(x[i]) != char_ascii_lower(y[i]) {
            return false;
        }
        i += 1;
    }
    true
}

/// Right-aligns `s` in a field of `width` characters filled with `fill`.
pub fn pad_left(s: &str, width: usize, fill: char) -> (r: String)
    ensures
        r@ == pad_left_spec(s@, width as nat, fill),
{
    let v = to_chars(s);
    let mut r = String::new();
    if v.len() < width {
        let missing: usize = width - v.len();
        let mut i: usize = 0;
        while i < missing
            invariant
                i <= missing,
                r@ == Seq::new(i as nat, |k: int| fill),
            decreases missing - i,
        {
            r.push(fill);
            i += 1;
            assert(r@ =~= Seq::new(i as nat, |k: int| fill));
        }
    }
    let ghost padding = r@;
    let mut j: usize = 0;
    while j < v.len()
        invariant
            j <= v.len(),
            r@ == padding + v@.take(j as int),
        decreases v.len() - j,
    {
        r.push(v[j]);
        j += 1;
        assert(padding + v@.take(j as int) =~= (padding + v@.take(j - 1)).push(v@[j - 1]));
    }
    assert(v@.take(v.len() as int) =~= v@);
    assert(Seq::<char>::empty() + v@ =~= v@);
    r
}

} // verus!
