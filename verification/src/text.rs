//! Character-level helpers for headings and file names.
//!
//! Everything here is stated over `Seq<char>`, the view of `str` and `String`.

use vstd::prelude::*;
use vstd::string::*;

verus! {

/// The heading marker. A heading of level `k` starts with `k` markers.
pub const MARKER: char = '*';

/// Whether `c` has the Unicode property White_Space, as `char::is_whitespace`
/// reports it.
pub uninterp spec fn is_white_space(c: char) -> bool;

/// Trusted: `char::is_whitespace` is a function of the character alone; its
/// answer is what [`is_white_space`] names.
pub assume_specification[ char::is_whitespace ](c: char) -> (b: bool)
    ensures
        b == is_white_space(c),
;

/// The lower-case form of `s`, as `str::to_lowercase` computes it.
pub uninterp spec fn lowercase(s: Seq<char>) -> Seq<char>;

/// Trusted: `str::to_lowercase` depends on the characters of its argument
/// alone (it consults no locale); its result is what [`lowercase`] names.
pub assume_specification[ str::to_lowercase ](s: &str) -> (r: String)
    ensures
        r@ == lowercase(s@),
;

/// Trusted: `String::push` appends the one character to the end of the string.
pub assume_specification[ String::push ](s: &mut String, ch: char)
    ensures
        final(s)@ == old(s)@.push(ch),
;

/// `n` copies of `c`.
pub open spec fn repeated(c: char, n: nat) -> Seq<char> {
    Seq::new(n, |i: int| c)
}

/// Appends `n` copies of `c` to `out`.
pub fn push_repeated(out: &mut String, c: char, n: usize)
    ensures
        final(out)@ == old(out)@ + repeated(c, n as nat),
{
    let mut i: usize = 0;
    while i < n
        invariant
            i <= n,
            out@ == old(out)@ + repeated(c, i as nat),
        decreases n - i,
    {
        out.push(c);
        i = i + 1;
    }
}

/// `s` without one leading marker-and-space, if it starts with one.
pub open spec fn without_heading_prefix(s: Seq<char>) -> Seq<char> {
    if s.len() >= 2 && s[0] == MARKER && s[1] == ' ' {
        s.skip(2)
    } else {
        s
    }
}

/// Removes one leading `"* "` from `content`, so that text which already
/// looks like a heading does not get its markers doubled.
pub fn strip_heading_prefix(content: &str) -> (r: String)
    ensures
        r@ == without_heading_prefix(content@),
{
    let n: usize = content.unicode_len();
    if n >= 2 && content.get_char(0) == MARKER && content.get_char(1) == ' ' {
        content.substring_char(2, n).to_owned()
    } else {
        content.to_owned()
    }
}

/// `s` without its leading white space.
pub open spec fn trim_start(s: Seq<char>) -> Seq<char>
    decreases s.len(),
{
    if s.len() > 0 && is_white_space(s.first()) {
        trim_start(s.drop_first())
    } else {
        s
    }
}

/// `s` without its trailing white space.
pub open spec fn trim_end(s: Seq<char>) -> Seq<char>
    decreases s.len(),
{
    if s.len() > 0 && is_white_space(s.last()) {
        trim_end(s.drop_last())
    } else {
        s
    }
}

/// `s` without the white space around it.
pub open spec fn trimmed(s: Seq<char>) -> Seq<char> {
    trim_end(trim_start(s))
}

/// Dropping a run of `a` leading white-space characters that ends at a
/// character of another kind, or at the end, is `trim_start`.
proof fn lemma_trim_start(s: Seq<char>, a: int)
    requires
        0 <= a <= s.len(),
        forall|k: int| 0 <= k < a ==> is_white_space(s[k]),
        a < s.len() ==> !is_white_space(s[a]),
    ensures
        trim_start(s) == s.skip(a),
    decreases a,
{
    if a > 0 {
        let rest = s.drop_first();
        assert forall|k: int| 0 <= k < a - 1 implies is_white_space(rest[k]) by {
            assert(rest[k] == s[k + 1]);
        }
        lemma_trim_start(rest, a - 1);
    }
}

/// Keeping the first `b` characters, where only white space follows them and
/// the last of them is of another kind, is `trim_end`.
proof fn lemma_trim_end(s: Seq<char>, b: int)
    requires
        0 <= b <= s.len(),
        forall|k: int| b <= k < s.len() ==> is_white_space(s[k]),
        b > 0 ==> !is_white_space(s[b - 1]),
    ensures
        trim_end(s) == s.take(b),
    decreases s.len() - b,
{
    if b < s.len() {
        lemma_trim_end(s.drop_last(), b);
    }
}

/// For each character of `s`, whether it is white space.
pub open spec fn white_space_marks(s: Seq<char>) -> Seq<bool> {
    Seq::new(s.len(), |i: int| is_white_space(s[i]))
}

/// Marks the white space of `s`: one flag for each character, set where the
/// character is white space.
pub fn mark_white_space(s: &str) -> (marks: Vec<bool>)
    ensures
        marks@ == white_space_marks(s@),
{
    let mut marks: Vec<bool> = Vec::new();
    for c in it: s.chars()
        invariant
            it.seq() == s@,
            marks@ == white_space_marks(s@.take(it.index() as int)),
    {
        marks.push(c.is_whitespace());
    }
    marks
}

/// Whether `start` and `end` bound what remains of a text when the marked
/// positions at its two ends are dropped: only marked positions lie outside,
/// and the first and the last position inside are not marked. Where every
/// position is marked nothing remains, and both bounds are the length.
pub open spec fn is_unmarked_span(marks: Seq<bool>, start: int, end: int) -> bool {
    &&& 0 <= start <= end <= marks.len()
    &&& forall|k: int| 0 <= k < start ==> marks[k]
    &&& forall|k: int| end <= k < marks.len() ==> marks[k]
    &&& start < end ==> !marks[start] && !marks[end - 1]
    &&& start == end ==> start == marks.len()
}

/// Finds what remains when the marked positions at the two ends are dropped.
pub fn unmarked_span(marks: &Vec<bool>) -> (span: (usize, usize))
    ensures
        is_unmarked_span(marks@, span.0 as int, span.1 as int),
{
    let n: usize = marks.len();
    let mut start: usize = 0;
    while start < n && marks[start]
        invariant
            start <= n,
            n == marks.len(),
            forall|k: int| 0 <= k < start ==> marks[k],
        decreases n - start,
    {
        start = start + 1;
    }
    let mut end: usize = n;
    while end > start && marks[end - 1]
        invariant
            start <= end <= n,
            n == marks.len(),
            forall|k: int| end <= k < n ==> marks[k],
        decreases end,
    {
        end = end - 1;
    }
    (start, end)
}

/// What lies between the bounds of the unmarked span of a text's white-space
/// marks is the text without the white space around it.
pub proof fn lemma_trimmed_is_unmarked_span(s: Seq<char>, start: int, end: int)
    requires
        is_unmarked_span(white_space_marks(s), start, end),
    ensures
        trimmed(s) == s.subrange(start, end),
{
    let marks = white_space_marks(s);
    assert forall|k: int| 0 <= k < start implies is_white_space(s[k]) by {
        assert(marks[k]);
    }
    assert forall|k: int| end <= k < s.len() implies is_white_space(s[k]) by {
        assert(marks[k]);
    }
    lemma_trim_start(s, start);
    let rest = s.skip(start);
    assert forall|k: int| end - start <= k < rest.len() implies is_white_space(rest[k]) by {
        assert(rest[k] == s[k + start]);
    }
    lemma_trim_end(rest, end - start);
    assert(rest.take(end - start) =~= s.subrange(start, end));
}

/// Removes the white space around `s`.
pub fn trim(s: &str) -> (r: String)
    ensures
        r@ == trimmed(s@),
{
    let marks = mark_white_space(s);
    let (start, end) = unmarked_span(&marks);
    proof {
        lemma_trimmed_is_unmarked_span(s@, start as int, end as int);
    }
    s.substring_char(start, end).to_owned()
}

/// `s` with every space replaced by an underscore.
pub open spec fn spaces_to_underscores(s: Seq<char>) -> Seq<char> {
    s.map_values(|c: char| if c == ' ' { '_' } else { c })
}

/// Replaces every space of `s` by an underscore.
pub fn replace_spaces(s: &str) -> (r: String)
    ensures
        r@ == spaces_to_underscores(s@),
{
    let mut r = String::new();
    for c in it: s.chars()
        invariant
            it.seq() == s@,
            r@ == spaces_to_underscores(s@.take(it.index() as int)),
    {
        if c == ' ' {
            r.push('_');
        } else {
            r.push(c);
        }
    }
    r
}

} // verus!
