//! Character-level helpers shared by the diff grammar: line boundaries,
//! prefix tests and copying of text out of the input.
use vstd::prelude::*;
use vstd::std_specs::iter::IteratorSpec;

verus! {

broadcast use vstd::string::group_string_axioms;

/// Relies on `String::push`: the character is appended to the end of the string.
pub assume_specification[ String::push ](s: &mut String, ch: char)
    ensures
        final(s)@ == old(s)@.push(ch),
;

pub open spec fn spec_is_new_line(c: char) -> bool {
    c == '\n'
}

/// A space or a tab.
pub open spec fn spec_is_space(c: char) -> bool {
    c == ' ' || c == '\t'
}

pub open spec fn spec_is_whitespace(c: char) -> bool {
    spec_is_space(c) || spec_is_new_line(c)
}

/// Index of the first newline at or after `i`, or the length of `s` when none follows.
pub open spec fn line_end(s: Seq<char>, i: int) -> int
    decreases s.len() - i,
{
    if i >= s.len() {
        s.len() as int
    } else if s[i] == '\n' {
        i
    } else {
        line_end(s, i + 1)
    }
}

/// Start of the line that follows the one holding position `i`.
pub open spec fn next_line(s: Seq<char>, i: int) -> int {
    if line_end(s, i) < s.len() {
        line_end(s, i) + 1
    } else {
        s.len() as int
    }
}

/// The text from `i` up to (not including) the end of its line.
pub open spec fn rest_of_line(s: Seq<char>, i: int) -> Seq<char> {
    s.subrange(i, line_end(s, i))
}

/// `t` occurs in `s` starting at index `i`.
pub open spec fn has_prefix(s: Seq<char>, i: int, t: Seq<char>) -> bool {
    0 <= i && i + t.len() <= s.len() && s.subrange(i, i + t.len()) == t
}

/// Index of the first whitespace character at or after `i`, or the length of `s`.
pub open spec fn word_end(s: Seq<char>, i: int) -> int
    decreases s.len() - i,
{
    if i >= s.len() {
        s.len() as int
    } else if spec_is_whitespace(s[i]) {
        i
    } else {
        word_end(s, i + 1)
    }
}

/// First index `j` with `i <= j` and `j + t.len() <= e` at which `t` occurs, if any.
pub open spec fn find_from(s: Seq<char>, t: Seq<char>, i: int, e: int) -> Option<int>
    decreases e - i,
{
    if i + t.len() > e || i >= e {
        None
    } else if has_prefix(s, i, t) {
        Some(i)
    } else {
        find_from(s, t, i + 1, e)
    }
}

/// Everything from `i` on is whitespace (vacuously so at the end).
pub open spec fn all_whitespace(s: Seq<char>, i: int) -> bool {
    forall|j: int| i <= j < s.len() ==> spec_is_whitespace(#[trigger] s[j])
}

pub proof fn lemma_line_end_bounds(s: Seq<char>, i: int)
    requires
        0 <= i <= s.len(),
    ensures
        i <= line_end(s, i) <= s.len(),
        line_end(s, i) < s.len() ==> s[line_end(s, i)] == '\n',
        forall|j: int| i <= j < line_end(s, i) ==> s[j] != '\n',
    decreases s.len() - i,
{
    if i < s.len() && s[i] != '\n' {
        lemma_line_end_bounds(s, i + 1);
    }
}

pub proof fn lemma_next_line_bounds(s: Seq<char>, i: int)
    requires
        0 <= i <= s.len(),
    ensures
        i <= next_line(s, i) <= s.len(),
        i < s.len() ==> i < next_line(s, i),
{
    lemma_line_end_bounds(s, i);
}

pub proof fn lemma_find_from_bounds(s: Seq<char>, t: Seq<char>, i: int, e: int)
    requires
        0 <= i,
        e <= s.len(),
    ensures
        find_from(s, t, i, e) is Some ==> {
            let j = find_from(s, t, i, e)->0;
            i <= j && j + t.len() <= e && has_prefix(s, j, t)
        },
    decreases e - i,
{
    if !(i + t.len() > e || i >= e) && !has_prefix(s, i, t) {
        lemma_find_from_bounds(s, t, i + 1, e);
    }
}

pub fn is_new_line(c: char) -> (r: bool)
    ensures
        r == spec_is_new_line(c),
{
    c == '\n'
}

pub fn is_space(c: char) -> (r: bool)
    ensures
        r == spec_is_space(c),
{
    c == ' ' || c == '\t'
}

pub fn is_whitespace(c: char) -> (r: bool)
    ensures
        r == spec_is_whitespace(c),
{
    is_space(c) || is_new_line(c)
}

/// The characters of `input`, in order.
pub fn to_chars(input: &str) -> (r: Vec<char>)
    ensures
        r@ == input@,
{
    let mut out: Vec<char> = Vec::new();
    let mut it = input.chars();
    loop
        invariant
            out@ + it.remaining() == input@,
            it.obeys_prophetic_iter_laws(),
            it.decrease() is Some,
        ensures
            out@ == input@,
        decreases it.decrease()->0,
    {
        match it.next() {
            Some(c) => {
                out.push(c);
            },
            None => {
                assert(out@ + it.remaining() =~= out@);
                break;
            },
        }
    }
    out
}

/// A `String` holding the characters `s[from..to]`.
pub fn substring(s: &Vec<char>, from: usize, to: usize) -> (r: String)
    requires
        from <= to <= s.len(),
    ensures
        r@ == s@.subrange(from as int, to as int),
{
    let mut out = String::new();
    let mut k = from;
    while k < to
        invariant
            from <= k <= to <= s.len(),
            out@ == s@.subrange(from as int, k as int),
        decreases to - k,
    {
        out.push(s[k]);
        assert(s@.subrange(from as int, k + 1) == s@.subrange(from as int, k as int).push(s@[k as int]));
        k += 1;
    }
    out
}

/// Position just past the end of the line holding position `i` (its newline excluded).
pub fn find_line_end(s: &Vec<char>, i: usize) -> (e: usize)
    requires
        i <= s.len(),
    ensures
        e == line_end(s@, i as int),
        i <= e <= s.len(),
{
    let mut k = i;
    while k < s.len() && s[k] != '\n'
        invariant
            i <= k <= s.len(),
            line_end(s@, i as int) == line_end(s@, k as int),
        decreases s.len() - k,
    {
        k += 1;
    }
    k
}

/// Start of the line after the one holding position `i`.
pub fn find_next_line(s: &Vec<char>, i: usize) -> (n: usize)
    requires
        i <= s.len(),
    ensures
        n == next_line(s@, i as int),
        i <= n <= s.len(),
        i < s.len() ==> i < n,
{
    let e = find_line_end(s, i);
    proof {
        lemma_next_line_bounds(s@, i as int);
    }
    if e < s.len() {
        e + 1
    } else {
        e
    }
}

/// First whitespace position at or after `i`, or the end of `s`.
pub fn find_word_end(s: &Vec<char>, i: usize) -> (e: usize)
    requires
        i <= s.len(),
    ensures
        e == word_end(s@, i as int),
        i <= e <= s.len(),
{
    let mut k = i;
    while k < s.len() && !is_whitespace(s[k])
        invariant
            i <= k <= s.len(),
            word_end(s@, i as int) == word_end(s@, k as int),
        decreases s.len() - k,
    {
        k += 1;
    }
    k
}

/// Whether the characters of `t` stand in `s` from position `i` on.
pub fn has_prefix_at(s: &Vec<char>, i: usize, t: &str) -> (r: bool)
    ensures
        r == has_prefix(s@, i as int, t@),
{
    let n = t.unicode_len();
    if i > s.len() || n > s.len() - i {
        return false;
    }
    let mut k: usize = 0;
    while k < n
        invariant
            n == t@.len(),
            i + n <= s.len(),
            0 <= k <= n,
            forall|j: int| 0 <= j < k ==> s@[i + j] == t@[j],
        decreases n - k,
    {
        if s[i + k] != t.get_char(k) {
            assert(s@.subrange(i as int, i + n)[k as int] != t@[k as int]);
            return false;
        }
        k += 1;
    }
    assert(s@.subrange(i as int, i + n) =~= t@);
    true
}

/// First position `j` in `[i, e)` at which `t` occurs wholly before `e`.
pub fn find_pattern(s: &Vec<char>, t: &str, i: usize, e: usize) -> (r: Option<usize>)
    requires
        i <= e <= s.len(),
    ensures
        match r {
            Some(j) => find_from(s@, t@, i as int, e as int) == Some(j as int),
            None => find_from(s@, t@, i as int, e as int) is None,
        },
{
    let n = t.unicode_len();
    let mut k = i;
    while k < e && n <= e - k
        invariant
            i <= k <= e <= s.len(),
            n == t@.len(),
            find_from(s@, t@, i as int, e as int) == find_from(s@, t@, k as int, e as int),
        decreases e - k,
    {
        if has_prefix_at(s, k, t) {
            return Some(k);
        }
        k += 1;
    }
    None
}

/// Whether everything from position `i` on is whitespace.
pub fn is_all_whitespace(s: &Vec<char>, i: usize) -> (r: bool)
    requires
        i <= s.len(),
    ensures
        r == all_whitespace(s@, i as int),
{
    let mut k = i;
    while k < s.len()
        invariant
            i <= k <= s.len(),
            forall|j: int| i <= j < k ==> spec_is_whitespace(#[trigger] s@[j]),
        decreases s.len() - k,
    {
        if !is_whitespace(s[k]) {
            return false;
        }
        k += 1;
    }
    true
}

} // verus!
