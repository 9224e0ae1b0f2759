//! Text as sequences of characters: lines, joining, trimming and prefixes.
//!
//! Every operation is stated over `Seq<char>`, the view of `str` and `String`,
//! and implemented over `Vec<char>`, which gives constant-time access to a
//! character.

use vstd::prelude::*;

verus! {

/// Whether `c` has the Unicode property `White_Space`.
pub open spec fn is_whitespace(c: char) -> bool {
    let u = c as u32;
    ||| 0x09 <= u <= 0x0d
    ||| u == 0x20
    ||| u == 0x85
    ||| u == 0xa0
    ||| u == 0x1680
    ||| 0x2000 <= u <= 0x200a
    ||| u == 0x2028
    ||| u == 0x2029
    ||| u == 0x202f
    ||| u == 0x205f
    ||| u == 0x3000
}

/// Index of the first character of `s` at or after `from` that is not
/// whitespace; the length of `s` where there is none.
pub open spec fn skip_whitespace(s: Seq<char>, from: int) -> int
    decreases s.len() - from,
{
    if from >= s.len() {
        s.len() as int
    } else if !is_whitespace(s[from]) {
        from
    } else {
        skip_whitespace(s, from + 1)
    }
}

/// Index just past the last character of `s` before `to` that is not
/// whitespace; 0 where there is none.
pub open spec fn skip_whitespace_back(s: Seq<char>, to: int) -> int
    decreases to,
{
    if to <= 0 {
        0
    } else if !is_whitespace(s[to - 1]) {
        to
    } else {
        skip_whitespace_back(s, to - 1)
    }
}

/// `s` without its leading and trailing whitespace.
pub open spec fn trimmed(s: Seq<char>) -> Seq<char> {
    let from = skip_whitespace(s, 0);
    let to = skip_whitespace_back(s, s.len() as int);
    if from < to {
        s.subrange(from, to)
    } else {
        Seq::empty()
    }
}

/// Whether `c` is a whitespace character.
pub fn is_space(c: char) -> (b: bool)
    ensures
        b == is_whitespace(c),
{
    let u: u32 = c as u32;
    (0x09 <= u && u <= 0x0d) || u == 0x20 || u == 0x85 || u == 0xa0 || u == 0x1680 || (0x2000 <= u
        && u <= 0x200a) || u == 0x2028 || u == 0x2029 || u == 0x202f || u == 0x205f || u == 0x3000
}

/// The bounds of `trimmed(s)` within `s`: the trimmed text is `s[from..to]`.
pub fn trim_bounds(s: &Vec<char>) -> (bounds: (usize, usize))
    ensures
        bounds.0 <= bounds.1 <= s.len(),
        s@.subrange(bounds.0 as int, bounds.1 as int) == trimmed(s@),
{
    let n: usize = s.len();
    let mut from: usize = 0;
    while from < n && is_space(s[from])
        invariant
            n == s.len(),
            from <= n,
            skip_whitespace(s@, 0) == skip_whitespace(s@, from as int),
        decreases n - from,
    {
        from += 1;
    }
    let mut to: usize = n;
    while to > from && is_space(s[to - 1])
        invariant
            n == s.len(),
            from <= to <= n,
            skip_whitespace_back(s@, n as int) == skip_whitespace_back(s@, to as int),
        decreases to,
    {
        to -= 1;
    }
    proof {
        if from < to {
            assert(skip_whitespace(s@, from as int) == from);
            assert(skip_whitespace_back(s@, to as int) == to);
        } else {
            lemma_skip_whitespace_back_bound(s@, from as int);
            assert(s@.subrange(from as int, to as int) =~= Seq::<char>::empty());
        }
    }
    (from, to)
}

/// Scanning back from a position at or before the first character that is
/// not whitespace finds nothing but whitespace, and so ends at or before it.
proof fn lemma_skip_whitespace_back_bound(s: Seq<char>, to: int)
    requires
        0 <= to <= s.len(),
        to <= skip_whitespace(s, 0),
    ensures
        skip_whitespace_back(s, to) == 0,
    decreases to,
{
    if to > 0 {
        lemma_skip_whitespace_reaches(s, 0, to - 1);
        lemma_skip_whitespace_back_bound(s, to - 1);
    }
}

/// Every character between a starting point and the place where skipping
/// whitespace stops is whitespace.
proof fn lemma_skip_whitespace_reaches(s: Seq<char>, from: int, i: int)
    requires
        0 <= from <= i < skip_whitespace(s, from),
    ensures
        i < s.len(),
        is_whitespace(s[i]),
    decreases s.len() - from,
{
    if from < s.len() && is_whitespace(s[from]) && from < i {
        lemma_skip_whitespace_reaches(s, from + 1, i);
    }
}

/// Whether `s[from..]` begins with `prefix`.
pub open spec fn has_prefix_at(s: Seq<char>, from: int, prefix: Seq<char>) -> bool {
    &&& 0 <= from
    &&& from + prefix.len() <= s.len()
    &&& s.subrange(from, from + prefix.len()) == prefix
}

/// Whether `s` begins with `prefix`.
pub open spec fn has_prefix(s: Seq<char>, prefix: Seq<char>) -> bool {
    has_prefix_at(s, 0, prefix)
}

/// Whether `needle` occurs in `hay` as a run of neighbouring characters.
pub open spec fn occurs_in(needle: Seq<char>, hay: Seq<char>) -> bool {
    exists|at: int| #[trigger] has_prefix_at(hay, at, needle)
}

/// Whether `s[from..to]` begins with `prefix`.
pub fn starts_with_at(s: &Vec<char>, from: usize, to: usize, prefix: &Vec<char>) -> (b: bool)
    requires
        from <= to <= s.len(),
    ensures
        b == has_prefix(s@.subrange(from as int, to as int), prefix@),
{
    let m: usize = prefix.len();
    if m > to - from {
        return false;
    }
    let ghost part = s@.subrange(from as int, to as int);
    let mut i: usize = 0;
    while i < m
        invariant
            from <= to <= s.len(),
            m == prefix.len(),
            m <= to - from,
            i <= m,
            part == s@.subrange(from as int, to as int),
            part.subrange(0, i as int) == prefix@.subrange(0, i as int),
        decreases m - i,
    {
        if s[from + i] != prefix[i] {
            proof {
                assert(part.subrange(0, m as int)[i as int] != prefix@[i as int]);
            }
            return false;
        }
        proof {
            assert(part.subrange(0, i + 1) =~= part.subrange(0, i as int).push(part[i as int]));
            assert(prefix@.subrange(0, i + 1) =~= prefix@.subrange(0, i as int).push(
                prefix@[i as int],
            ));
        }
        i += 1;
    }
    proof {
        assert(prefix@.subrange(0, m as int) =~= prefix@);
    }
    true
}

/// Whether the two texts hold the same characters.
pub fn same_text(a: &Vec<char>, b: &Vec<char>) -> (same: bool)
    ensures
        same == (a@ == b@),
{
    if a.len() != b.len() {
        return false;
    }
    let same = starts_with_at(a, 0, a.len(), b);
    proof {
        assert(a@.subrange(0, a.len() as int) =~= a@);
        assert(a@.subrange(0, b.len() as int) =~= a@);
    }
    same
}

/// Whether the two strings hold the same characters.
pub fn str_equals(a: &str, b: &str) -> (same: bool)
    ensures
        same == (a@ == b@),
{
    let a_chars = to_chars(a);
    let b_chars = to_chars(b);
    same_text(&a_chars, &b_chars)
}

/// The characters `s[from..to]`.
pub fn copy_range(s: &Vec<char>, from: usize, to: usize) -> (part: Vec<char>)
    requires
        from <= to <= s.len(),
    ensures
        part@ == s@.subrange(from as int, to as int),
{
    let mut part: Vec<char> = Vec::new();
    let mut i: usize = from;
    while i < to
        invariant
            from <= i <= to <= s.len(),
            part@ == s@.subrange(from as int, i as int),
        decreases to - i,
    {
        part.push(s[i]);
        i += 1;
    }
    part
}

/// Builds a string from characters with `String::from_iter`. The contract
/// claims what the standard library documents of it: the string holds the
/// characters that the iterator yields, in their order, and nothing else.
#[verifier::external_body]
pub(crate) fn string_from_chars(chars: &Vec<char>) -> (s: String)
    ensures
        s@ == chars@,
{
    String::from_iter(chars)
}

/// The characters of `s`, in order.
pub fn to_chars(s: &str) -> (chars: Vec<char>)
    ensures
        chars@ == s@,
{
    broadcast use vstd::string::group_string_axioms;

    let mut chars: Vec<char> = Vec::new();
    for c in it: s.chars()
        invariant
            it.seq() == s@,
            chars@ == s@.take(it.index()),
    {
        chars.push(c);
    }
    chars
}

} // verus!
