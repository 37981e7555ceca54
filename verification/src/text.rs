//! The mathematical model of the text being searched: characters, lowercase
//! folding, substring containment, and the division of a body of text into
//! lines, together with the executable helpers that realize the model.

use vstd::prelude::*;

verus! {

/// The locale-independent lowercase mapping: the ASCII letters `'A'` through
/// `'Z'` fold to `'a'` through `'z'`; every other character is unchanged.
pub open spec fn lower_char(c: char) -> char {
    if 'A' <= c && c <= 'Z' {
        ((c as u32) + 32) as char
    } else {
        c
    }
}

/// Character-wise lowercase folding of a sequence.
pub open spec fn lower_seq(s: Seq<char>) -> Seq<char> {
    s.map_values(|c: char| lower_char(c))
}

/// Lowercase one character, ASCII letters only.
pub fn lowercase_char(c: char) -> (r: char)
    ensures
        r == lower_char(c),
{
    match c {
        'A' => 'a',
        'B' => 'b',
        'C' => 'c',
        'D' => 'd',
        'E' => 'e',
        'F' => 'f',
        'G' => 'g',
        'H' => 'h',
        'I' => 'i',
        'J' => 'j',
        'K' => 'k',
        'L' => 'l',
        'M' => 'm',
        'N' => 'n',
        'O' => 'o',
        'P' => 'p',
        'Q' => 'q',
        'R' => 'r',
        'S' => 's',
        'T' => 't',
        'U' => 'u',
        'V' => 'v',
        'W' => 'w',
        'X' => 'x',
        'Y' => 'y',
        'Z' => 'z',
        _ => c,
    }
}

/// `needle` occurs contiguously somewhere within `hay`.
pub open spec fn contains_seq(hay: Seq<char>, needle: Seq<char>) -> bool {
    exists|i: int|
        0 <= i && i + needle.len() <= hay.len() && #[trigger] hay.subrange(i, i + needle.len())
            == needle
}

/// Copy the characters of `s` into a vector.
pub fn str_chars(s: &str) -> (r: Vec<char>)
    ensures
        r@ == s@,
{
    let n = s.unicode_len();
    let mut r: Vec<char> = Vec::new();
    let mut i: usize = 0;
    while i < n
        invariant
            n == s@.len(),
            i <= n,
            r@ == s@.subrange(0, i as int),
        decreases n - i,
    {
        r.push(s.get_char(i));
        proof {
            assert(r@ =~= s@.subrange(0, i + 1));
        }
        i += 1;
    }
    proof {
        assert(s@.subrange(0, n as int) =~= s@);
    }
    r
}

/// Lowercase the characters of `v[start..end]` into a fresh vector.
pub fn lower_range(v: &Vec<char>, start: usize, end: usize) -> (r: Vec<char>)
    requires
        start <= end <= v@.len(),
    ensures
        r@ == lower_seq(v@.subrange(start as int, end as int)),
{
    let mut r: Vec<char> = Vec::new();
    let mut k: usize = start;
    while k < end
        invariant
            start <= k <= end <= v@.len(),
            r@ == lower_seq(v@.subrange(start as int, k as int)),
        decreases end - k,
    {
        r.push(lowercase_char(v[k]));
        proof {
            assert(r@ =~= lower_seq(v@.subrange(start as int, k + 1)));
        }
        k += 1;
    }
    r
}

/// Does `needle` stand at position `at` of `hay`?
fn match_at(hay: &Vec<char>, at: usize, needle: &Vec<char>) -> (r: bool)
    requires
        at + needle@.len() <= hay@.len(),
    ensures
        r == (hay@.subrange(at as int, at + needle@.len()) == needle@),
{
    let n = needle.len();
    let hl = hay.len();
    let mut j: usize = 0;
    while j < n
        invariant
            n == needle@.len(),
            at + n <= hay@.len(),
            hay@.len() == hl,
            j <= n,
            forall|k: int| 0 <= k < j ==> hay@[at + k] == needle@[k],
        decreases n - j,
    {
        if hay[at + j] != needle[j] {
            proof {
                assert(hay@.subrange(at as int, at + n as int)[j as int] == hay@[at + j]);
            }
            return false;
        }
        j += 1;
    }
    proof {
        assert(hay@.subrange(at as int, at + n as int) =~= needle@);
    }
    true
}

/// Decide whether `needle` occurs within `hay[start..end]`.
pub fn contains_range(hay: &Vec<char>, start: usize, end: usize, needle: &Vec<char>) -> (r: bool)
    requires
        start <= end <= hay@.len(),
    ensures
        r == contains_seq(hay@.subrange(start as int, end as int), needle@),
{
    let ghost sub = hay@.subrange(start as int, end as int);
    let n = needle.len();
    let len = end - start;
    if n > len {
        return false;
    }
    if n == 0 {
        proof {
            let z: int = 0;
            assert(sub.subrange(z, z + needle@.len()) =~= needle@);
        }
        return true;
    }
    let last = len - n;
    let mut i: usize = 0;
    while i <= last
        invariant
            sub == hay@.subrange(start as int, end as int),
            n == needle@.len(),
            len == end - start,
            start <= end <= hay@.len(),
            1 <= n <= len,
            last == len - n,
            i <= last + 1,
            forall|k: int|
                0 <= k < i ==> #[trigger] hay@.subrange(start + k, start + k + n) != needle@,
        decreases last + 1 - i,
    {
        if match_at(hay, start + i, needle) {
            proof {
                assert(sub.subrange(i as int, i as int + needle@.len()) =~= hay@.subrange(
                    start + i,
                    start + i + n,
                ));
                assert(0 <= i as int && i as int + needle@.len() <= sub.len() && sub.subrange(
                    i as int,
                    i as int + needle@.len(),
                ) == needle@);
            }
            return true;
        }
        i += 1;
    }
    proof {
        assert forall|k: int| 0 <= k && k + needle@.len() <= sub.len() implies #[trigger] sub
            .subrange(k, k + needle@.len()) != needle@ by {
            assert(sub.subrange(k, k + n) =~= hay@.subrange(start + k, start + k + n));
        }
    }
    false
}

/// Lowercase folding is character-wise, so it carries substring containment
/// with it: where `needle` stands in `hay`, its lowercased form stands in
/// the lowercased `hay`.
pub proof fn lemma_contains_lower(hay: Seq<char>, needle: Seq<char>)
    requires
        contains_seq(hay, needle),
    ensures
        contains_seq(lower_seq(hay), lower_seq(needle)),
{
    let i = choose|i: int|
        0 <= i && i + needle.len() <= hay.len() && #[trigger] hay.subrange(i, i + needle.len())
            == needle;
    assert(lower_seq(hay).subrange(i, i + lower_seq(needle).len()) =~= lower_seq(needle)) by {
        assert forall|k: int| 0 <= k < needle.len() implies lower_seq(hay)[i + k] == lower_seq(
            needle,
        )[k] by {
            assert(hay.subrange(i, i + needle.len())[k] == hay[i + k]);
        }
    }
}

/// The position of the first newline in `s`, or `s.len()` if there is none.
pub open spec fn first_newline(s: Seq<char>) -> nat
    decreases s.len(),
{
    if s.len() == 0 {
        0
    } else if s[0] == '\n' {
        0
    } else {
        1 + first_newline(s.drop_first())
    }
}

/// `first_newline` names the unique position that no newline precedes and
/// that a newline or the end of the sequence occupies.
pub proof fn lemma_first_newline_at(s: Seq<char>, i: int)
    requires
        0 <= i <= s.len(),
        forall|k: int| 0 <= k < i ==> s[k] != '\n',
        i == s.len() || s[i] == '\n',
    ensures
        first_newline(s) == i,
    decreases i,
{
    if i == 0 {
    } else {
        assert(s[0] != '\n');
        lemma_first_newline_at(s.drop_first(), i - 1);
    }
}

/// A line as cut off before a newline, with a single carriage return that
/// immediately precedes the newline removed.
pub open spec fn strip_cr(l: Seq<char>) -> Seq<char> {
    if l.len() > 0 && l[l.len() - 1] == '\r' {
        l.drop_last()
    } else {
        l
    }
}

/// The lines of `s`: the runs of characters between newline terminators, a
/// carriage return before each terminator stripped, the final terminator
/// optional, and no line at all in an empty sequence.
pub open spec fn lines_spec(s: Seq<char>) -> Seq<Seq<char>>
    decreases s.len(),
{
    if s.len() == 0 {
        Seq::empty()
    } else {
        let i = first_newline(s) as int;
        if i >= s.len() {
            seq![s]
        } else {
            seq![strip_cr(s.subrange(0, i))] + lines_spec(s.subrange(i + 1, s.len() as int))
        }
    }
}

} // verus!
