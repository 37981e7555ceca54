//! The matcher: the two line-searching operations, their specifications, and
//! the theorems that hold of them — order preservation, soundness,
//! completeness with multiplicity, and case-insensitive dominance.

use vstd::prelude::*;

use crate::text::contains_seq;
use crate::text::contains_range;
use crate::text::first_newline;
use crate::text::lemma_contains_lower;
use crate::text::lemma_first_newline_at;
use crate::text::lines_spec;
use crate::text::lower_range;
use crate::text::lower_seq;
use crate::text::str_chars;
use crate::text::strip_cr;

verus! {

/// A line matches the query case-sensitively when it contains it.
pub open spec fn line_matches(q: Seq<char>, l: Seq<char>) -> bool {
    contains_seq(l, q)
}

/// A line matches the query case-insensitively when its lowercased form
/// contains the lowercased query.
pub open spec fn line_matches_ci(q: Seq<char>, l: Seq<char>) -> bool {
    contains_seq(lower_seq(l), lower_seq(q))
}

/// The elements of `ls` that satisfy `p`, in order, with multiplicity.
pub open spec fn matching_of(p: spec_fn(Seq<char>) -> bool, ls: Seq<Seq<char>>) -> Seq<Seq<char>>
    decreases ls.len(),
{
    if ls.len() == 0 {
        Seq::empty()
    } else if p(ls[0]) {
        seq![ls[0]] + matching_of(p, ls.drop_first())
    } else {
        matching_of(p, ls.drop_first())
    }
}

/// What `search` returns: the lines of `c` that contain `q`.
pub open spec fn search_spec(q: Seq<char>, c: Seq<char>) -> Seq<Seq<char>> {
    matching_of(|l: Seq<char>| line_matches(q, l), lines_spec(c))
}

/// What `search_case_insensitive` returns: the lines of `c` whose lowercased
/// form contains the lowercased `q`.
pub open spec fn search_ci_spec(q: Seq<char>, c: Seq<char>) -> Seq<Seq<char>> {
    matching_of(|l: Seq<char>| line_matches_ci(q, l), lines_spec(c))
}

proof fn lemma_matching_of_cons(p: spec_fn(Seq<char>) -> bool, x: Seq<char>, rest: Seq<Seq<char>>)
    ensures
        matching_of(p, seq![x] + rest) == (if p(x) {
            seq![x]
        } else {
            Seq::<Seq<char>>::empty()
        }) + matching_of(p, rest),
{
    let ls = seq![x] + rest;
    assert(ls.len() > 0);
    assert(ls[0] == x);
    assert(ls.drop_first() =~= rest);
    if !p(x) {
        assert(Seq::<Seq<char>>::empty() + matching_of(p, rest) =~= matching_of(p, rest));
    }
}

/// The loop shared by the two search variants: walk the text once, cut each
/// line off at its terminator, and keep the lines the chosen predicate
/// accepts, as slices of the input text.
fn search_core<'a>(query: &str, contents: &'a str, case_sensitive: bool) -> (r: Vec<&'a str>)
    ensures
        r.deep_view() == if case_sensitive {
            search_spec(query@, contents@)
        } else {
            search_ci_spec(query@, contents@)
        },
{
    let ghost p: spec_fn(Seq<char>) -> bool = if case_sensitive {
        (|l: Seq<char>| line_matches(query@, l))
    } else {
        (|l: Seq<char>| line_matches_ci(query@, l))
    };
    let qc = str_chars(query);
    let q = if case_sensitive {
        qc
    } else {
        let lq = lower_range(&qc, 0, qc.len());
        proof {
            assert(qc@.subrange(0, qc@.len() as int) =~= query@);
        }
        lq
    };
    let cv = str_chars(contents);
    let n = cv.len();
    let mut result: Vec<&'a str> = Vec::new();
    let mut pos: usize = 0;
    proof {
        assert(contents@.subrange(0, n as int) =~= contents@);
        assert(result.deep_view() =~= Seq::<Seq<char>>::empty());
        assert(result.deep_view() + matching_of(p, lines_spec(contents@)) =~= matching_of(
            p,
            lines_spec(contents@),
        ));
    }
    while pos < n
        invariant
            cv@ == contents@,
            n == cv@.len(),
            pos <= n,
            case_sensitive ==> q@ == query@,
            !case_sensitive ==> q@ == lower_seq(query@),
            case_sensitive ==> p == (|l: Seq<char>| line_matches(query@, l)),
            !case_sensitive ==> p == (|l: Seq<char>| line_matches_ci(query@, l)),
            matching_of(p, lines_spec(contents@)) == result.deep_view() + matching_of(
                p,
                lines_spec(contents@.subrange(pos as int, n as int)),
            ),
        decreases n - pos,
    {
        let ghost suffix = contents@.subrange(pos as int, n as int);
        let mut j: usize = pos;
        while j < n && cv[j] != '\n'
            invariant
                cv@ == contents@,
                n == cv@.len(),
                pos <= j <= n,
                forall|k: int| pos <= k < j ==> cv@[k] != '\n',
            decreases n - j,
        {
            j += 1;
        }
        proof {
            lemma_first_newline_at(suffix, j - pos);
        }
        let end = if j < n && pos < j && cv[j - 1] == '\r' {
            j - 1
        } else {
            j
        };
        let line: &'a str = contents.substring_char(pos, end);
        let ghost line_seq = contents@.subrange(pos as int, end as int);
        let ghost rest = if j < n {
            contents@.subrange(j + 1, n as int)
        } else {
            contents@.subrange(n as int, n as int)
        };
        proof {
            if j < n {
                assert(suffix.subrange(0, j - pos) =~= contents@.subrange(pos as int, j as int));
                assert(strip_cr(suffix.subrange(0, j - pos)) =~= line_seq);
                assert(suffix.subrange(j - pos + 1, suffix.len() as int) =~= rest);
                assert(lines_spec(suffix) == seq![line_seq] + lines_spec(rest));
            } else {
                assert(first_newline(suffix) == suffix.len());
                assert(suffix =~= line_seq);
                assert(lines_spec(suffix) == seq![line_seq]);
                assert(rest =~= Seq::<char>::empty());
                assert(lines_spec(rest) == Seq::<Seq<char>>::empty());
                assert(seq![line_seq] + lines_spec(rest) =~= lines_spec(suffix));
            }
            lemma_matching_of_cons(p, line_seq, lines_spec(rest));
        }
        let hit = if case_sensitive {
            contains_range(&cv, pos, end, &q)
        } else {
            let lv = lower_range(&cv, pos, end);
            let full = contains_range(&lv, 0, lv.len(), &q);
            proof {
                assert(lv@.subrange(0, lv@.len() as int) =~= lv@);
            }
            full
        };
        assert(hit == p(line_seq));
        let ghost prev = result.deep_view();
        if hit {
            result.push(line);
            proof {
                assert(result.deep_view() =~= prev + seq![line_seq]);
            }
        } else {
            proof {
                assert(result.deep_view() =~= prev + Seq::<Seq<char>>::empty());
            }
        }
        proof {
            assert(matching_of(p, lines_spec(contents@)) == result.deep_view() + matching_of(
                p,
                lines_spec(rest),
            )) by {
                assert((prev + (if p(line_seq) {
                    seq![line_seq]
                } else {
                    Seq::<Seq<char>>::empty()
                })) + matching_of(p, lines_spec(rest)) =~= prev + ((if p(line_seq) {
                    seq![line_seq]
                } else {
                    Seq::<Seq<char>>::empty()
                }) + matching_of(p, lines_spec(rest))));
            }
        }
        pos = if j < n {
            j + 1
        } else {
            n
        };
    }
    proof {
        assert(contents@.subrange(pos as int, n as int) =~= Seq::<char>::empty());
        assert(matching_of(p, lines_spec(contents@)) =~= result.deep_view());
    }
    result
}

/// Return every line of `contents` that contains `query`, in input order,
/// one entry per matching line.
pub fn search<'a>(query: &str, contents: &'a str) -> (r: Vec<&'a str>)
    ensures
        r.deep_view() == search_spec(query@, contents@),
{
    search_core(query, contents, true)
}

/// Return every line of `contents` whose lowercased form contains the
/// lowercased `query`, in input order, one entry per matching line.
pub fn search_case_insensitive<'a>(query: &str, contents: &'a str) -> (r: Vec<&'a str>)
    ensures
        r.deep_view() == search_ci_spec(query@, contents@),
{
    search_core(query, contents, false)
}

/// `xs` can be read off `ys` by deleting elements and keeping the order.
pub open spec fn is_subsequence_of<A>(xs: Seq<A>, ys: Seq<A>) -> bool
    decreases xs.len() + ys.len(),
{
    if xs.len() == 0 {
        true
    } else if ys.len() == 0 {
        false
    } else {
        (xs[0] == ys[0] && is_subsequence_of(xs.drop_first(), ys.drop_first()))
            || is_subsequence_of(xs, ys.drop_first())
    }
}

/// How often the line `v` occurs in `ls`.
pub open spec fn count_in(v: Seq<char>, ls: Seq<Seq<char>>) -> nat
    decreases ls.len(),
{
    if ls.len() == 0 {
        0
    } else {
        (if ls[0] == v {
            1nat
        } else {
            0nat
        }) + count_in(v, ls.drop_first())
    }
}

proof fn lemma_matching_of_subsequence(p: spec_fn(Seq<char>) -> bool, ls: Seq<Seq<char>>)
    ensures
        is_subsequence_of(matching_of(p, ls), ls),
    decreases ls.len(),
{
    if ls.len() > 0 {
        lemma_matching_of_subsequence(p, ls.drop_first());
        if p(ls[0]) {
            let m = matching_of(p, ls);
            assert(m == seq![ls[0]] + matching_of(p, ls.drop_first()));
            assert(m[0] == ls[0]);
            assert(m.drop_first() =~= matching_of(p, ls.drop_first()));
        }
    }
}

proof fn lemma_matching_of_sound(p: spec_fn(Seq<char>) -> bool, ls: Seq<Seq<char>>)
    ensures
        forall|i: int| 0 <= i < matching_of(p, ls).len() ==> p(#[trigger] matching_of(p, ls)[i]),
    decreases ls.len(),
{
    if ls.len() > 0 {
        lemma_matching_of_sound(p, ls.drop_first());
        if p(ls[0]) {
            let m = matching_of(p, ls);
            assert(m == seq![ls[0]] + matching_of(p, ls.drop_first()));
            assert forall|i: int| 0 <= i < m.len() implies p(#[trigger] m[i]) by {
                if i > 0 {
                    assert(m[i] == matching_of(p, ls.drop_first())[i - 1]);
                }
            }
        }
    }
}

proof fn lemma_matching_of_count(p: spec_fn(Seq<char>) -> bool, ls: Seq<Seq<char>>, v: Seq<char>)
    ensures
        p(v) ==> count_in(v, matching_of(p, ls)) == count_in(v, ls),
        !p(v) ==> count_in(v, matching_of(p, ls)) == 0,
    decreases ls.len(),
{
    if ls.len() > 0 {
        lemma_matching_of_count(p, ls.drop_first(), v);
        if p(ls[0]) {
            let m = matching_of(p, ls);
            assert(m == seq![ls[0]] + matching_of(p, ls.drop_first()));
            assert(m[0] == ls[0]);
            assert(m.drop_first() =~= matching_of(p, ls.drop_first()));
        }
    }
}

proof fn lemma_count_in_contains(v: Seq<char>, ls: Seq<Seq<char>>)
    ensures
        count_in(v, ls) > 0 <==> ls.contains(v),
    decreases ls.len(),
{
    if ls.len() > 0 {
        lemma_count_in_contains(v, ls.drop_first());
        if ls[0] == v {
            assert(ls.contains(v));
        } else {
            if ls.drop_first().contains(v) {
                let i = choose|i: int| 0 <= i < ls.drop_first().len() && ls.drop_first()[i] == v;
                assert(ls[i + 1] == v);
            }
            if ls.contains(v) {
                let i = choose|i: int| 0 <= i < ls.len() && ls[i] == v;
                assert(ls.drop_first()[i - 1] == v);
            }
        }
    }
}

/// Order preservation: each search variant returns a subsequence of the
/// lines of its input, so no line is reordered or invented.
pub proof fn lemma_search_order(q: Seq<char>, c: Seq<char>)
    ensures
        is_subsequence_of(search_spec(q, c), lines_spec(c)),
        is_subsequence_of(search_ci_spec(q, c), lines_spec(c)),
{
    lemma_matching_of_subsequence(|l: Seq<char>| line_matches(q, l), lines_spec(c));
    lemma_matching_of_subsequence(|l: Seq<char>| line_matches_ci(q, l), lines_spec(c));
}

/// Soundness: every line `search` returns contains the query, and every line
/// `search_case_insensitive` returns contains the lowercased query in its
/// own lowercased form.
pub proof fn lemma_search_sound(q: Seq<char>, c: Seq<char>)
    ensures
        forall|i: int|
            0 <= i < search_spec(q, c).len() ==> contains_seq(
                #[trigger] search_spec(q, c)[i],
                q,
            ),
        forall|i: int|
            0 <= i < search_ci_spec(q, c).len() ==> contains_seq(
                lower_seq(#[trigger] search_ci_spec(q, c)[i]),
                lower_seq(q),
            ),
{
    lemma_matching_of_sound(|l: Seq<char>| line_matches(q, l), lines_spec(c));
    lemma_matching_of_sound(|l: Seq<char>| line_matches_ci(q, l), lines_spec(c));
}

/// Completeness: every line of the input that satisfies the predicate
/// appears in the result, as often as it occurs among the input's lines, and
/// a line that does not satisfy it never appears.
pub proof fn lemma_search_complete(q: Seq<char>, c: Seq<char>)
    ensures
        forall|v: Seq<char>|
            line_matches(q, v) ==> #[trigger] count_in(v, search_spec(q, c)) == count_in(
                v,
                lines_spec(c),
            ),
        forall|v: Seq<char>|
            !line_matches(q, v) ==> #[trigger] count_in(v, search_spec(q, c)) == 0,
        forall|v: Seq<char>|
            line_matches_ci(q, v) ==> #[trigger] count_in(v, search_ci_spec(q, c)) == count_in(
                v,
                lines_spec(c),
            ),
        forall|v: Seq<char>|
            !line_matches_ci(q, v) ==> #[trigger] count_in(v, search_ci_spec(q, c)) == 0,
{
    assert forall|v: Seq<char>| true implies #[trigger] count_in(v, search_spec(q, c))
        == (if line_matches(q, v) {
        count_in(v, lines_spec(c))
    } else {
        0
    }) by {
        lemma_matching_of_count(|l: Seq<char>| line_matches(q, l), lines_spec(c), v);
    }
    assert forall|v: Seq<char>| true implies #[trigger] count_in(v, search_ci_spec(q, c))
        == (if line_matches_ci(q, v) {
        count_in(v, lines_spec(c))
    } else {
        0
    }) by {
        lemma_matching_of_count(|l: Seq<char>| line_matches_ci(q, l), lines_spec(c), v);
    }
}

/// Case-insensitive dominance: every line the case-sensitive search finds,
/// the case-insensitive one finds too, at least as often.
pub proof fn lemma_search_dominance(q: Seq<char>, c: Seq<char>)
    ensures
        forall|v: Seq<char>|
            #[trigger] search_spec(q, c).contains(v) ==> search_ci_spec(q, c).contains(v),
        forall|v: Seq<char>|
            #[trigger] count_in(v, search_spec(q, c)) <= count_in(v, search_ci_spec(q, c)),
{
    let ps = |l: Seq<char>| line_matches(q, l);
    let pi = |l: Seq<char>| line_matches_ci(q, l);
    assert forall|v: Seq<char>| true implies #[trigger] count_in(v, search_spec(q, c)) <= count_in(
        v,
        search_ci_spec(q, c),
    ) by {
        lemma_matching_of_count(ps, lines_spec(c), v);
        lemma_matching_of_count(pi, lines_spec(c), v);
        if line_matches(q, v) {
            lemma_contains_lower(v, q);
        }
    }
    assert forall|v: Seq<char>| #[trigger] search_spec(q, c).contains(v) implies search_ci_spec(
        q,
        c,
    ).contains(v) by {
        lemma_count_in_contains(v, search_spec(q, c));
        lemma_count_in_contains(v, search_ci_spec(q, c));
    }
}

} // verus!
