//! Patterns in which `*` stands for any text.
use vstd::prelude::*;

use crate::text::{chars_of, find_char, find_text, stands_at};

verus! {

/// The pattern `p` from place `i` on matches `s` from place `j` on: a `*`
/// stands for nothing, or takes one more character; any other character
/// stands for itself.
pub open spec fn matches_from(p: Seq<char>, i: int, s: Seq<char>, j: int) -> bool
    decreases p.len() - i + s.len() - j,
{
    if i < 0 || i >= p.len() || j < 0 || j > s.len() {
        i >= p.len() && j == s.len()
    } else if p[i] == '*' {
        matches_from(p, i + 1, s, j) || (j < s.len() && matches_from(p, i, s, j + 1))
    } else {
        j < s.len() && s[j] == p[i] && matches_from(p, i + 1, s, j + 1)
    }
}

/// The pattern `p` matches `s`.
pub open spec fn globs(p: Seq<char>, s: Seq<char>) -> bool {
    matches_from(p, 0, s, 0)
}

/// A `*` stands for any text: what matches after it may begin anywhere.
pub proof fn lemma_star_covers(p: Seq<char>, i: int, s: Seq<char>, j: int, k: int)
    requires
        0 <= i < p.len(),
        p[i] == '*',
        0 <= j <= k <= s.len(),
        matches_from(p, i + 1, s, k),
    ensures
        matches_from(p, i, s, j),
    decreases k - j,
{
    if j < k {
        lemma_star_covers(p, i, s, j + 1, k);
    }
}

/// What a `*` stands for ends somewhere.
pub proof fn lemma_star_ends(p: Seq<char>, i: int, s: Seq<char>, j: int) -> (k: int)
    requires
        0 <= i < p.len(),
        p[i] == '*',
        0 <= j <= s.len(),
        matches_from(p, i, s, j),
    ensures
        j <= k <= s.len(),
        matches_from(p, i + 1, s, k),
    decreases s.len() - j,
{
    if matches_from(p, i + 1, s, j) {
        j
    } else {
        lemma_star_ends(p, i, s, j + 1)
    }
}

/// A run of the pattern without `*` matches exactly itself.
proof fn lemma_run(p: Seq<char>, a: int, e: int, s: Seq<char>, j: int)
    requires
        0 <= a <= e <= p.len(),
        0 <= j <= s.len(),
        forall|i: int| a <= i < e ==> p[i] != '*',
    ensures
        matches_from(p, a, s, j) == (j + (e - a) <= s.len() && s.subrange(j, j + (e - a))
            == p.subrange(a, e) && matches_from(p, e, s, j + (e - a))),
    decreases e - a,
{
    if a == e {
        assert(s.subrange(j, j) =~= p.subrange(a, e));
    } else if j < s.len() {
        lemma_run(p, a + 1, e, s, j + 1);
        if j + (e - a) <= s.len() {
            assert(s.subrange(j, j + (e - a)) =~= seq![s[j]] + s.subrange(j + 1, j + (e - a)));
            assert(p.subrange(a, e) =~= seq![p[a]] + p.subrange(a + 1, e));
            if s.subrange(j, j + (e - a)) == p.subrange(a, e) {
                assert(s.subrange(j, j + (e - a))[0] == p.subrange(a, e)[0]);
                assert(s.subrange(j + 1, j + (e - a)) =~= s.subrange(j, j + (e - a)).subrange(
                    1,
                    e - a,
                ));
                assert(p.subrange(a + 1, e) =~= p.subrange(a, e).subrange(1, e - a));
            }
        }
    }
}

/// The rest of the pattern after its last `*` matches the end of the text.
proof fn lemma_last(p: Seq<char>, i: int, s: Seq<char>, j: int)
    requires
        0 <= i < p.len(),
        p[i] == '*',
        forall|k: int| i < k < p.len() ==> p[k] != '*',
        0 <= j <= s.len(),
    ensures
        matches_from(p, i, s, j) == {
            let m = p.len() - i - 1;
            j + m <= s.len() && s.subrange(s.len() - m, s.len() as int) == p.subrange(
                i + 1,
                p.len() as int,
            )
        },
{
    let m = p.len() - i - 1;
    if matches_from(p, i, s, j) {
        let k = lemma_star_ends(p, i, s, j);
        lemma_run(p, i + 1, p.len() as int, s, k);
    }
    if j + m <= s.len() && s.subrange(s.len() - m, s.len() as int) == p.subrange(
        i + 1,
        p.len() as int,
    ) {
        lemma_run(p, i + 1, p.len() as int, s, s.len() - m);
        lemma_star_covers(p, i, s, j, s.len() - m);
    }
}

/// Between two `*` of the pattern the leftmost occurrence is as good as any.
proof fn lemma_middle(p: Seq<char>, i: int, e: int, s: Seq<char>, j: int)
    requires
        0 <= i < e < p.len(),
        p[i] == '*',
        p[e] == '*',
        forall|k: int| i < k < e ==> p[k] != '*',
        0 <= j <= s.len(),
    ensures
        match crate::text::find_from(s, p.subrange(i + 1, e), j) {
            Some(k) => matches_from(p, i, s, j) == matches_from(p, e, s, k + (e - i - 1)),
            None => !matches_from(p, i, s, j),
        },
{
    let part = p.subrange(i + 1, e);
    let m = e - i - 1;
    crate::text::lemma_find_from(s, part, j);
    if matches_from(p, i, s, j) {
        let k = lemma_star_ends(p, i, s, j);
        lemma_run(p, i + 1, e, s, k);
        assert(crate::text::occurs_at(s, part, k));
        let first = crate::text::find_from(s, part, j)->0;
        let q = lemma_star_ends(p, e, s, k + m);
        lemma_star_covers(p, e, s, first + m, q);
    }
    match crate::text::find_from(s, part, j) {
        Some(k) => {
            if matches_from(p, e, s, k + m) {
                lemma_run(p, i + 1, e, s, k);
                lemma_star_covers(p, i, s, j, k);
            }
        },
        None => {},
    }
}

/// Whether `pattern`, in which `*` stands for any text, matches `name`.
pub fn glob_match(pattern: &str, name: &str) -> (r: bool)
    ensures
        r == globs(pattern@, name@),
{
    let p = chars_of(pattern);
    let s = chars_of(name);
    let n: usize = p.len();
    let len: usize = s.len();
    let first: usize = find_char(&p, '*', 0);
    let head = slice_of(&p, 0, first);
    proof {
        lemma_run(p@, 0, first as int, s@, 0);
    }
    if !stands_at(&s, &head, 0) {
        return false;
    }
    if first == n {
        return first == len;
    }
    let mut i: usize = first;
    let mut j: usize = first;
    loop
        invariant
            n == p@.len(),
            len == s@.len(),
            p@ == pattern@,
            s@ == name@,
            i < n,
            p@[i as int] == '*',
            j <= len,
            globs(p@, s@) == matches_from(p@, i as int, s@, j as int),
        decreases n - i,
    {
        let e: usize = find_char(&p, '*', i + 1);
        let part = slice_of(&p, i + 1, e);
        if e == n {
            proof {
                lemma_last(p@, i as int, s@, j as int);
            }
            let m: usize = n - i - 1;
            if m > len - j {
                return false;
            }
            return stands_at(&s, &part, len - m);
        }
        proof {
            lemma_middle(p@, i as int, e as int, s@, j as int);
            crate::text::lemma_find_from(s@, part@, j as int);
        }
        match find_text(&s, &part, j) {
            Some(k) => {
                j = k + part.len();
                i = e;
            },
            None => {
                return false;
            },
        }
    }
}

/// The characters `cs[from..to]`.
fn slice_of(cs: &Vec<char>, from: usize, to: usize) -> (r: Vec<char>)
    requires
        from <= to <= cs@.len(),
    ensures
        r@ == cs@.subrange(from as int, to as int),
{
    let mut out: Vec<char> = Vec::new();
    let mut i: usize = from;
    while i < to
        invariant
            from <= i <= to <= cs@.len(),
            out@ == cs@.subrange(from as int, i as int),
        decreases to - i,
    {
        out.push(cs[i]);
        i = i + 1;
    }
    out
}

// ---------------------------------------------------------------------------
// Laws
// ---------------------------------------------------------------------------

/// A pattern without `*` matches itself and nothing else.
pub proof fn plain_pattern_matches_itself(p: Seq<char>, s: Seq<char>)
    requires
        !p.contains('*'),
    ensures
        globs(p, s) == (p == s),
{
    assert forall|i: int| 0 <= i < p.len() implies p[i] != '*' by {}
    lemma_run(p, 0, p.len() as int, s, 0);
    assert(p.subrange(0, p.len() as int) =~= p);
    if globs(p, s) {
        assert(s.subrange(0, s.len() as int) =~= s);
    }
    if p == s {
        assert(s.subrange(0, s.len() as int) =~= s);
    }
}

/// The pattern `*` matches everything.
pub proof fn star_matches_all(s: Seq<char>)
    ensures
        globs(seq!['*'], s),
{
    lemma_star_covers(seq!['*'], 0, s, 0, s.len() as int);
}

/// A pattern that ends in its only `*` matches the texts that begin with what
/// stands before it.
pub proof fn trailing_star_is_prefix(head: Seq<char>, s: Seq<char>)
    requires
        !head.contains('*'),
    ensures
        globs(head.push('*'), s) == crate::text::begins(s, head),
{
    let p = head.push('*');
    let m = head.len() as int;
    assert forall|i: int| 0 <= i < m implies p[i] != '*' by {
        assert(head[i] == p[i]);
        assert(head.contains(head[i]));
    }
    lemma_run(p, 0, m, s, 0);
    assert(p.subrange(0, m) =~= head);
    if m <= s.len() {
        lemma_last(p, m, s, m);
        assert(s.subrange(s.len() as int, s.len() as int) =~= p.subrange(m + 1, p.len() as int));
    }
}

proof fn lemma_match_shift(p: Seq<char>, i: int, s: Seq<char>, j: int, q: Seq<char>, t: Seq<char>, a: int, b: int)
    requires
        0 <= a <= p.len(),
        0 <= b <= s.len(),
        0 <= i,
        0 <= j,
        p.subrange(a, p.len() as int) == q,
        s.subrange(b, s.len() as int) == t,
    ensures
        matches_from(q, i, t, j) == matches_from(p, a + i, s, b + j),
    decreases q.len() - i + t.len() - j,
{
    assert(q.len() == p.len() - a);
    assert(t.len() == s.len() - b);
    if i < q.len() && j <= t.len() {
        assert(q[i] == p[a + i]);
        if j < t.len() {
            assert(t[j] == s[b + j]);
            lemma_match_shift(p, i, s, j + 1, q, t, a, b);
            lemma_match_shift(p, i + 1, s, j + 1, q, t, a, b);
        }
        lemma_match_shift(p, i + 1, s, j, q, t, a, b);
    }
}

/// A character other than `*` matches itself, and `*` matches any text, also
/// none: the rest of the pattern matches what follows. The empty pattern
/// matches the empty text.
pub proof fn patterns_match_piece_by_piece(c: char, p: Seq<char>, s: Seq<char>)
    ensures
        globs(Seq::empty(), s) == (s.len() == 0),
        c != '*' ==> globs(seq![c] + p, s) == (s.len() > 0 && s[0] == c && globs(
            p,
            s.subrange(1, s.len() as int),
        )),
        globs(seq!['*'] + p, s) == exists|k: int|
            0 <= k <= s.len() && globs(p, #[trigger] s.subrange(k, s.len() as int)),
{
    let q = seq![c] + p;
    assert(q.subrange(1, q.len() as int) =~= p);
    if s.len() > 0 {
        lemma_match_shift(q, 0, s, 0, p, s.subrange(1, s.len() as int), 1, 1);
    }
    lemma_star_skips(p, s, 0);
    assert(s.subrange(0, s.len() as int) =~= s);
}

proof fn lemma_star_skips(p: Seq<char>, s: Seq<char>, j: int)
    requires
        0 <= j <= s.len(),
    ensures
        matches_from(seq!['*'] + p, 0, s, j) == exists|k: int|
            j <= k <= s.len() && globs(p, #[trigger] s.subrange(k, s.len() as int)),
    decreases s.len() - j,
{
    let q = seq!['*'] + p;
    assert(q[0] == '*');
    assert(q.subrange(1, q.len() as int) =~= p);
    let t = s.subrange(j, s.len() as int);
    lemma_match_shift(q, 0, s, 0, p, t, 1, j);
    if j < s.len() {
        lemma_star_skips(p, s, j + 1);
    }
    if matches_from(q, 0, s, j) {
        if matches_from(q, 1, s, j) {
            assert(globs(p, s.subrange(j, s.len() as int)));
        } else {
            let k = choose|k: int|
                j + 1 <= k <= s.len() && globs(p, #[trigger] s.subrange(k, s.len() as int));
            assert(globs(p, s.subrange(k, s.len() as int)));
        }
    }
    if exists|k: int| j <= k <= s.len() && globs(p, #[trigger] s.subrange(k, s.len() as int)) {
        let k = choose|k: int|
            j <= k <= s.len() && globs(p, #[trigger] s.subrange(k, s.len() as int));
        if k > j {
            assert(globs(p, s.subrange(k, s.len() as int)));
        }
    }
}

} // verus!
