//! Placeholders in texts: finding them and replacing them.
//!
//! A placeholder is a key between an opening and a closing mark, such as
//! `${KEY}`. Expansion replaces the leftmost placeholder, again and again,
//! until none is left; a value that holds placeholders is expanded in turn.
use vstd::prelude::*;

use crate::names::NameMap;
use crate::text::{chars_of, find_text, string_of};

verus! {

/// The map from names to texts that a `NameMap<String>` stands for.
pub type Texts = Map<Seq<char>, Seq<char>>;

/// The value of `key`: from `first` if it is bound there, else from `second`,
/// else the empty text.
pub open spec fn value_for(key: Seq<char>, first: Texts, second: Texts) -> Seq<char> {
    if first.dom().contains(key) {
        first[key]
    } else if second.dom().contains(key) {
        second[key]
    } else {
        Seq::empty()
    }
}

/// Where the leftmost placeholder at or after `from` begins, and where its
/// closing mark begins.
pub open spec fn placeholder(
    s: Seq<char>,
    opening: Seq<char>,
    closing: Seq<char>,
    from: int,
) -> Option<(int, int)> {
    match crate::text::find_from(s, opening, from) {
        Some(a) => match crate::text::find_from(s, closing, a + opening.len()) {
            Some(b) => Some((a, b)),
            None => None,
        },
        None => None,
    }
}

/// The key of a placeholder.
pub open spec fn key_at(s: Seq<char>, opening: Seq<char>, at: (int, int)) -> Seq<char> {
    s.subrange(at.0 + opening.len(), at.1)
}

/// `s` with the placeholder at `at` replaced by `value`.
pub open spec fn replaced(s: Seq<char>, closing: Seq<char>, at: (int, int), value: Seq<char>) -> Seq<
    char,
> {
    s.subrange(0, at.0) + value + s.subrange(at.1 + closing.len(), s.len() as int)
}

/// The marks around a key.
pub struct Marks {
    pub opening: Seq<char>,
    pub closing: Seq<char>,
}

/// `s` has no placeholder.
pub open spec fn settled(s: Seq<char>, marks: Marks) -> bool {
    placeholder(s, marks.opening, marks.closing, 0) is None
}

/// `s` after `n` replacements, or fewer if none is left before.
pub open spec fn expanded_by(
    s: Seq<char>,
    marks: Marks,
    first: Texts,
    second: Texts,
    n: nat,
) -> Seq<char>
    decreases n,
{
    if n == 0 {
        s
    } else {
        match placeholder(s, marks.opening, marks.closing, 0) {
            Some(at) => expanded_by(
                replaced(
                    s,
                    marks.closing,
                    at,
                    value_for(key_at(s, marks.opening, at), first, second),
                ),
                marks,
                first,
                second,
                (n - 1) as nat,
            ),
            None => s,
        }
    }
}

/// At most `n` replacements leave no placeholder in `s`.
pub open spec fn settles_by(s: Seq<char>, marks: Marks, first: Texts, second: Texts, n: nat) -> bool {
    settled(expanded_by(s, marks, first, second, n), marks)
}

/// The expansion of `s` comes to an end.
pub open spec fn settles(s: Seq<char>, marks: Marks, first: Texts, second: Texts) -> bool {
    exists|n: nat| settles_by(s, marks, first, second, n)
}

/// What the expansion of `s` ends with.
pub open spec fn expansion(s: Seq<char>, marks: Marks, first: Texts, second: Texts) -> Seq<char> {
    expanded_by(s, marks, first, second, choose|n: nat| settles_by(s, marks, first, second, n))
}

/// Once nothing is left to replace, more replacements change nothing.
pub proof fn lemma_settled_stays(
    s: Seq<char>,
    marks: Marks,
    first: Texts,
    second: Texts,
    n: nat,
    m: nat,
)
    requires
        settles_by(s, marks, first, second, n),
        n <= m,
    ensures
        settles_by(s, marks, first, second, m),
        expanded_by(s, marks, first, second, m) == expanded_by(s, marks, first, second, n),
    decreases m,
{
    match placeholder(s, marks.opening, marks.closing, 0) {
        Some(at) => {
            if n > 0 {
                let t = replaced(
                    s,
                    marks.closing,
                    at,
                    value_for(key_at(s, marks.opening, at), first, second),
                );
                lemma_settled_stays(t, marks, first, second, (n - 1) as nat, (m - 1) as nat);
            }
        },
        None => {},
    }
}

/// However many replacements it takes, the expansion ends with one text.
pub proof fn lemma_expansion_unique(s: Seq<char>, marks: Marks, first: Texts, second: Texts, n: nat)
    requires
        settles_by(s, marks, first, second, n),
    ensures
        settles(s, marks, first, second),
        expansion(s, marks, first, second) == expanded_by(s, marks, first, second, n),
{
    let c = choose|m: nat| settles_by(s, marks, first, second, m);
    if c <= n {
        lemma_settled_stays(s, marks, first, second, c, n);
    } else {
        lemma_settled_stays(s, marks, first, second, n, c);
    }
}

proof fn lemma_one_more(s: Seq<char>, marks: Marks, first: Texts, second: Texts, n: nat)
    ensures
        expanded_by(s, marks, first, second, n + 1) == expanded_by(
            expanded_by(s, marks, first, second, n),
            marks,
            first,
            second,
            1,
        ),
    decreases n,
{
    reveal_with_fuel(expanded_by, 2);
    if n > 0 {
        match placeholder(s, marks.opening, marks.closing, 0) {
            Some(at) => {
                let t = replaced(
                    s,
                    marks.closing,
                    at,
                    value_for(key_at(s, marks.opening, at), first, second),
                );
                lemma_one_more(t, marks, first, second, (n - 1) as nat);
            },
            None => {},
        }
    }
}

/// Replaces the leftmost placeholder of `cs`, if there is one.
fn replace_first(
    cs: &Vec<char>,
    opening: &Vec<char>,
    closing: &Vec<char>,
    first: &NameMap<String>,
    second: &NameMap<String>,
) -> (r: Option<Vec<char>>)
    ensures
        r is None == placeholder(cs@, opening@, closing@, 0) is None,
        r matches Some(t) ==> placeholder(cs@, opening@, closing@, 0) matches Some(at) && t@
            == replaced(
            cs@,
            closing@,
            at,
            value_for(key_at(cs@, opening@, at), first@, second@),
        ),
{
    let n: usize = cs.len();
    proof {
        crate::text::lemma_find_from(cs@, opening@, 0);
    }
    let a: usize = match find_text(cs, opening, 0) {
        Some(a) => a,
        None => {
            return None;
        },
    };
    proof {
        crate::text::lemma_find_from(cs@, closing@, a + opening@.len());
    }
    let b: usize = match find_text(cs, closing, a + opening.len()) {
        Some(b) => b,
        None => {
            return None;
        },
    };
    let key = string_of(cs, a + opening.len(), b);
    let value: Vec<char> = match first.get(key.as_str()) {
        Some(v) => chars_of(v.as_str()),
        None => match second.get(key.as_str()) {
            Some(v) => chars_of(v.as_str()),
            None => Vec::new(),
        },
    };
    let mut out: Vec<char> = Vec::new();
    let mut i: usize = 0;
    while i < a
        invariant
            a <= cs@.len(),
            i <= a,
            out@ == cs@.subrange(0, i as int),
        decreases a - i,
    {
        out.push(cs[i]);
        i = i + 1;
    }
    let ghost head = out@;
    let mut i: usize = 0;
    while i < value.len()
        invariant
            i <= value@.len(),
            out@ == head + value@.subrange(0, i as int),
        decreases value@.len() - i,
    {
        out.push(value[i]);
        assert(out@ =~= head + value@.subrange(0, i + 1));
        i = i + 1;
    }
    assert(value@.subrange(0, value@.len() as int) =~= value@);
    let ghost middle = out@;
    let tail: usize = b + closing.len();
    let mut i: usize = tail;
    assert(out@ =~= middle + cs@.subrange(tail as int, tail as int));
    while i < n
        invariant
            n == cs@.len(),
            tail <= i <= n,
            out@ == middle + cs@.subrange(tail as int, i as int),
        decreases n - i,
    {
        out.push(cs[i]);
        assert(out@ =~= middle + cs@.subrange(tail as int, i + 1));
        i = i + 1;
    }
    Some(out)
}

/// Expands `s` with at most `limit` replacements; nothing if that is not enough.
pub fn expand_within(
    s: &str,
    opening: &str,
    closing: &str,
    first: &NameMap<String>,
    second: &NameMap<String>,
    limit: u64,
) -> (r: Option<String>)
    ensures
        r is Some == settles_by(
            s@,
            (Marks { opening: opening@, closing: closing@ }),
            first@,
            second@,
            limit as nat,
        ),
        r matches Some(t) ==> settles(
            s@,
            (Marks { opening: opening@, closing: closing@ }),
            first@,
            second@,
        ) && t@ == expansion(
            s@,
            (Marks { opening: opening@, closing: closing@ }),
            first@,
            second@,
        ),
{
    let ghost marks = Marks { opening: opening@, closing: closing@ };
    let o = chars_of(opening);
    let c = chars_of(closing);
    let mut cs = chars_of(s);
    let mut k: u64 = 0;
    loop
        invariant
            o@ == opening@,
            c@ == closing@,
            marks == (Marks { opening: opening@, closing: closing@ }),
            k <= limit,
            cs@ == expanded_by(s@, marks, first@, second@, k as nat),
        decreases limit - k,
    {
        match replace_first(&cs, &o, &c, first, second) {
            None => {
                proof {
                    assert(settles_by(s@, marks, first@, second@, k as nat));
                    lemma_settled_stays(s@, marks, first@, second@, k as nat, limit as nat);
                    lemma_expansion_unique(s@, marks, first@, second@, k as nat);
                }
                return Some(string_of(&cs, 0, cs.len()));
            },
            Some(next) => {
                if k == limit {
                    return None;
                }
                proof {
                    lemma_one_more(s@, marks, first@, second@, k as nat);
                    reveal_with_fuel(expanded_by, 2);
                }
                cs = next;
                k = k + 1;
            },
        }
    }
}

/// Expands `s`.
pub fn expand_all(
    s: &str,
    opening: &str,
    closing: &str,
    first: &NameMap<String>,
    second: &NameMap<String>,
) -> (r: String)
    requires
        settles(s@, (Marks { opening: opening@, closing: closing@ }), first@, second@),
    ensures
        r@ == expansion(s@, (Marks { opening: opening@, closing: closing@ }), first@, second@),
{
    let ghost marks = Marks { opening: opening@, closing: closing@ };
    let ghost enough = choose|n: nat| settles_by(s@, marks, first@, second@, n);
    let ghost mut k: nat = 0;
    let o = chars_of(opening);
    let c = chars_of(closing);
    let mut cs = chars_of(s);
    loop
        invariant
            o@ == opening@,
            c@ == closing@,
            marks == (Marks { opening: opening@, closing: closing@ }),
            settles_by(s@, marks, first@, second@, enough),
            k <= enough,
            cs@ == expanded_by(s@, marks, first@, second@, k),
        decreases enough - k,
    {
        match replace_first(&cs, &o, &c, first, second) {
            None => {
                proof {
                    assert(settles_by(s@, marks, first@, second@, k));
                    lemma_expansion_unique(s@, marks, first@, second@, k);
                }
                return string_of(&cs, 0, cs.len());
            },
            Some(next) => {
                proof {
                    lemma_one_more(s@, marks, first@, second@, k);
                    reveal_with_fuel(expanded_by, 2);
                    k = k + 1;
                }
                cs = next;
            },
        }
    }
}

// ---------------------------------------------------------------------------
// Laws
// ---------------------------------------------------------------------------

/// How often `c` occurs in `s`.
pub open spec fn occurrences(s: Seq<char>, c: char) -> nat
    decreases s.len(),
{
    if s.len() == 0 {
        0
    } else {
        occurrences(s.drop_last(), c) + if s.last() == c {
            1nat
        } else {
            0nat
        }
    }
}

proof fn lemma_occurrences_add(a: Seq<char>, b: Seq<char>, c: char)
    ensures
        occurrences(a + b, c) == occurrences(a, c) + occurrences(b, c),
    decreases b.len(),
{
    if b.len() == 0 {
        assert(a + b =~= a);
    } else {
        assert((a + b).drop_last() =~= a + b.drop_last());
        lemma_occurrences_add(a, b.drop_last(), c);
    }
}

proof fn lemma_occurrences_none(s: Seq<char>, c: char)
    requires
        !s.contains(c),
    ensures
        occurrences(s, c) == 0,
    decreases s.len(),
{
    if s.len() > 0 {
        assert(s[s.len() - 1] != c);
        assert forall|i: int| 0 <= i < s.drop_last().len() implies s.drop_last()[i] != c by {
            assert(s[i] != c);
        }
        lemma_occurrences_none(s.drop_last(), c);
    }
}

/// No value of `m` holds `c`.
pub open spec fn values_without(m: Texts, c: char) -> bool {
    forall|k: Seq<char>| #[trigger] m.dom().contains(k) ==> !m[k].contains(c)
}

/// Expansion comes to an end whenever the closing mark is one character and
/// no value holds it: each replacement then takes one closing mark away.
pub proof fn expansion_ends(s: Seq<char>, marks: Marks, first: Texts, second: Texts, c: char)
    requires
        marks.closing == seq![c],
        values_without(first, c),
        values_without(second, c),
    ensures
        settles(s, marks, first, second),
        settles_by(s, marks, first, second, occurrences(s, c)),
    decreases occurrences(s, c),
{
    crate::text::lemma_find_from(s, marks.opening, 0);
    match placeholder(s, marks.opening, marks.closing, 0) {
        Some(at) => {
            crate::text::lemma_find_from(s, marks.closing, at.0 + marks.opening.len());
            let key = key_at(s, marks.opening, at);
            let value = value_for(key, first, second);
            let t = replaced(s, marks.closing, at, value);
            assert(!value.contains(c));
            lemma_occurrences_none(value, c);
            let head = s.subrange(0, at.0);
            let inner = s.subrange(at.0, at.1);
            let tail = s.subrange(at.1 + 1, s.len() as int);
            assert(s.subrange(at.1, at.1 + 1) == seq![c]);
            assert(s =~= head + inner + seq![c] + tail);
            lemma_occurrences_add(head + inner + seq![c], tail, c);
            lemma_occurrences_add(head + inner, seq![c], c);
            lemma_occurrences_add(head, inner, c);
            lemma_occurrences_add(head + value, tail, c);
            lemma_occurrences_add(head, value, c);
            assert(occurrences(seq![c], c) == 1) by {
                reveal_with_fuel(occurrences, 2);
            }
            expansion_ends(t, marks, first, second, c);
            lemma_settled_stays(
                t,
                marks,
                first,
                second,
                occurrences(t, c),
                (occurrences(s, c) - 1) as nat,
            );
            assert(settles_by(s, marks, first, second, occurrences(s, c)));
        },
        None => {
            assert(settles_by(s, marks, first, second, 0));
            lemma_settled_stays(s, marks, first, second, 0, occurrences(s, c));
        },
    }
}

/// A text without placeholders is its own expansion.
pub proof fn expansion_of_plain(s: Seq<char>, marks: Marks, first: Texts, second: Texts)
    requires
        settled(s, marks),
    ensures
        settles(s, marks, first, second),
        expansion(s, marks, first, second) == s,
{
    assert(settles_by(s, marks, first, second, 0));
    lemma_expansion_unique(s, marks, first, second, 0);
}

/// What an expansion ends with has no placeholder.
pub proof fn expansion_is_settled(s: Seq<char>, marks: Marks, first: Texts, second: Texts)
    requires
        settles(s, marks, first, second),
    ensures
        settled(expansion(s, marks, first, second), marks),
{
}

// ---------------------------------------------------------------------------
// The keys of a text
// ---------------------------------------------------------------------------

/// The keys of the `${KEY}` placeholders of `s` from place `from` on, in order.
pub open spec fn var_names_from(s: Seq<char>, from: int) -> Seq<Seq<char>>
    decreases s.len() - from,
{
    if from < 0 || from > s.len() {
        Seq::empty()
    } else {
        match placeholder(s, "${"@, "}"@, from) {
            Some(at) => if from <= at.0 && at.0 <= at.1 < s.len() {
                seq![key_at(s, "${"@, at)] + var_names_from(s, at.1 + 1)
            } else {
                Seq::empty()
            },
            None => Seq::empty(),
        }
    }
}

/// The keys of the `${KEY}` placeholders of `s`, in order.
pub open spec fn var_names(s: Seq<char>) -> Seq<Seq<char>> {
    var_names_from(s, 0)
}

/// The names of the variables that `s` refers to as `${NAME}`, in order, each
/// as often as it occurs.
pub fn extract_var_names(s: &str) -> (r: Vec<String>)
    ensures
        crate::text::texts(r@) == var_names(s@),
{
    let cs = chars_of(s);
    let opening = chars_of("${");
    let closing = chars_of("}");
    proof {
        reveal_strlit("${");
        reveal_strlit("}");
    }
    let n: usize = cs.len();
    let mut out: Vec<String> = Vec::new();
    let mut from: usize = 0;
    assert(crate::text::texts(out@) =~= Seq::empty());
    assert(crate::text::texts(out@) + var_names_from(cs@, 0) =~= var_names(s@));
    loop
        invariant
            cs@ == s@,
            opening@ == "${"@,
            closing@ == "}"@,
            opening@.len() == 2,
            closing@.len() == 1,
            n == cs@.len(),
            from <= n,
            crate::text::texts(out@) + var_names_from(cs@, from as int) == var_names(s@),
        decreases cs@.len() - from,
    {
        proof {
            crate::text::lemma_find_from(cs@, opening@, from as int);
        }
        let a: usize = match find_text(&cs, &opening, from) {
            Some(a) => a,
            None => {
                assert(crate::text::texts(out@) =~= var_names(s@));
                return out;
            },
        };
        proof {
            crate::text::lemma_find_from(cs@, closing@, a + 2);
        }
        let b: usize = match find_text(&cs, &closing, a + 2) {
            Some(b) => b,
            None => {
                assert(crate::text::texts(out@) =~= var_names(s@));
                return out;
            },
        };
        let ghost before = out@;
        out.push(string_of(&cs, a + 2, b));
        proof {
            let key = cs@.subrange(a + 2, b as int);
            assert(crate::text::texts(out@) =~= crate::text::texts(before).push(key));
            assert(crate::text::texts(out@) + var_names_from(cs@, b + 1) =~= crate::text::texts(
                before,
            ) + (seq![key] + var_names_from(cs@, b + 1)));
        }
        from = b + 1;
    }
}

} // verus!
