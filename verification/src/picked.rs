//! The part of a list that a condition picks.
use vstd::prelude::*;

verus! {

/// The items of `s` for which `f` holds, in order.
pub open spec fn picked<T>(s: Seq<T>, f: spec_fn(T) -> bool) -> Seq<T>
    decreases s.len(),
{
    if s.len() == 0 {
        s
    } else if f(s.last()) {
        picked(s.drop_last(), f).push(s.last())
    } else {
        picked(s.drop_last(), f)
    }
}

/// One more item is picked or not.
pub proof fn lemma_picked_push<T>(s: Seq<T>, x: T, f: spec_fn(T) -> bool)
    ensures
        picked(s.push(x), f) == if f(x) {
            picked(s, f).push(x)
        } else {
            picked(s, f)
        },
{
    assert(s.push(x).drop_last() =~= s);
}

/// Exactly the items of `s` for which `f` holds are picked.
pub proof fn lemma_picked<T>(s: Seq<T>, f: spec_fn(T) -> bool)
    ensures
        forall|x: T| #[trigger] picked(s, f).contains(x) == (s.contains(x) && f(x)),
        forall|i: int| 0 <= i < picked(s, f).len() ==> f(#[trigger] picked(s, f)[i]),
        picked(s, f).len() <= s.len(),
    decreases s.len(),
{
    if s.len() > 0 {
        let t = s.drop_last();
        lemma_picked(t, f);
        let p = picked(s, f);
        let q = picked(t, f);
        assert forall|x: T| #[trigger] p.contains(x) == (s.contains(x) && f(x)) by {
            if p.contains(x) {
                let k = choose|k: int| 0 <= k < p.len() && p[k] == x;
                if k < q.len() {
                    assert(q[k] == x);
                    assert(q.contains(x));
                    let m = choose|m: int| 0 <= m < t.len() && t[m] == x;
                    assert(s[m] == x);
                } else {
                    assert(s[s.len() - 1] == x);
                }
            }
            if s.contains(x) && f(x) {
                let k = choose|k: int| 0 <= k < s.len() && s[k] == x;
                if k < t.len() {
                    assert(t[k] == x);
                    assert(q.contains(x));
                    let m = choose|m: int| 0 <= m < q.len() && q[m] == x;
                    assert(p[m] == x);
                } else {
                    assert(p[q.len() as int] == x);
                }
            }
        }
        assert forall|i: int| 0 <= i < p.len() implies f(#[trigger] p[i]) by {
            if i < q.len() {
                assert(p[i] == q[i]);
            }
        }
    }
}

/// If all items are picked, nothing changes.
pub proof fn lemma_picked_all<T>(s: Seq<T>, f: spec_fn(T) -> bool)
    requires
        forall|i: int| 0 <= i < s.len() ==> f(#[trigger] s[i]),
    ensures
        picked(s, f) == s,
    decreases s.len(),
{
    if s.len() > 0 {
        let t = s.drop_last();
        assert forall|i: int| 0 <= i < t.len() implies f(#[trigger] t[i]) by {
            assert(t[i] == s[i]);
        }
        lemma_picked_all(t, f);
        assert(f(s[s.len() - 1]));
        assert(s =~= t.push(s.last()));
    }
}

/// Conditions that agree on the items pick the same.
pub proof fn lemma_picked_same<T>(s: Seq<T>, f: spec_fn(T) -> bool, g: spec_fn(T) -> bool)
    requires
        forall|i: int| 0 <= i < s.len() ==> f(#[trigger] s[i]) == g(s[i]),
    ensures
        picked(s, f) == picked(s, g),
    decreases s.len(),
{
    if s.len() > 0 {
        let t = s.drop_last();
        assert forall|i: int| 0 <= i < t.len() implies f(#[trigger] t[i]) == g(t[i]) by {
            assert(t[i] == s[i]);
        }
        lemma_picked_same(t, f, g);
        assert(f(s[s.len() - 1]) == g(s[s.len() - 1]));
    }
}

/// Pushing an item adds that item and no other.
pub proof fn lemma_push_contains<T>(s: Seq<T>, x: T, y: T)
    ensures
        s.push(x).contains(y) == (s.contains(y) || y == x),
{
    let t = s.push(x);
    if s.contains(y) {
        let p = choose|p: int| 0 <= p < s.len() && s[p] == y;
        assert(t[p] == y);
    }
    assert(t[s.len() as int] == x);
    if t.contains(y) {
        let p = choose|p: int| 0 <= p < t.len() && t[p] == y;
        if p < s.len() {
            assert(s[p] == y);
        }
    }
}

/// What two lists hold together is what either of them holds.
pub proof fn lemma_add_contains<T>(a: Seq<T>, b: Seq<T>, y: T)
    ensures
        (a + b).contains(y) == (a.contains(y) || b.contains(y)),
{
    let t = a + b;
    if a.contains(y) {
        let p = choose|p: int| 0 <= p < a.len() && a[p] == y;
        assert(t[p] == y);
    }
    if b.contains(y) {
        let p = choose|p: int| 0 <= p < b.len() && b[p] == y;
        assert(t[a.len() + p] == y);
    }
    if t.contains(y) {
        let p = choose|p: int| 0 <= p < t.len() && t[p] == y;
        if p < a.len() {
            assert(a[p] == y);
        } else {
            assert(b[p - a.len()] == y);
        }
    }
}

} // verus!
