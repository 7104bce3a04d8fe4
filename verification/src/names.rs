//! Maps from names to values that remember the order in which names came.
use vstd::prelude::*;

verus! {

/// A value that can be copied without changing what it stands for.
pub trait Duplicate: View + Sized {
    /// A copy of `self`.
    fn duplicate(&self) -> (r: Self)
        ensures
            r@ == self@,
    ;
}

/// A value whose equality is equality of what it stands for.
pub trait SameView: View + Sized {
    /// Whether the two values stand for the same thing.
    fn same(&self, other: &Self) -> (r: bool)
        ensures
            r == (self@ == other@),
    ;
}

impl Duplicate for String {
    fn duplicate(&self) -> (r: Self) {
        self.clone()
    }
}

impl SameView for String {
    fn same(&self, other: &Self) -> (r: bool) {
        *self == *other
    }
}

/// No name stands at two places of `s`.
pub open spec fn distinct_names<T>(s: Seq<(Seq<char>, T)>) -> bool {
    forall|i: int, j: int|
        #![trigger s[i], s[j]]
        0 <= i < s.len() && 0 <= j < s.len() && s[i].0 == s[j].0 ==> i == j
}

/// `name` stands at place `i` of `s`.
pub open spec fn named_at<T>(s: Seq<(Seq<char>, T)>, name: Seq<char>, i: int) -> bool {
    0 <= i < s.len() && s[i].0 == name
}

/// `name` stands somewhere in `s`.
pub open spec fn has_name<T>(s: Seq<(Seq<char>, T)>, name: Seq<char>) -> bool {
    exists|i: int| named_at(s, name, i)
}

/// The place of `name` in `s`.
pub open spec fn place_of<T>(s: Seq<(Seq<char>, T)>, name: Seq<char>) -> int {
    choose|i: int| named_at(s, name, i)
}

/// The map that a list of distinct names and values stands for.
pub open spec fn map_of<T>(s: Seq<(Seq<char>, T)>) -> Map<Seq<char>, T> {
    Map::new(|k: Seq<char>| has_name(s, k), |k: Seq<char>| s[place_of(s, k)].1)
}

/// `s` with `name` bound to `v`: in its old place if it had one, else at the end.
pub open spec fn bound<T>(s: Seq<(Seq<char>, T)>, name: Seq<char>, v: T) -> Seq<(Seq<char>, T)> {
    if has_name(s, name) {
        s.update(place_of(s, name), (name, v))
    } else {
        s.push((name, v))
    }
}

/// `s` without `name`; the others keep their order.
pub open spec fn unbound<T>(s: Seq<(Seq<char>, T)>, name: Seq<char>) -> Seq<(Seq<char>, T)> {
    if has_name(s, name) {
        s.remove(place_of(s, name))
    } else {
        s
    }
}

pub proof fn lemma_place<T>(s: Seq<(Seq<char>, T)>, i: int)
    requires
        distinct_names(s),
        0 <= i < s.len(),
    ensures
        has_name(s, s[i].0),
        place_of(s, s[i].0) == i,
        map_of(s).dom().contains(s[i].0),
        map_of(s)[s[i].0] == s[i].1,
{
    assert(named_at(s, s[i].0, i));
}

pub proof fn lemma_bound<T>(s: Seq<(Seq<char>, T)>, name: Seq<char>, v: T)
    requires
        distinct_names(s),
    ensures
        distinct_names(bound(s, name, v)),
        map_of(bound(s, name, v)) == map_of(s).insert(name, v),
{
    let t = bound(s, name, v);
    if has_name(s, name) {
        let p = place_of(s, name);
        assert forall|i: int| 0 <= i < s.len() implies t[i].0 == s[i].0 by {}
        assert forall|i: int, j: int|
            0 <= i < t.len() && 0 <= j < t.len() && t[i].0 == t[j].0 implies i == j by {
            assert(s[i].0 == s[j].0);
        }
        assert(named_at(t, name, p));
        assert forall|k: Seq<char>| has_name(t, k) == (has_name(s, k) || k == name) by {
            if has_name(t, k) {
                let i = place_of(t, k);
                assert(named_at(s, k, i));
            }
            if has_name(s, k) {
                let i = place_of(s, k);
                assert(named_at(t, k, i));
            }
        }
        assert forall|k: Seq<char>| has_name(t, k) implies map_of(t)[k] == map_of(s).insert(
            name,
            v,
        )[k] by {
            let i = place_of(t, k);
            lemma_place(t, i);
            if k != name {
                lemma_place(s, i);
            }
        }
    } else {
        assert forall|i: int, j: int|
            0 <= i < t.len() && 0 <= j < t.len() && t[i].0 == t[j].0 implies i == j by {
            if i < s.len() && j < s.len() {
                assert(s[i].0 == s[j].0);
            } else if i < s.len() {
                assert(named_at(s, name, i));
            } else if j < s.len() {
                assert(named_at(s, name, j));
            }
        }
        assert(named_at(t, name, s.len() as int));
        assert forall|k: Seq<char>| has_name(t, k) == (has_name(s, k) || k == name) by {
            if has_name(t, k) && k != name {
                let i = place_of(t, k);
                assert(named_at(s, k, i));
            }
            if has_name(s, k) {
                let i = place_of(s, k);
                assert(named_at(t, k, i));
            }
        }
        assert forall|k: Seq<char>| has_name(t, k) implies map_of(t)[k] == map_of(s).insert(
            name,
            v,
        )[k] by {
            let i = place_of(t, k);
            lemma_place(t, i);
            if k != name {
                lemma_place(s, i);
            }
        }
    }
    assert(map_of(t) =~= map_of(s).insert(name, v));
}

pub proof fn lemma_unbound<T>(s: Seq<(Seq<char>, T)>, name: Seq<char>)
    requires
        distinct_names(s),
    ensures
        distinct_names(unbound(s, name)),
        map_of(unbound(s, name)) == map_of(s).remove(name),
{
    let t = unbound(s, name);
    if has_name(s, name) {
        let p = place_of(s, name);
        let from = |i: int| if i < p { i } else { i + 1 };
        assert forall|i: int| 0 <= i < t.len() implies t[i] == s[from(i)] by {}
        assert forall|i: int, j: int|
            0 <= i < t.len() && 0 <= j < t.len() && t[i].0 == t[j].0 implies i == j by {
            assert(s[from(i)].0 == s[from(j)].0);
        }
        assert forall|k: Seq<char>| has_name(t, k) == (has_name(s, k) && k != name) by {
            if has_name(t, k) {
                let i = place_of(t, k);
                assert(named_at(s, k, from(i)));
                if k == name {
                    assert(s[from(i)].0 == s[p].0);
                }
            }
            if has_name(s, k) && k != name {
                let i = place_of(s, k);
                assert(named_at(t, k, if i < p { i } else { i - 1 }));
            }
        }
        assert forall|k: Seq<char>| has_name(t, k) implies map_of(t)[k] == map_of(s)[k] by {
            let i = place_of(t, k);
            lemma_place(t, i);
            lemma_place(s, from(i));
        }
    }
    assert(map_of(t) =~= map_of(s).remove(name));
}

/// Taking a name out undoes binding it, where it was not bound.
pub proof fn unbinding_undoes_binding<T>(s: Seq<(Seq<char>, T)>, name: Seq<char>, v: T)
    requires
        distinct_names(s),
        !has_name(s, name),
    ensures
        unbound(bound(s, name, v), name) == s,
{
    let more = bound(s, name, v);
    lemma_bound(s, name, v);
    assert(more =~= s.push((name, v)));
    lemma_place(more, s.len() as int);
    assert(unbound(more, name) =~= s);
}

/// A map from names to values. Names keep the order in which they were first
/// bound, and no name is bound twice.
pub struct NameMap<V> {
    entries: Vec<(String, V)>,
}

pub closed spec fn entries_view<V: View>(s: Seq<(String, V)>) -> Seq<(Seq<char>, V::V)> {
    Seq::new(s.len(), |i: int| (s[i].0@, s[i].1@))
}

spec fn distinct_keys<V>(s: Seq<(String, V)>) -> bool {
    forall|i: int, j: int|
        #![trigger s[i], s[j]]
        0 <= i < s.len() && 0 <= j < s.len() && s[i].0@ == s[j].0@ ==> i == j
}

impl<V> NameMap<V> {
    #[verifier::type_invariant]
    spec fn well_formed(self) -> bool {
        distinct_keys(self.entries@)
    }
}

impl<V: View> View for NameMap<V> {
    type V = Map<Seq<char>, V::V>;

    open spec fn view(&self) -> Map<Seq<char>, V::V> {
        map_of(self.pairs())
    }
}

impl<V: View> NameMap<V> {
    /// The names and what their values stand for, in order.
    pub closed spec fn pairs(&self) -> Seq<(Seq<char>, V::V)> {
        entries_view(self.entries@)
    }

    /// The values themselves, in order.
    pub closed spec fn values(&self) -> Seq<V> {
        Seq::new(self.entries@.len(), |i: int| self.entries@[i].1)
    }

    /// The empty map.
    pub fn new() -> (r: Self)
        ensures
            r.pairs() == Seq::<(Seq<char>, V::V)>::empty(),
            r@ == Map::<Seq<char>, V::V>::empty(),
    {
        let r = NameMap { entries: Vec::new() };
        proof {
            assert(r.pairs() =~= Seq::empty());
            assert(r@ =~= Map::empty());
        }
        r
    }

    /// How many names are bound.
    pub fn len(&self) -> (n: usize)
        ensures
            n == self.pairs().len(),
            n == self.values().len(),
            distinct_names(self.pairs()),
    {
        proof {
            use_type_invariant(self);
            lemma_distinct(self.entries@);
        }
        self.entries.len()
    }

    /// Whether no name is bound.
    pub fn is_empty(&self) -> (r: bool)
        ensures
            r == (self.pairs().len() == 0),
            r == (self@ == Map::<Seq<char>, V::V>::empty()),
    {
        proof {
            use_type_invariant(self);
            lemma_distinct(self.entries@);
            if self.entries@.len() == 0 {
                assert(self@ =~= Map::empty());
            } else {
                lemma_place(self.pairs(), 0);
            }
        }
        self.entries.len() == 0
    }

    /// The name at place `i`.
    pub fn name_at(&self, i: usize) -> (r: &String)
        requires
            i < self.pairs().len(),
        ensures
            r@ == self.pairs()[i as int].0,
    {
        &self.entries[i].0
    }

    /// The value at place `i`.
    pub fn value_at(&self, i: usize) -> (r: &V)
        requires
            i < self.pairs().len(),
        ensures
            r@ == self.pairs()[i as int].1,
            *r == self.values()[i as int],
    {
        &self.entries[i].1
    }

    /// The place of `name`, if it is bound.
    pub fn find(&self, name: &str) -> (r: Option<usize>)
        ensures
            r is Some == has_name(self.pairs(), name@),
            r is Some == self@.dom().contains(name@),
            r matches Some(i) ==> i < self.pairs().len() && i == place_of(self.pairs(), name@)
                && self.pairs()[i as int].0 == name@ && self.pairs()[i as int].1 == self@[name@],
            distinct_names(self.pairs()),
    {
        proof {
            use_type_invariant(self);
            lemma_distinct(self.entries@);
        }
        let wanted: String = name.to_owned();
        let n: usize = self.entries.len();
        let mut i: usize = 0;
        while i < n
            invariant
                n == self.entries@.len(),
                i <= n,
                wanted@ == name@,
                distinct_names(self.pairs()),
                forall|j: int| 0 <= j < i ==> self.entries@[j].0@ != name@,
            decreases n - i,
        {
            if self.entries[i].0 == wanted {
                proof {
                    lemma_place(self.pairs(), i as int);
                }
                return Some(i);
            }
            i = i + 1;
        }
        proof {
            assert forall|j: int| !named_at(self.pairs(), name@, j) by {}
        }
        None
    }

    /// Whether `name` is bound.
    pub fn contains(&self, name: &str) -> (r: bool)
        ensures
            r == self@.dom().contains(name@),
    {
        self.find(name).is_some()
    }

    /// The value bound to `name`.
    pub fn get(&self, name: &str) -> (r: Option<&V>)
        ensures
            r is Some == self@.dom().contains(name@),
            r matches Some(v) ==> v@ == self@[name@],
    {
        match self.find(name) {
            Some(i) => Some(&self.entries[i].1),
            None => None,
        }
    }

    /// Binds `name` to `v`, in place of what it was bound to.
    pub fn insert(&mut self, name: String, v: V)
        ensures
            final(self).pairs() == bound(old(self).pairs(), name@, v@),
            final(self)@ == old(self)@.insert(name@, v@),
            distinct_names(final(self).pairs()),
    {
        let ghost before = self.pairs();
        proof {
            use_type_invariant(&*self);
            lemma_distinct(self.entries@);
            lemma_bound(before, name@, v@);
        }
        let at = self.find(name.as_str());
        let mut entries: Vec<(String, V)> = Vec::new();
        std::mem::swap(&mut entries, &mut self.entries);
        match at {
            Some(i) => {
                entries.set(i, (name, v));
            },
            None => {
                entries.push((name, v));
            },
        }
        proof {
            assert(entries_view(entries@) =~= bound(before, name@, v@));
            lemma_distinct_back(entries@);
        }
        self.entries = entries;
    }

    /// Takes `name` out, with the value that was bound to it.
    pub fn remove(&mut self, name: &str) -> (r: Option<V>)
        ensures
            final(self).pairs() == unbound(old(self).pairs(), name@),
            final(self)@ == old(self)@.remove(name@),
            r is Some == old(self)@.dom().contains(name@),
            r matches Some(v) ==> v@ == old(self)@[name@],
            distinct_names(final(self).pairs()),
    {
        let ghost before = self.pairs();
        proof {
            use_type_invariant(&*self);
            lemma_distinct(self.entries@);
            lemma_unbound(before, name@);
        }
        let at = self.find(name);
        match at {
            Some(i) => {
                let mut entries: Vec<(String, V)> = Vec::new();
                std::mem::swap(&mut entries, &mut self.entries);
                let (_name, v) = entries.remove(i);
                proof {
                    assert(entries_view(entries@) =~= unbound(before, name@));
                    lemma_distinct_back(entries@);
                }
                self.entries = entries;
                Some(v)
            },
            None => None,
        }
    }
}

impl<V: Duplicate> Duplicate for NameMap<V> {
    fn duplicate(&self) -> (r: Self)
        ensures
            r.pairs() == self.pairs(),
    {
        let n: usize = self.len();
        let mut out: NameMap<V> = NameMap::new();
        let mut i: usize = 0;
        while i < n
            invariant
                n == self.pairs().len(),
                distinct_names(self.pairs()),
                i <= n,
                out.pairs() == self.pairs().take(i as int),
            decreases n - i,
        {
            proof {
                let so_far = out.pairs();
                let name = self.pairs()[i as int].0;
                assert(!has_name(so_far, name)) by {
                    if has_name(so_far, name) {
                        let p = place_of(so_far, name);
                        assert(self.pairs()[p].0 == self.pairs()[i as int].0);
                    }
                }
                assert(self.pairs().take(i + 1) =~= self.pairs().take(i as int).push(
                    self.pairs()[i as int],
                ));
            }
            out.insert(self.name_at(i).clone(), self.value_at(i).duplicate());
            i = i + 1;
        }
        assert(self.pairs().take(n as int) =~= self.pairs());
        out
    }
}

impl<V: SameView> SameView for NameMap<V> {
    fn same(&self, other: &Self) -> (r: bool) {
        let n: usize = self.len();
        let mut i: usize = 0;
        while i < n
            invariant
                n == self.pairs().len(),
                distinct_names(self.pairs()),
                i <= n,
                forall|k: int|
                    0 <= k < i ==> other@.dom().contains(#[trigger] self.pairs()[k].0)
                        && other@[self.pairs()[k].0] == self.pairs()[k].1,
            decreases n - i,
        {
            proof {
                lemma_place(self.pairs(), i as int);
            }
            match other.get(self.name_at(i).as_str()) {
                Some(v) => {
                    if !self.value_at(i).same(v) {
                        return false;
                    }
                },
                None => {
                    return false;
                },
            }
            i = i + 1;
        }
        let m: usize = other.len();
        let mut i: usize = 0;
        while i < m
            invariant
                m == other.pairs().len(),
                distinct_names(other.pairs()),
                i <= m,
                forall|k: int| 0 <= k < i ==> self@.dom().contains(#[trigger] other.pairs()[k].0),
            decreases m - i,
        {
            proof {
                lemma_place(other.pairs(), i as int);
            }
            if !self.contains(other.name_at(i).as_str()) {
                return false;
            }
            i = i + 1;
        }
        proof {
            assert forall|k: Seq<char>| self@.dom().contains(k) == other@.dom().contains(k) by {
                if has_name(self.pairs(), k) {
                    let p = place_of(self.pairs(), k);
                    assert(other@.dom().contains(self.pairs()[p].0));
                }
                if has_name(other.pairs(), k) {
                    let p = place_of(other.pairs(), k);
                    assert(self@.dom().contains(other.pairs()[p].0));
                }
            }
            assert forall|k: Seq<char>| self@.dom().contains(k) implies self@[k] == other@[k] by {
                let p = place_of(self.pairs(), k);
                lemma_place(self.pairs(), p);
            }
            assert(self@ =~= other@);
        }
        true
    }
}

proof fn lemma_distinct<V: View>(s: Seq<(String, V)>)
    requires
        distinct_keys(s),
    ensures
        distinct_names(entries_view(s)),
{
    let t = entries_view(s);
    assert forall|i: int, j: int|
        0 <= i < t.len() && 0 <= j < t.len() && t[i].0 == t[j].0 implies i == j by {
        assert(s[i].0@ == s[j].0@);
    }
}

proof fn lemma_distinct_back<V: View>(s: Seq<(String, V)>)
    requires
        distinct_names(entries_view(s)),
    ensures
        distinct_keys(s),
{
    let t = entries_view(s);
    assert forall|i: int, j: int|
        0 <= i < s.len() && 0 <= j < s.len() && s[i].0@ == s[j].0@ implies i == j by {
        assert(t[i].0 == t[j].0);
    }
}

} // verus!
