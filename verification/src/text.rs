//! Text primitives: searching, splitting, joining, trimming, ordering and
//! number formatting, stated over sequences of characters.
use vstd::prelude::*;

verus! {

/// `String::push` of the standard library: appends one character to the end
/// and changes nothing else.
pub assume_specification[ String::push ](s: &mut String, c: char)
    ensures
        final(s)@ == old(s)@.push(c),
;

// ---------------------------------------------------------------------------
// Characters and strings
// ---------------------------------------------------------------------------

/// What a list of strings stands for.
pub open spec fn texts(v: Seq<String>) -> Seq<Seq<char>> {
    Seq::new(v.len(), |i: int| v[i]@)
}

/// What an optional string stands for.
pub open spec fn opt_text(o: Option<String>) -> Option<Seq<char>> {
    match o {
        Some(s) => Some(s@),
        None => None,
    }
}

/// What an optional string slice stands for.
pub open spec fn opt_slice(o: Option<&str>) -> Option<Seq<char>> {
    match o {
        Some(s) => Some(s@),
        None => None,
    }
}

/// The characters of `s`, in order.
pub fn chars_of(s: &str) -> (r: Vec<char>)
    ensures
        r@ == s@,
{
    let mut out: Vec<char> = Vec::new();
    for c in it: s.chars()
        invariant
            out@ == it.seq().take(it.index() as int),
            it.seq() == s@,
    {
        out.push(c);
    }
    out
}

/// The string made of `cs[from..to]`.
pub fn string_of(cs: &Vec<char>, from: usize, to: usize) -> (r: String)
    requires
        from <= to <= cs@.len(),
    ensures
        r@ == cs@.subrange(from as int, to as int),
{
    let mut out = String::new();
    let mut i: usize = from;
    while i < to
        invariant
            from <= i <= to <= cs@.len(),
            out@ == cs@.subrange(from as int, i as int),
        decreases to - i,
    {
        out.push(cs[i]);
        i = i + 1;
    }
    out
}

/// Whether two slices hold the same characters.
pub fn same_text(a: &str, b: &str) -> (r: bool)
    ensures
        r == (a@ == b@),
{
    a.to_owned() == b.to_owned()
}

/// `a` followed by `b`.
pub fn cat(a: &str, b: &str) -> (r: String)
    ensures
        r@ == a@ + b@,
{
    let mut out: String = a.to_owned();
    out.append(b);
    out
}

/// Copies an optional string.
pub fn copy_opt(o: &Option<String>) -> (r: Option<String>)
    ensures
        opt_text(r) == opt_text(*o),
{
    match o {
        Some(s) => Some(s.clone()),
        None => None,
    }
}

/// Copies a list of strings.
pub fn copy_texts(v: &Vec<String>) -> (r: Vec<String>)
    ensures
        texts(r@) == texts(v@),
{
    let mut out: Vec<String> = Vec::new();
    let mut i: usize = 0;
    while i < v.len()
        invariant
            i <= v@.len(),
            out@.len() == i,
            forall|j: int| 0 <= j < i ==> out@[j]@ == v@[j]@,
        decreases v@.len() - i,
    {
        out.push(v[i].clone());
        i = i + 1;
    }
    assert(texts(out@) =~= texts(v@));
    out
}

/// Whether two optional strings stand for the same.
pub fn same_opt(a: &Option<String>, b: &Option<String>) -> (r: bool)
    ensures
        r == (opt_text(*a) == opt_text(*b)),
{
    match (a, b) {
        (Some(x), Some(y)) => *x == *y,
        (None, None) => true,
        _ => false,
    }
}

/// Whether two lists of strings stand for the same.
pub fn same_texts(a: &Vec<String>, b: &Vec<String>) -> (r: bool)
    ensures
        r == (texts(a@) == texts(b@)),
{
    if a.len() != b.len() {
        assert(texts(a@).len() != texts(b@).len());
        return false;
    }
    let mut i: usize = 0;
    while i < a.len()
        invariant
            a@.len() == b@.len(),
            i <= a@.len(),
            forall|j: int| 0 <= j < i ==> a@[j]@ == b@[j]@,
        decreases a@.len() - i,
    {
        if !(a[i] == b[i]) {
            assert(texts(a@)[i as int] != texts(b@)[i as int]);
            return false;
        }
        i = i + 1;
    }
    assert(texts(a@) =~= texts(b@));
    true
}

/// Whether `name` stands in the list.
pub fn contains_text(v: &Vec<String>, name: &str) -> (r: bool)
    ensures
        r == texts(v@).contains(name@),
{
    let wanted: String = name.to_owned();
    let mut i: usize = 0;
    while i < v.len()
        invariant
            i <= v@.len(),
            wanted@ == name@,
            forall|j: int| 0 <= j < i ==> v@[j]@ != name@,
        decreases v@.len() - i,
    {
        if v[i] == wanted {
            assert(texts(v@)[i as int] == name@);
            return true;
        }
        i = i + 1;
    }
    assert forall|j: int| 0 <= j < texts(v@).len() implies texts(v@)[j] != name@ by {}
    false
}

// ---------------------------------------------------------------------------
// Searching
// ---------------------------------------------------------------------------

/// `pat` stands in `s` at place `i`.
pub open spec fn occurs_at(s: Seq<char>, pat: Seq<char>, i: int) -> bool {
    0 <= i && i + pat.len() <= s.len() && s.subrange(i, i + pat.len()) == pat
}

/// The first place at or after `from` where `pat` stands in `s`.
pub open spec fn find_from(s: Seq<char>, pat: Seq<char>, from: int) -> Option<int>
    decreases s.len() + 1 - from,
{
    if from < 0 || from + pat.len() > s.len() {
        None
    } else if occurs_at(s, pat, from) {
        Some(from)
    } else {
        find_from(s, pat, from + 1)
    }
}

/// What `find_from` finds is an occurrence, and there is none before it.
pub proof fn lemma_find_from(s: Seq<char>, pat: Seq<char>, from: int)
    requires
        0 <= from,
    ensures
        find_from(s, pat, from) matches Some(i) ==> from <= i && occurs_at(s, pat, i)
            && forall|j: int| from <= j < i ==> !occurs_at(s, pat, j),
        find_from(s, pat, from) is None ==> forall|j: int| from <= j ==> !occurs_at(s, pat, j),
    decreases s.len() + 1 - from,
{
    if from + pat.len() > s.len() {
    } else if occurs_at(s, pat, from) {
    } else {
        lemma_find_from(s, pat, from + 1);
    }
}

/// Whether `pat` stands in `cs` at place `i`.
pub fn stands_at(cs: &Vec<char>, pat: &Vec<char>, i: usize) -> (r: bool)
    ensures
        r == occurs_at(cs@, pat@, i as int),
{
    let n: usize = cs.len();
    let m: usize = pat.len();
    if i > n || m > n - i {
        return false;
    }
    let mut k: usize = 0;
    while k < m
        invariant
            n == cs@.len(),
            m == pat@.len(),
            i + m <= n,
            k <= m,
            forall|j: int| 0 <= j < k ==> cs@[i + j] == pat@[j],
        decreases m - k,
    {
        if cs[i + k] != pat[k] {
            assert(cs@.subrange(i as int, i + m)[k as int] != pat@[k as int]);
            return false;
        }
        k = k + 1;
    }
    assert(cs@.subrange(i as int, i + m) =~= pat@);
    true
}

/// The first place at or after `from` where `pat` stands in `cs`.
pub fn find_text(cs: &Vec<char>, pat: &Vec<char>, from: usize) -> (r: Option<usize>)
    ensures
        r matches Some(i) ==> find_from(cs@, pat@, from as int) == Some(i as int),
        r is None ==> find_from(cs@, pat@, from as int) is None,
{
    let n: usize = cs.len();
    let m: usize = pat.len();
    let mut i: usize = from;
    while i <= n && m <= n - i
        invariant
            n == cs@.len(),
            m == pat@.len(),
            from <= i,
            i <= n + 1 || i == from,
            find_from(cs@, pat@, from as int) == find_from(cs@, pat@, i as int),
        decreases n + 1 - i,
    {
        if stands_at(cs, pat, i) {
            return Some(i);
        }
        if i == n {
            assert(find_from(cs@, pat@, i + 1) is None);
            return None;
        }
        i = i + 1;
    }
    None
}

/// Whether `s` contains `pat`.
pub open spec fn contains_pat(s: Seq<char>, pat: Seq<char>) -> bool {
    exists|i: int| occurs_at(s, pat, i)
}

/// Whether `pat` stands somewhere in `s`.
pub fn contains_sub(s: &str, pat: &str) -> (r: bool)
    ensures
        r == contains_pat(s@, pat@),
{
    let cs = chars_of(s);
    let ps = chars_of(pat);
    proof {
        lemma_find_from(s@, pat@, 0);
    }
    find_text(&cs, &ps, 0).is_some()
}

/// `s` begins with `p`.
pub open spec fn begins(s: Seq<char>, p: Seq<char>) -> bool {
    occurs_at(s, p, 0)
}

/// Whether `s` begins with `p`.
pub fn begins_with(s: &str, p: &str) -> (r: bool)
    ensures
        r == begins(s@, p@),
{
    let cs = chars_of(s);
    let ps = chars_of(p);
    stands_at(&cs, &ps, 0)
}

/// `s` without the leading `p`, if it begins with it.
pub fn without_prefix(s: &str, p: &str) -> (r: Option<String>)
    ensures
        r is Some == begins(s@, p@),
        r matches Some(t) ==> s@ == p@ + t@,
{
    let cs = chars_of(s);
    let ps = chars_of(p);
    if stands_at(&cs, &ps, 0) {
        let t = string_of(&cs, ps.len(), cs.len());
        assert(s@ =~= p@ + t@) by {
            assert forall|i: int| 0 <= i < p@.len() implies s@[i] == p@[i] by {
                assert(s@.subrange(0, p@.len() as int)[i] == s@[i]);
            }
        }
        Some(t)
    } else {
        None
    }
}

// ---------------------------------------------------------------------------
// Splitting and joining
// ---------------------------------------------------------------------------

/// The first place at or after `from` where `c` stands in `s`, or the length of `s`.
pub open spec fn place_of_char(s: Seq<char>, c: char, from: int) -> int
    decreases s.len() - from,
{
    if from < 0 || from >= s.len() {
        s.len() as int
    } else if s[from] == c {
        from
    } else {
        place_of_char(s, c, from + 1)
    }
}

pub proof fn lemma_place_of_char(s: Seq<char>, c: char, from: int)
    requires
        0 <= from <= s.len(),
    ensures
        from <= place_of_char(s, c, from) <= s.len(),
        place_of_char(s, c, from) < s.len() ==> s[place_of_char(s, c, from)] == c,
        forall|j: int| from <= j < place_of_char(s, c, from) ==> s[j] != c,
    decreases s.len() - from,
{
    if from < s.len() && s[from] != c {
        lemma_place_of_char(s, c, from + 1);
    }
}

/// The first place at or after `from` where `c` stands in `cs`, or the length of `cs`.
pub fn find_char(cs: &Vec<char>, c: char, from: usize) -> (r: usize)
    requires
        from <= cs@.len(),
    ensures
        r == place_of_char(cs@, c, from as int),
        from <= r <= cs@.len(),
        r < cs@.len() ==> cs@[r as int] == c,
        forall|j: int| from <= j < r ==> cs@[j] != c,
{
    proof {
        lemma_place_of_char(cs@, c, from as int);
    }
    let mut i: usize = from;
    while i < cs.len()
        invariant
            from <= i <= cs@.len(),
            place_of_char(cs@, c, from as int) == place_of_char(cs@, c, i as int),
        decreases cs@.len() - i,
    {
        proof {
            lemma_place_of_char(cs@, c, from as int);
        }
        if cs[i] == c {
            return i;
        }
        i = i + 1;
    }
    i
}

/// The pieces of `s` from place `from` on, between the separators `c`.
pub open spec fn pieces_from(s: Seq<char>, c: char, from: int) -> Seq<Seq<char>>
    decreases s.len() - from,
{
    if from < 0 || from > s.len() {
        Seq::empty()
    } else {
        let i = place_of_char(s, c, from);
        if from <= i < s.len() {
            seq![s.subrange(from, i)] + pieces_from(s, c, i + 1)
        } else {
            seq![s.subrange(from, s.len() as int)]
        }
    }
}

/// The pieces of `s` between the separators `c`: one more than there are separators.
pub open spec fn pieces(s: Seq<char>, c: char) -> Seq<Seq<char>> {
    pieces_from(s, c, 0)
}

/// Cuts `s` at each `c`.
pub fn split_at_char(s: &str, c: char) -> (r: Vec<String>)
    ensures
        texts(r@) == pieces(s@, c),
{
    let cs = chars_of(s);
    let n: usize = cs.len();
    let mut out: Vec<String> = Vec::new();
    let mut from: usize = 0;
    assert(texts(out@) =~= Seq::empty());
    assert(texts(out@) + pieces_from(cs@, c, 0) =~= pieces(s@, c));
    loop
        invariant
            cs@ == s@,
            n == cs@.len(),
            from <= n,
            texts(out@) + pieces_from(cs@, c, from as int) == pieces(s@, c),
        decreases n - from,
    {
        let i = find_char(&cs, c, from);
        let ghost before = out@;
        if i < n {
            out.push(string_of(&cs, from, i));
            assert(texts(out@) =~= texts(before).push(cs@.subrange(from as int, i as int)));
            assert(texts(out@) + pieces_from(cs@, c, i + 1) =~= texts(before) + (seq![
                cs@.subrange(from as int, i as int),
            ] + pieces_from(cs@, c, i + 1)));
            from = i + 1;
        } else {
            out.push(string_of(&cs, from, n));
            assert(texts(out@) =~= texts(before) + seq![cs@.subrange(from as int, n as int)]);
            return out;
        }
    }
}

/// The parts one after another, with `sep` between each two.
pub open spec fn joined(parts: Seq<Seq<char>>, sep: Seq<char>) -> Seq<char>
    decreases parts.len(),
{
    if parts.len() == 0 {
        Seq::empty()
    } else if parts.len() == 1 {
        parts[0]
    } else {
        joined(parts.drop_last(), sep) + sep + parts.last()
    }
}

/// Joins `parts` with `sep` between each two.
pub fn join(parts: &Vec<String>, sep: &str) -> (r: String)
    ensures
        r@ == joined(texts(parts@), sep@),
{
    let ghost all = texts(parts@);
    let mut out = String::new();
    let mut i: usize = 0;
    while i < parts.len()
        invariant
            all == texts(parts@),
            i <= parts@.len(),
            out@ == joined(all.take(i as int), sep@),
        decreases parts@.len() - i,
    {
        assert(all.take(i + 1).drop_last() =~= all.take(i as int));
        assert(all.take(i + 1).last() == parts@[i as int]@);
        if i > 0 {
            out.append(sep);
            out.append(parts[i].as_str());
        } else {
            assert(all.take(1)[0] == parts@[0]@);
            out.append(parts[i].as_str());
            assert(out@ =~= parts@[0]@);
        }
        i = i + 1;
    }
    assert(all.take(parts@.len() as int) =~= all);
    out
}

// ---------------------------------------------------------------------------
// Trimming and letter case
// ---------------------------------------------------------------------------

/// The characters with the Unicode property `White_Space`.
pub open spec fn is_space(c: char) -> bool {
    let n = c as u32;
    ||| 0x9 <= n <= 0xD
    ||| n == 0x20
    ||| n == 0x85
    ||| n == 0xA0
    ||| n == 0x1680
    ||| 0x2000 <= n <= 0x200A
    ||| n == 0x2028
    ||| n == 0x2029
    ||| n == 0x202F
    ||| n == 0x205F
    ||| n == 0x3000
}

/// Whether `c` is white space.
pub fn is_white(c: char) -> (r: bool)
    ensures
        r == is_space(c),
{
    let n: u32 = c as u32;
    (0x9 <= n && n <= 0xD) || n == 0x20 || n == 0x85 || n == 0xA0 || n == 0x1680 || (0x2000 <= n
        && n <= 0x200A) || n == 0x2028 || n == 0x2029 || n == 0x202F || n == 0x205F || n == 0x3000
}

/// `s` without white space at its beginning.
pub open spec fn trimmed_start(s: Seq<char>) -> Seq<char>
    decreases s.len(),
{
    if s.len() > 0 && is_space(s[0]) {
        trimmed_start(s.subrange(1, s.len() as int))
    } else {
        s
    }
}

/// `s` without white space at its end.
pub open spec fn trimmed_end(s: Seq<char>) -> Seq<char>
    decreases s.len(),
{
    if s.len() > 0 && is_space(s.last()) {
        trimmed_end(s.drop_last())
    } else {
        s
    }
}

/// `s` without white space at either end.
pub open spec fn trimmed(s: Seq<char>) -> Seq<char> {
    trimmed_end(trimmed_start(s))
}

/// Takes white space off both ends of `s`.
#[verifier::rlimit(40)]
pub fn trim(s: &str) -> (r: String)
    ensures
        r@ == trimmed(s@),
{
    let cs = chars_of(s);
    let n: usize = cs.len();
    let mut from: usize = 0;
    assert(cs@.subrange(0, n as int) =~= s@);
    while from < n && is_white(cs[from])
        invariant
            n == cs@.len(),
            from <= n,
            trimmed_start(s@) == trimmed_start(cs@.subrange(from as int, n as int)),
        decreases n - from,
    {
        assert(cs@.subrange(from as int, n as int).subrange(1, n - from) =~= cs@.subrange(
            from + 1,
            n as int,
        ));
        from = from + 1;
    }
    let mut to: usize = n;
    while from < to && is_white(cs[to - 1])
        invariant
            n == cs@.len(),
            from <= to <= n,
            trimmed(s@) == trimmed_end(cs@.subrange(from as int, to as int)),
        decreases to - from,
    {
        assert(cs@.subrange(from as int, to as int).drop_last() =~= cs@.subrange(
            from as int,
            to - 1,
        ));
        to = to - 1;
    }
    string_of(&cs, from, to)
}

/// `c` in lower case, if it is an ASCII letter.
pub open spec fn ascii_lower(c: char) -> char {
    if 'A' <= c && c <= 'Z' {
        ((c as u32 + 32) as u32) as char
    } else {
        c
    }
}

/// `s` with its ASCII letters in lower case.
pub open spec fn ascii_lowered(s: Seq<char>) -> Seq<char> {
    Seq::new(s.len(), |i: int| ascii_lower(s[i]))
}

/// Puts the ASCII letters of `s` into lower case.
pub fn lower_ascii(s: &str) -> (r: String)
    ensures
        r@ == ascii_lowered(s@),
{
    let cs = chars_of(s);
    let mut out = String::new();
    let mut i: usize = 0;
    while i < cs.len()
        invariant
            cs@ == s@,
            i <= cs@.len(),
            out@.len() == i,
            forall|j: int| 0 <= j < i ==> out@[j] == ascii_lower(s@[j]),
        decreases cs@.len() - i,
    {
        let c: char = cs[i];
        if 'A' <= c && c <= 'Z' {
            let b: u8 = c as u8;
            out.push((b + 32) as char);
        } else {
            out.push(c);
        }
        i = i + 1;
    }
    assert(out@ =~= ascii_lowered(s@));
    out
}

// ---------------------------------------------------------------------------
// Order
// ---------------------------------------------------------------------------

/// `a` comes before `b` in the order of the code points.
pub open spec fn comes_before(a: Seq<char>, b: Seq<char>) -> bool
    decreases a.len(),
{
    if b.len() == 0 {
        false
    } else if a.len() == 0 {
        true
    } else if a[0] != b[0] {
        a[0] < b[0]
    } else {
        comes_before(a.subrange(1, a.len() as int), b.subrange(1, b.len() as int))
    }
}

/// Two different texts stand in one order or the other, never in both.
pub proof fn lemma_order_total(a: Seq<char>, b: Seq<char>)
    ensures
        a != b ==> comes_before(a, b) != comes_before(b, a),
        !comes_before(a, a),
    decreases a.len(),
{
    if a.len() > 0 && b.len() > 0 {
        let ta = a.subrange(1, a.len() as int);
        let tb = b.subrange(1, b.len() as int);
        lemma_order_total(ta, tb);
        if a[0] == b[0] && ta == tb {
            assert(a =~= b) by {
                assert(a =~= seq![a[0]] + ta);
                assert(b =~= seq![b[0]] + tb);
            }
        }
        lemma_order_total(ta, ta);
    } else if a.len() > 0 {
        lemma_order_total(a.subrange(1, a.len() as int), a.subrange(1, a.len() as int));
    } else if b.len() == 0 {
        assert(a =~= b);
    }
}

/// The order is transitive.
pub proof fn lemma_order_transitive(a: Seq<char>, b: Seq<char>, c: Seq<char>)
    requires
        comes_before(a, b),
        comes_before(b, c),
    ensures
        comes_before(a, c),
    decreases a.len(),
{
    if a.len() > 0 && a[0] == b[0] && b[0] == c[0] {
        lemma_order_transitive(
            a.subrange(1, a.len() as int),
            b.subrange(1, b.len() as int),
            c.subrange(1, c.len() as int),
        );
    }
}

/// Whether `a` comes before `b`.
pub fn text_before(a: &str, b: &str) -> (r: bool)
    ensures
        r == comes_before(a@, b@),
{
    let xs = chars_of(a);
    let ys = chars_of(b);
    let mut i: usize = 0;
    assert(xs@.subrange(0, xs@.len() as int) =~= a@);
    assert(ys@.subrange(0, ys@.len() as int) =~= b@);
    while i < xs.len() && i < ys.len()
        invariant
            i <= xs@.len(),
            i <= ys@.len(),
            comes_before(a@, b@) == comes_before(
                xs@.subrange(i as int, xs@.len() as int),
                ys@.subrange(i as int, ys@.len() as int),
            ),
        decreases xs@.len() - i,
    {
        let x: char = xs[i];
        let y: char = ys[i];
        if x != y {
            return x < y;
        }
        assert(xs@.subrange(i as int, xs@.len() as int).subrange(1, xs@.len() - i)
            =~= xs@.subrange(i + 1, xs@.len() as int));
        assert(ys@.subrange(i as int, ys@.len() as int).subrange(1, ys@.len() - i)
            =~= ys@.subrange(i + 1, ys@.len() as int));
        i = i + 1;
    }
    i < ys.len()
}

// ---------------------------------------------------------------------------
// Numbers and columns
// ---------------------------------------------------------------------------

/// The digit for `d`, with letters in lower case from ten on.
pub open spec fn digit(d: int) -> char {
    if d < 10 {
        (48 + d) as char
    } else {
        (87 + d) as char
    }
}

/// The digits of `n` in the given base.
pub open spec fn digits(n: int, base: int) -> Seq<char>
    decreases n,
{
    if n < base || base < 2 {
        seq![digit(n)]
    } else {
        proof {
            assert(n / base < n) by (nonlinear_arith)
                requires
                    n >= base,
                    base >= 2,
            ;
            assert(0 <= n / base) by (nonlinear_arith)
                requires
                    n >= base,
                    base >= 2,
            ;
        }
        digits(n / base, base).push(digit(n % base))
    }
}

/// `n` in decimal.
pub open spec fn decimal(n: int) -> Seq<char> {
    digits(n, 10)
}

/// `n` in hexadecimal, in lower case.
pub open spec fn hex(n: int) -> Seq<char> {
    digits(n, 16)
}

/// `s` with `fill` in front of it up to `width` characters.
pub open spec fn padded_left(s: Seq<char>, fill: char, width: int) -> Seq<char> {
    if s.len() < width {
        Seq::new((width - s.len()) as nat, |i: int| fill) + s
    } else {
        s
    }
}

/// `s` with spaces behind it up to `width` characters.
pub open spec fn padded_right(s: Seq<char>, width: int) -> Seq<char> {
    if s.len() < width {
        s + Seq::new((width - s.len()) as nat, |i: int| ' ')
    } else {
        s
    }
}

/// The first number that needs more than `k` hexadecimal digits.
pub open spec fn hex_bound(k: nat) -> int
    decreases k,
{
    if k == 0 {
        1
    } else {
        16 * hex_bound((k - 1) as nat)
    }
}

/// A number below the bound has at most `k` hexadecimal digits.
pub proof fn lemma_hex_len(n: int, k: nat)
    requires
        0 <= n < hex_bound(k),
        k >= 1,
    ensures
        1 <= hex(n).len() <= k,
    decreases k,
{
    if n >= 16 {
        if k == 1 {
            assert(hex_bound(1) == 16) by {
                reveal_with_fuel(hex_bound, 2);
            }
        } else {
            lemma_hex_len(n / 16, (k - 1) as nat);
        }
    }
}

/// The number that hexadecimal digits stand for.
pub open spec fn hex_value(s: Seq<char>) -> int
    decreases s.len(),
{
    if s.len() == 0 {
        0
    } else {
        16 * hex_value(s.drop_last()) + (if s.last() as int >= 97 {
            s.last() as int - 87
        } else {
            s.last() as int - 48
        })
    }
}

/// The digits of a number stand for that number, with zeros in front of them or
/// without.
pub proof fn lemma_hex_value(n: int, width: int)
    requires
        0 <= n,
    ensures
        hex_value(padded_left(hex(n), '0', width)) == n,
    decreases n,
{
    let s = padded_left(hex(n), '0', width);
    if n >= 16 {
        lemma_hex_value(n / 16, width - 1);
        assert(hex(n) == hex(n / 16).push(digit(n % 16)));
        assert(s.drop_last() =~= padded_left(hex(n / 16), '0', width - 1));
        assert(s.last() == digit(n % 16));
    } else {
        assert(hex(n) == seq![digit(n)]);
        assert(s.last() == digit(n));
        lemma_zeros(s.drop_last());
    }
}

proof fn lemma_zeros(s: Seq<char>)
    requires
        forall|i: int| 0 <= i < s.len() ==> s[i] == '0',
    ensures
        hex_value(s) == 0,
    decreases s.len(),
{
    if s.len() > 0 {
        lemma_zeros(s.drop_last());
    }
}

fn digit_char(d: u64) -> (r: char)
    requires
        d < 16,
    ensures
        r == digit(d as int),
{
    if d < 10 {
        (48 + d as u8) as char
    } else {
        (87 + d as u8) as char
    }
}

/// The digits of `n` in base `base`.
pub fn digits_of(n: u64, base: u64) -> (r: String)
    requires
        2 <= base <= 16,
    ensures
        r@ == digits(n as int, base as int),
    decreases n,
{
    if n < base {
        let mut out = String::new();
        out.push(digit_char(n));
        assert(out@ =~= seq![digit(n as int)]);
        out
    } else {
        assert(n / base < n) by (nonlinear_arith)
            requires
                n >= base,
                base >= 2,
        ;
        assert(n % base < base) by (nonlinear_arith)
            requires
                base >= 2,
        ;
        let mut out = digits_of(n / base, base);
        out.push(digit_char(n % base));
        out
    }
}

/// `n` in decimal.
pub fn decimal_of(n: u64) -> (r: String)
    ensures
        r@ == decimal(n as int),
{
    digits_of(n, 10)
}

/// `n` in hexadecimal.
pub fn hex_of(n: u64) -> (r: String)
    ensures
        r@ == hex(n as int),
{
    digits_of(n, 16)
}

/// Puts `fill` in front of `s` up to `width` characters.
pub fn pad_left(s: &str, fill: char, width: usize) -> (r: String)
    ensures
        r@ == padded_left(s@, fill, width as int),
{
    let n: usize = s.unicode_len();
    let mut out = String::new();
    let mut k: usize = n;
    while k < width
        invariant
            n == s@.len(),
            n <= k,
            k <= width || k == n,
            out@ =~= Seq::new((k - n) as nat, |i: int| fill),
        decreases width - k,
    {
        out.push(fill);
        k = k + 1;
    }
    out.append(s);
    assert(out@ =~= padded_left(s@, fill, width as int));
    out
}

/// Puts spaces behind `s` up to `width` characters.
pub fn pad_right(s: &str, width: usize) -> (r: String)
    ensures
        r@ == padded_right(s@, width as int),
{
    let n: usize = s.unicode_len();
    let mut out: String = s.to_owned();
    let mut k: usize = n;
    while k < width
        invariant
            n == s@.len(),
            n <= k,
            k <= width || k == n,
            out@ =~= s@ + Seq::new((k - n) as nat, |i: int| ' '),
        decreases width - k,
    {
        out.push(' ');
        k = k + 1;
    }
    assert(out@ =~= padded_right(s@, width as int));
    out
}

// ---------------------------------------------------------------------------
// Laws
// ---------------------------------------------------------------------------

/// A text is found behind `head` if it is not found earlier.
pub proof fn lemma_found_behind(head: Seq<char>, pat: Seq<char>, rest: Seq<char>)
    requires
        forall|j: int| 0 <= j < head.len() ==> !occurs_at(head + pat + rest, pat, j),
    ensures
        find_from(head + pat + rest, pat, 0) == Some(head.len() as int),
{
    let s = head + pat + rest;
    let n = head.len() as int;
    lemma_find_from(s, pat, 0);
    assert(s.subrange(n, n + pat.len()) =~= pat);
    assert(occurs_at(s, pat, n));
}

/// A text is not found where it does not stand.
pub proof fn lemma_not_found(s: Seq<char>, pat: Seq<char>, from: int)
    requires
        0 <= from,
        !contains_pat(s, pat),
    ensures
        find_from(s, pat, from) is None,
{
    lemma_find_from(s, pat, from);
}

/// A part of a text stands in the text.
pub proof fn lemma_part_stands(a: Seq<char>, pat: Seq<char>, b: Seq<char>)
    ensures
        contains_pat(a + pat + b, pat),
{
    let s = a + pat + b;
    let n = a.len() as int;
    assert(s.subrange(n, n + pat.len()) =~= pat);
    assert(occurs_at(s, pat, n));
}

/// What stands in a part of a text stands in the text.
pub proof fn lemma_stands_in_whole(a: Seq<char>, part: Seq<char>, b: Seq<char>, pat: Seq<char>)
    requires
        contains_pat(part, pat),
    ensures
        contains_pat(a + part + b, pat),
{
    let s = a + part + b;
    let i = choose|i: int| occurs_at(part, pat, i);
    let n = a.len() + i;
    assert(s.subrange(n, n + pat.len()) =~= part.subrange(i, i + pat.len()));
    assert(occurs_at(s, pat, n));
}

/// Texts without the separator are told apart by what joining them gives.
pub proof fn lemma_joined_injective(a: Seq<Seq<char>>, b: Seq<Seq<char>>, c: char)
    requires
        a.len() > 0,
        b.len() > 0,
        forall|i: int| 0 <= i < a.len() ==> !(#[trigger] a[i]).contains(c),
        forall|i: int| 0 <= i < b.len() ==> !(#[trigger] b[i]).contains(c),
        joined(a, seq![c]) == joined(b, seq![c]),
    ensures
        a == b,
    decreases a.len(),
{
    let x = joined(a, seq![c]);
    if a.len() == 1 || b.len() == 1 {
        if a.len() > 1 {
            let n = joined(a.drop_last(), seq![c]).len() as int;
            assert(x[n] == c);
            assert(b[0] == x && b[0].contains(x[n]));
        }
        if b.len() > 1 {
            let n = joined(b.drop_last(), seq![c]).len() as int;
            assert(x[n] == c);
            assert(a[0] == x && a[0].contains(x[n]));
        }
        assert(a =~= b);
    } else {
        let a0 = a.drop_last();
        let b0 = b.drop_last();
        let m = joined(a0, seq![c]).len() as int;
        let n = joined(b0, seq![c]).len() as int;
        let ja = joined(a0, seq![c]);
        let jb = joined(b0, seq![c]);
        assert(x == ja + seq![c] + a.last());
        assert(x == jb + seq![c] + b.last());
        assert(x.len() == m + 1 + a.last().len());
        assert(x.len() == n + 1 + b.last().len());
        assert(x[m] == (ja + seq![c] + a.last())[m]);
        assert(x[n] == (jb + seq![c] + b.last())[n]);
        assert(x[m] == c && x[n] == c);
        if m < n {
            assert((ja + seq![c] + a.last())[n] == a.last()[n - m - 1]);
            assert(x[n] == a.last()[n - m - 1]);
            assert(a[a.len() - 1].contains(a.last()[n - m - 1]));
        }
        if n < m {
            assert((jb + seq![c] + b.last())[m] == b.last()[m - n - 1]);
            assert(x[m] == b.last()[m - n - 1]);
            assert(b[b.len() - 1].contains(b.last()[m - n - 1]));
        }
        assert(x.subrange(0, m) =~= joined(a0, seq![c]));
        assert(x.subrange(0, n) =~= joined(b0, seq![c]));
        assert(x.subrange(m + 1, x.len() as int) =~= a.last());
        assert(x.subrange(n + 1, x.len() as int) =~= b.last());
        assert forall|i: int| 0 <= i < a0.len() implies !(#[trigger] a0[i]).contains(c) by {
            assert(a0[i] == a[i]);
        }
        assert forall|i: int| 0 <= i < b0.len() implies !(#[trigger] b0[i]).contains(c) by {
            assert(b0[i] == b[i]);
        }
        lemma_joined_injective(a0, b0, c);
        assert(a =~= a0.push(a.last()));
        assert(b =~= b0.push(b.last()));
    }
}

/// What is found in the rest of a text is found in the text, further on.
pub proof fn lemma_find_shift(s: Seq<char>, t: Seq<char>, pat: Seq<char>, k: int, from: int)
    requires
        0 <= k <= s.len(),
        0 <= from,
        s.subrange(k, s.len() as int) == t,
    ensures
        find_from(t, pat, from) == (match find_from(s, pat, k + from) {
            Some(i) => Some(i - k),
            None => None,
        }),
{
    lemma_find_from(s, pat, k + from);
    lemma_find_from(t, pat, from);
    assert forall|j: int| 0 <= j implies #[trigger] occurs_at(t, pat, j) == occurs_at(
        s,
        pat,
        k + j,
    ) by {
        if j + pat.len() <= t.len() {
            assert(t.subrange(j, j + pat.len()) =~= s.subrange(k + j, k + j + pat.len()));
        }
    }
    if find_from(s, pat, k + from) is Some {
        let i = find_from(s, pat, k + from)->0;
        assert(occurs_at(t, pat, i - k));
    }
    if find_from(t, pat, from) is Some {
        let i = find_from(t, pat, from)->0;
        assert(occurs_at(s, pat, k + i));
    }
}

proof fn lemma_trimmed_start(a: Seq<char>, t: Seq<char>)
    requires
        forall|i: int| 0 <= i < a.len() ==> is_space(#[trigger] a[i]),
    ensures
        trimmed_start(a + t) == trimmed_start(t),
    decreases a.len(),
{
    if a.len() == 0 {
        assert(a + t =~= t);
    } else {
        let rest = a.subrange(1, a.len() as int);
        assert((a + t)[0] == a[0]);
        assert((a + t).subrange(1, (a + t).len() as int) =~= rest + t);
        lemma_trimmed_start(rest, t);
    }
}

proof fn lemma_trimmed_end(t: Seq<char>, b: Seq<char>)
    requires
        forall|i: int| 0 <= i < b.len() ==> is_space(#[trigger] b[i]),
    ensures
        trimmed_end(t + b) == trimmed_end(t),
    decreases b.len(),
{
    if b.len() == 0 {
        assert(t + b =~= t);
    } else {
        let rest = b.drop_last();
        assert((t + b).last() == b[b.len() - 1]);
        assert((t + b).drop_last() =~= t + rest);
        lemma_trimmed_end(t, rest);
    }
}

/// Trimming takes the white space off both ends, and nothing else.
pub proof fn trimming_takes_only_white_space(a: Seq<char>, s: Seq<char>, b: Seq<char>)
    requires
        forall|i: int| 0 <= i < a.len() ==> is_space(#[trigger] a[i]),
        forall|i: int| 0 <= i < b.len() ==> is_space(#[trigger] b[i]),
        s.len() > 0 ==> !is_space(s[0]) && !is_space(s[s.len() - 1]),
    ensures
        trimmed(a + s + b) == s,
{
    assert(a + s + b =~= a + (s + b));
    lemma_trimmed_start(a, s + b);
    if s.len() > 0 {
        assert((s + b)[0] == s[0]);
        lemma_trimmed_end(s, b);
    } else {
        assert(s + b =~= b + s);
        lemma_trimmed_start(b, s);
        assert(trimmed_start(s) == s);
    }
}

/// What a text of decimal digits stands for.
pub open spec fn decimal_value(s: Seq<char>) -> int
    decreases s.len(),
{
    if s.len() == 0 {
        0
    } else {
        10 * decimal_value(s.drop_last()) + (s.last() as int - 48)
    }
}

/// A number is written in decimal digits that stand for it, without a zero
/// before them.
pub proof fn decimal_stands_for_its_number(n: int)
    requires
        0 <= n,
    ensures
        decimal_value(decimal(n)) == n,
        decimal(n).len() > 0,
        forall|i: int| 0 <= i < decimal(n).len() ==> '0' <= #[trigger] decimal(n)[i] <= '9',
        n > 0 ==> decimal(n)[0] != '0',
    decreases n,
{
    reveal_with_fuel(decimal_value, 2);
    if n < 10 {
        assert(decimal(n).drop_last() =~= Seq::empty());
    } else {
        decimal_stands_for_its_number(n / 10);
        let s = decimal(n / 10);
        assert(decimal(n) == s.push(digit(n % 10)));
        assert(decimal(n).drop_last() =~= s);
    }
}

/// Lower case changes the letters A to Z, to the letters a to z in their places.
pub proof fn lower_case_changes_capitals(s: Seq<char>, i: int)
    requires
        0 <= i < s.len(),
    ensures
        ascii_lowered(s).len() == s.len(),
        'A' <= s[i] && s[i] <= 'Z' ==> ascii_lowered(s)[i] as int == s[i] as int + 32,
        !('A' <= s[i] && s[i] <= 'Z') ==> ascii_lowered(s)[i] == s[i],
{
}

/// Padding keeps the text, and fills up to the width with the filler.
pub proof fn padding_fills_to_the_width(s: Seq<char>, fill: char, width: int, i: int)
    ensures
        padded_right(s, width).len() == (if s.len() < width {
            width
        } else {
            s.len() as int
        }),
        begins(padded_right(s, width), s),
        s.len() <= i < width ==> padded_right(s, width)[i] == ' ',
        padded_left(s, fill, width).len() == (if s.len() < width {
            width
        } else {
            s.len() as int
        }),
        padded_left(s, fill, width).subrange(
            padded_left(s, fill, width).len() - s.len(),
            padded_left(s, fill, width).len() as int,
        ) == s,
        0 <= i < width - s.len() ==> padded_left(s, fill, width)[i] == fill,
{
    let r = padded_right(s, width);
    assert(r.subrange(0, s.len() as int) =~= s);
    let l = padded_left(s, fill, width);
    assert(l.subrange(l.len() - s.len(), l.len() as int) =~= s);
}

/// Each of the texts that are joined stands in what joining them gives.
pub proof fn joined_holds_each_part(parts: Seq<Seq<char>>, sep: Seq<char>, i: int)
    requires
        0 <= i < parts.len(),
    ensures
        contains_pat(joined(parts, sep), parts[i]),
    decreases parts.len(),
{
    let none = Seq::<char>::empty();
    if parts.len() == 1 {
        assert(parts[0] =~= none + parts[0] + none);
        lemma_part_stands(none, parts[0], none);
    } else {
        let before = joined(parts.drop_last(), sep);
        if i == parts.len() - 1 {
            assert(before + sep + parts[i] =~= (before + sep) + parts[i] + none);
            lemma_part_stands(before + sep, parts[i], none);
        } else {
            joined_holds_each_part(parts.drop_last(), sep, i);
            assert(parts.drop_last()[i] == parts[i]);
            assert(before + sep + parts.last() =~= none + before + (sep + parts.last()));
            lemma_stands_in_whole(none, before, sep + parts.last(), parts[i]);
        }
    }
}

/// The pieces of a text, joined by the separator, are the text; none of them
/// holds the separator.
pub proof fn pieces_make_up_the_text(s: Seq<char>, c: char, i: int)
    ensures
        joined(pieces(s, c), seq![c]) == s,
        pieces(s, c).len() > 0,
        0 <= i < pieces(s, c).len() ==> !pieces(s, c)[i].contains(c),
{
    lemma_pieces_from(s, c, 0, i);
    assert(s.subrange(0, s.len() as int) =~= s);
}

proof fn lemma_pieces_from(s: Seq<char>, c: char, from: int, i: int)
    requires
        0 <= from <= s.len(),
    ensures
        joined(pieces_from(s, c, from), seq![c]) == s.subrange(from, s.len() as int),
        pieces_from(s, c, from).len() > 0,
        0 <= i < pieces_from(s, c, from).len() ==> !pieces_from(s, c, from)[i].contains(c),
    decreases s.len() - from,
{
    lemma_place_of_char(s, c, from);
    let k = place_of_char(s, c, from);
    let all = pieces_from(s, c, from);
    let first = s.subrange(from, k);
    if first.contains(c) {
        let j = choose|j: int| 0 <= j < first.len() && first[j] == c;
        assert(s[from + j] == c);
    }
    if k < s.len() {
        let rest = pieces_from(s, c, k + 1);
        lemma_pieces_from(s, c, k + 1, i - 1);
        assert(all =~= seq![first] + rest);
        lemma_joined_front(first, rest, seq![c]);
        assert(s.subrange(from, s.len() as int) =~= first + seq![c] + s.subrange(
            k + 1,
            s.len() as int,
        ));
        if 0 < i < all.len() {
            assert(all[i] == rest[i - 1]);
        }
    } else {
        assert(all =~= seq![first]);
    }
}

proof fn lemma_joined_front(first: Seq<char>, rest: Seq<Seq<char>>, sep: Seq<char>)
    requires
        rest.len() > 0,
    ensures
        joined(seq![first] + rest, sep) == first + sep + joined(rest, sep),
    decreases rest.len(),
{
    let all = seq![first] + rest;
    if rest.len() == 1 {
        assert(all.drop_last() =~= seq![first]);
        assert(joined(seq![first], sep) == first);
        assert(all.last() == rest[0]);
    } else {
        let t = rest.drop_last();
        lemma_joined_front(first, t, sep);
        assert(all.drop_last() =~= seq![first] + t);
        assert(all.last() == rest.last());
        assert(first + sep + joined(t, sep) + sep + rest.last() =~= first + sep + (joined(t, sep)
            + sep + rest.last()));
    }
}

/// A number in hexadecimal is written in the digits 0 to 9 and the letters a to
/// f.
pub proof fn hex_has_only_hex_digits(n: int, i: int)
    requires
        0 <= n,
        0 <= i < hex(n).len(),
    ensures
        ('0' <= hex(n)[i] && hex(n)[i] <= '9') || ('a' <= hex(n)[i] && hex(n)[i] <= 'f'),
    decreases n,
{
    if n >= 16 {
        assert(hex(n) == hex(n / 16).push(digit(n % 16)));
        if i < hex(n / 16).len() {
            hex_has_only_hex_digits(n / 16, i);
        }
    }
}

/// Of the ASCII characters, the space and those from tab to carriage return are
/// white space.
pub proof fn ascii_white_space(c: char)
    requires
        (c as u32) < 128,
    ensures
        is_space(c) == (c == ' ' || ('\t' <= c && c <= '\r')),
{
}

} // verus!
