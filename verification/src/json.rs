//! JSON values and their text form.
use vstd::prelude::*;

use crate::names::{Duplicate, SameView};

verus! {

// ---------------------------------------------------------------------------
// Values
// ---------------------------------------------------------------------------

/// A JSON value. Where an object names a member twice, the last one counts.
#[derive(Debug)]
pub enum Json {
    Null,
    Bool(bool),
    /// An integer that is not negative.
    UInt(u64),
    /// An integer of either sign.
    Int(i64),
    /// A number with a fraction or an exponent.
    Decimal(Decimal),
    Str(String),
    Array(Vec<Json>),
    Object(Vec<(String, Json)>),
}

/// A number with a fraction or an exponent: one that is no 64-bit integer.
#[derive(Debug)]
pub struct Decimal {
    number: serde_json::Number,
}

impl Decimal {
    #[verifier::type_invariant]
    spec fn well_formed(self) -> bool {
        no_integer(self.number)
    }
}

impl View for Decimal {
    type V = Seq<char>;

    closed spec fn view(&self) -> Seq<char> {
        number_text(self.number)
    }
}

/// What a JSON value stands for.
#[verifier::ext_equal]
pub enum JsonView {
    Null,
    Bool(bool),
    Int(int),
    Decimal(Seq<char>),
    Str(Seq<char>),
    Array(Seq<JsonView>),
    Object(Map<Seq<char>, JsonView>),
}

pub open spec fn json_view(j: Json) -> JsonView
    decreases j,
{
    match j {
        Json::Null => JsonView::Null,
        Json::Bool(b) => JsonView::Bool(b),
        Json::UInt(n) => JsonView::Int(n as int),
        Json::Int(n) => JsonView::Int(n as int),
        Json::Decimal(d) => JsonView::Decimal(d@),
        Json::Str(s) => JsonView::Str(s@),
        Json::Array(v) => JsonView::Array(items_view(v@)),
        Json::Object(v) => JsonView::Object(members_view(v@)),
    }
}

/// What the items of an array stand for.
pub open spec fn items_view(s: Seq<Json>) -> Seq<JsonView>
    decreases s,
{
    if s.len() == 0 {
        Seq::empty()
    } else {
        items_view(s.drop_last()).push(json_view(s.last()))
    }
}

/// What the members of an object stand for.
pub open spec fn members_view(s: Seq<(String, Json)>) -> Map<Seq<char>, JsonView>
    decreases s,
{
    if s.len() == 0 {
        Map::empty()
    } else {
        members_view(s.drop_last()).insert(s.last().0@, json_view(s.last().1))
    }
}

impl View for Json {
    type V = JsonView;

    open spec fn view(&self) -> JsonView {
        json_view(*self)
    }
}

/// The string value `s`.
pub open spec fn js(s: Seq<char>) -> JsonView {
    JsonView::Str(s)
}

/// The object without members.
pub open spec fn no_members() -> Map<Seq<char>, JsonView> {
    Map::empty()
}

/// The member `key` of `v`, if `v` is an object that has it.
pub open spec fn member_of(v: JsonView, key: Seq<char>) -> Option<JsonView> {
    match v {
        JsonView::Object(m) => if m.dom().contains(key) {
            Some(m[key])
        } else {
            None
        },
        _ => None,
    }
}

/// The text of `v`, if it is a string.
pub open spec fn text_of(v: Option<JsonView>) -> Option<Seq<char>> {
    match v {
        Some(JsonView::Str(s)) => Some(s),
        _ => None,
    }
}

/// The text of the member `key`, or a question mark.
pub open spec fn text_or_unknown(v: JsonView, key: Seq<char>) -> Seq<char> {
    match text_of(member_of(v, key)) {
        Some(s) => s,
        None => "?"@,
    }
}

/// `v` as a number that fits 64 bits without a sign.
pub open spec fn uint_of(v: Option<JsonView>) -> Option<int> {
    match v {
        Some(JsonView::Int(n)) => if 0 <= n <= u64::MAX {
            Some(n)
        } else {
            None
        },
        _ => None,
    }
}

/// `v` as a truth value.
pub open spec fn bool_of(v: Option<JsonView>) -> Option<bool> {
    match v {
        Some(JsonView::Bool(b)) => Some(b),
        _ => None,
    }
}

// ---------------------------------------------------------------------------
// serde_json
// ---------------------------------------------------------------------------

/// A JSON value as `serde_json` holds it.
#[verifier::external_type_specification]
#[verifier::external_body]
pub struct ExValue(serde_json::Value);

/// A JSON number as `serde_json` holds it.
#[verifier::external_type_specification]
#[verifier::external_body]
pub struct ExNumber(serde_json::Number);

/// What a `serde_json::Value` holds.
pub uninterp spec fn value_view(v: serde_json::Value) -> JsonView;

/// The text that `serde_json::Number` displays as.
pub uninterp spec fn number_text(n: serde_json::Number) -> Seq<char>;

/// Neither `as_u64` nor `as_i64` of a `serde_json::Number` gives an integer.
pub uninterp spec fn no_integer(n: serde_json::Number) -> bool;

/// What `serde_json::from_slice` makes of bytes, read as any value.
pub uninterp spec fn parsed_json(bytes: Seq<u8>) -> Option<JsonView>;

/// What `serde_json::to_string` writes for a value.
pub uninterp spec fn compact_text(v: JsonView) -> Seq<char>;

/// What `serde_json::from_slice` makes of bytes, read as a map from strings to
/// strings.
pub uninterp spec fn parsed_texts(bytes: Seq<u8>) -> Option<Map<Seq<char>, Seq<char>>>;

/// What `serde_json::to_string` writes for a map from strings to strings.
pub uninterp spec fn texts_json(m: Map<Seq<char>, Seq<char>>) -> Seq<char>;

/// What `serde_json::to_string_pretty` writes for a value.
pub uninterp spec fn pretty_text(v: JsonView) -> Seq<char>;

/// A `serde_json::Value` with its outermost layer taken apart.
pub enum Parts {
    Null,
    Bool(bool),
    UInt(u64),
    Int(i64),
    Decimal(serde_json::Number),
    Str(String),
    Array(Vec<serde_json::Value>),
    Object(Vec<(String, serde_json::Value)>),
}

/// The names of a taken-apart object with what their values stand for.
pub open spec fn value_pairs(s: Seq<(String, serde_json::Value)>) -> Seq<(Seq<char>, JsonView)> {
    Seq::new(s.len(), |i: int| (s[i].0@, value_view(s[i].1)))
}

/// What the members of a taken-apart object stand for.
pub open spec fn value_members(s: Seq<(String, serde_json::Value)>) -> Map<Seq<char>, JsonView> {
    crate::names::map_of(value_pairs(s))
}

/// What the items of a taken-apart array stand for.
pub open spec fn value_items(s: Seq<serde_json::Value>) -> Seq<JsonView> {
    Seq::new(s.len(), |i: int| value_view(s[i]))
}

/// What a taken-apart value stands for.
pub open spec fn parts_view(p: Parts) -> JsonView {
    match p {
        Parts::Null => JsonView::Null,
        Parts::Bool(b) => JsonView::Bool(b),
        Parts::UInt(n) => JsonView::Int(n as int),
        Parts::Int(n) => JsonView::Int(n as int),
        Parts::Decimal(n) => JsonView::Decimal(number_text(n)),
        Parts::Str(s) => JsonView::Str(s@),
        Parts::Array(v) => JsonView::Array(value_items(v@)),
        Parts::Object(v) => JsonView::Object(value_members(v@)),
    }
}

/// No name occurs twice.
pub open spec fn names_once(s: Seq<(String, serde_json::Value)>) -> bool {
    crate::names::distinct_names(value_pairs(s))
}

/// The variants of `serde_json::Value`, with `serde_json::Number::as_u64` and
/// `as_i64` to tell integers from other numbers: taking the outermost layer
/// apart keeps what the value holds, a decimal is no integer, and an object
/// has no name twice.
#[verifier::external_body]
fn open_value(v: serde_json::Value) -> (r: Parts)
    ensures
        parts_view(r) == value_view(v),
        r matches Parts::Decimal(n) ==> no_integer(n),
        r matches Parts::Object(m) ==> names_once(m@),
{
    match v {
        serde_json::Value::Null => Parts::Null,
        serde_json::Value::Bool(b) => Parts::Bool(b),
        serde_json::Value::Number(n) => match (n.as_u64(), n.as_i64()) {
            (Some(u), _) => Parts::UInt(u),
            (None, Some(i)) => Parts::Int(i),
            (None, None) => Parts::Decimal(n),
        },
        serde_json::Value::String(s) => Parts::Str(s),
        serde_json::Value::Array(a) => Parts::Array(a),
        serde_json::Value::Object(m) => Parts::Object(m.into_iter().collect()),
    }
}

/// The variants of `serde_json::Value`, with `serde_json::Number::from`:
/// putting a layer together keeps what it stands for, as long as a decimal is
/// no integer and no two members have one name.
#[verifier::external_body]
fn close_value(p: Parts) -> (r: serde_json::Value)
    requires
        p matches Parts::Decimal(n) ==> no_integer(n),
        p matches Parts::Object(m) ==> names_once(m@),
    ensures
        value_view(r) == parts_view(p),
{
    match p {
        Parts::Null => serde_json::Value::Null,
        Parts::Bool(b) => serde_json::Value::Bool(b),
        Parts::UInt(n) => serde_json::Value::Number(serde_json::Number::from(n)),
        Parts::Int(n) => serde_json::Value::Number(serde_json::Number::from(n)),
        Parts::Decimal(n) => serde_json::Value::Number(n),
        Parts::Str(s) => serde_json::Value::String(s),
        Parts::Array(a) => serde_json::Value::Array(a),
        Parts::Object(m) => serde_json::Value::Object(m.into_iter().collect()),
    }
}

/// `serde_json::Number::clone`: a copy displays as the same text, and is an
/// integer if the number is.
#[verifier::external_body]
fn copy_number(n: &serde_json::Number) -> (r: serde_json::Number)
    ensures
        number_text(r) == number_text(*n),
        no_integer(r) == no_integer(*n),
{
    n.clone()
}

/// `serde_json::Number::to_string`: the number's text.
#[verifier::external_body]
fn number_string(n: &serde_json::Number) -> (r: String)
    ensures
        r@ == number_text(*n),
{
    n.to_string()
}

/// `serde_json::from_slice`: whether the bytes are one JSON value, and which.
#[verifier::external_body]
fn parse_value(bytes: &[u8]) -> (r: Option<serde_json::Value>)
    ensures
        r is Some == parsed_json(bytes@) is Some,
        r matches Some(v) ==> parsed_json(bytes@) == Some(value_view(v)),
{
    serde_json::from_slice(bytes).ok()
}

/// A value without parts that is no decimal number: it prints as a text that
/// reads as the same value.
pub open spec fn is_plain(v: JsonView) -> bool {
    match v {
        JsonView::Null => true,
        JsonView::Bool(_) => true,
        JsonView::Int(n) => i64::MIN <= n <= u64::MAX,
        JsonView::Str(_) => true,
        _ => false,
    }
}

/// The name under which `serde_json` keeps a text that is to be read later. An
/// object with such a member is read as that text.
pub open spec fn raw_value_name() -> Seq<char> {
    "$serde_json::private::RawValue"@
}

/// An object all of whose members are plain, and none of which has the name of
/// a text to be read later.
pub open spec fn flat_object(v: JsonView) -> bool {
    v matches JsonView::Object(m) && !m.dom().contains(raw_value_name()) && forall|k: Seq<char>| #[trigger]
        m.dom().contains(k) ==> is_plain(m[k])
}

/// A text on one line, with no white space at either end.
pub open spec fn on_one_line(s: Seq<char>) -> bool {
    &&& s.len() > 0
    &&& !crate::text::is_space(s[0])
    &&& !crate::text::is_space(s.last())
    &&& !s.contains('\n')
}

/// `serde_json::to_string`: the compact text of a value. It stands on one line:
/// line breaks occur in strings alone, where they are escaped. Reading the text
/// of a flat object gives that object back.
#[verifier::external_body]
fn print_value(v: &serde_json::Value) -> (r: String)
    ensures
        r@ == compact_text(value_view(*v)),
        on_one_line(r@),
        flat_object(value_view(*v)) ==> parsed_json(vstd::utf8::encode_utf8(r@)) == Some(
            value_view(*v),
        ),
{
    serde_json::to_string(v).unwrap_or_default()
}

/// `serde_json::to_string_pretty`: the indented text of a value.
#[verifier::external_body]
fn print_value_pretty(v: &serde_json::Value) -> (r: String)
    ensures
        r@ == pretty_text(value_view(*v)),
{
    serde_json::to_string_pretty(v).unwrap_or_default()
}

/// What a list of names and texts stands for.
pub open spec fn text_pairs(s: Seq<(String, String)>) -> Seq<(Seq<char>, Seq<char>)> {
    Seq::new(s.len(), |i: int| (s[i].0@, s[i].1@))
}

/// `serde_json::from_slice` into a `BTreeMap<String, String>`: whether the bytes
/// are one JSON object of strings, and which. A map has no name twice.
#[verifier::external_body]
pub(crate) fn parse_texts(bytes: &[u8]) -> (r: Option<Vec<(String, String)>>)
    ensures
        r is Some == parsed_texts(bytes@) is Some,
        r matches Some(v) ==> crate::names::distinct_names(text_pairs(v@)) && parsed_texts(bytes@) == Some(
            crate::names::map_of(text_pairs(v@)),
        ),
{
    let map: std::collections::BTreeMap<String, String> = serde_json::from_slice(bytes).ok()?;
    Some(map.into_iter().collect())
}

/// `serde_json::to_string` of a `BTreeMap<String, String>`: the compact text of
/// the map. Reading the text as such a map gives the map back.
#[verifier::external_body]
pub(crate) fn print_texts(v: Vec<(String, String)>) -> (r: String)
    requires
        crate::names::distinct_names(text_pairs(v@)),
    ensures
        r@ == texts_json(crate::names::map_of(text_pairs(v@))),
        parsed_texts(vstd::utf8::encode_utf8(r@)) == Some(crate::names::map_of(text_pairs(v@))),
{
    let map: std::collections::BTreeMap<String, String> = v.into_iter().collect();
    serde_json::to_string(&map).unwrap_or_default()
}

// ---------------------------------------------------------------------------
// Lemmas
// ---------------------------------------------------------------------------

pub proof fn lemma_items(s: Seq<Json>)
    ensures
        items_view(s).len() == s.len(),
        forall|i: int| 0 <= i < s.len() ==> #[trigger] items_view(s)[i] == json_view(s[i]),
    decreases s.len(),
{
    if s.len() > 0 {
        lemma_items(s.drop_last());
        assert forall|i: int| 0 <= i < s.len() implies #[trigger] items_view(s)[i] == json_view(
            s[i],
        ) by {
            if i < s.len() - 1 {
                assert(items_view(s.drop_last())[i] == json_view(s.drop_last()[i]));
            }
        }
    }
}

pub proof fn lemma_items_push(s: Seq<Json>, j: Json)
    ensures
        items_view(s.push(j)) == items_view(s).push(json_view(j)),
{
    assert(s.push(j).drop_last() =~= s);
}

pub proof fn lemma_members_push(s: Seq<(String, Json)>, m: (String, Json))
    ensures
        members_view(s.push(m)) == members_view(s).insert(m.0@, json_view(m.1)),
{
    assert(s.push(m).drop_last() =~= s);
}

/// A name is a member if and only if it occurs; its last occurrence counts.
pub proof fn lemma_member(s: Seq<(String, Json)>, key: Seq<char>)
    ensures
        (forall|i: int| 0 <= i < s.len() ==> s[i].0@ != key) ==> !members_view(s).dom().contains(
            key,
        ),
        forall|i: int|
            0 <= i < s.len() && #[trigger] s[i].0@ == key && (forall|j: int|
                i < j < s.len() ==> s[j].0@ != key) ==> members_view(s).dom().contains(key)
                && members_view(s)[key] == json_view(s[i].1),
    decreases s.len(),
{
    if s.len() > 0 {
        let t = s.drop_last();
        lemma_member(t, key);
        assert forall|i: int|
            0 <= i < s.len() && #[trigger] s[i].0@ == key && (forall|j: int|
                i < j < s.len() ==> s[j].0@ != key) implies members_view(s).dom().contains(key)
            && members_view(s)[key] == json_view(s[i].1) by {
            if i < s.len() - 1 {
                assert(t[i].0@ == key);
                assert forall|j: int| i < j < t.len() implies t[j].0@ != key by {
                    assert(s[j].0@ != key);
                }
                assert(s[s.len() - 1].0@ != key);
            }
        }
        if forall|i: int| 0 <= i < s.len() ==> s[i].0@ != key {
            assert forall|i: int| 0 <= i < t.len() implies t[i].0@ != key by {
                assert(s[i].0@ != key);
            }
        }
    }
}

/// The first members of a list without repeated names; one more of them binds
/// one more name.
proof fn lemma_one_more_value(s: Seq<(String, serde_json::Value)>, i: int)
    requires
        names_once(s),
        0 <= i < s.len(),
    ensures
        value_members(s.take(i + 1)) == value_members(s.take(i)).insert(
            s[i].0@,
            value_view(s[i].1),
        ),
        names_once(s.take(i)),
{
    let all = value_pairs(s);
    let so_far = value_pairs(s.take(i));
    assert(so_far =~= all.take(i));
    assert(crate::names::distinct_names(so_far)) by {
        assert forall|a: int, b: int|
            0 <= a < so_far.len() && 0 <= b < so_far.len() && so_far[a].0
                == so_far[b].0 implies a == b by {
            assert(all[a].0 == all[b].0);
        }
    }
    assert(!crate::names::has_name(so_far, all[i].0)) by {
        if crate::names::has_name(so_far, all[i].0) {
            let p = crate::names::place_of(so_far, all[i].0);
            assert(all[p].0 == all[i].0);
        }
    }
    crate::names::lemma_bound(so_far, all[i].0, all[i].1);
    assert(value_pairs(s.take(i + 1)) =~= so_far.push(all[i]));
}

/// A member of a taken-apart object is one of finitely many.
proof fn lemma_value_member(s: Seq<(String, serde_json::Value)>, i: int)
    requires
        names_once(s),
        0 <= i < s.len(),
    ensures
        value_members(s).dom().finite(),
        value_members(s).dom().contains(s[i].0@),
        value_members(s)[s[i].0@] == value_view(s[i].1),
{
    crate::names::lemma_place(value_pairs(s), i);
    lemma_finite_members(s, s.len() as int);
    assert(s.take(s.len() as int) =~= s);
}

proof fn lemma_finite_members(s: Seq<(String, serde_json::Value)>, n: int)
    requires
        names_once(s),
        0 <= n <= s.len(),
    ensures
        value_members(s.take(n)).dom().finite(),
    decreases n,
{
    if n == 0 {
        assert(value_members(s.take(0)).dom() =~= Set::empty());
    } else {
        lemma_finite_members(s, n - 1);
        lemma_one_more_value(s, n - 1);
    }
}

/// What the name of a text to be read later begins with.
pub proof fn lemma_raw_value_name()
    ensures
        raw_value_name().len() > 0,
        raw_value_name()[0] == '$',
{
    reveal_strlit("$serde_json::private::RawValue");
}

/// An item of an array is smaller than the array.
pub proof fn lemma_item_smaller(j: Json, i: int)
    requires
        j is Array,
        0 <= i < j->Array_0@.len(),
    ensures
        decreases_to!(j => j->Array_0@[i]),
{
    assert(decreases_to!(j => j->Array_0));
    assert(decreases_to!(j->Array_0 => j->Array_0@));
    assert(decreases_to!(j->Array_0@ => j->Array_0@[i]));
}

/// A member of an object is smaller than the object.
pub proof fn lemma_member_smaller(j: Json, i: int)
    requires
        j is Object,
        0 <= i < j->Object_0@.len(),
    ensures
        decreases_to!(j => j->Object_0@[i].1),
{
    assert(decreases_to!(j => j->Object_0));
    assert(decreases_to!(j->Object_0 => j->Object_0@));
    assert(decreases_to!(j->Object_0@ => j->Object_0@[i]));
    assert(decreases_to!(j->Object_0@[i] => j->Object_0@[i].1));
}

// ---------------------------------------------------------------------------
// Building and reading
// ---------------------------------------------------------------------------

/// The string value `s`.
pub fn text(s: &str) -> (r: Json)
    ensures
        r@ == js(s@),
{
    Json::Str(s.to_owned())
}

/// Adds the member `key` to an object's members.
pub fn put(members: &mut Vec<(String, Json)>, key: &str, value: Json)
    ensures
        members_view(final(members)@) == members_view(old(members)@).insert(key@, value@),
{
    let ghost before = members@;
    let m: (String, Json) = (key.to_owned(), value);
    proof {
        lemma_members_push(before, m);
    }
    members.push(m);
}

/// The array of the given strings.
pub fn text_array(v: &Vec<String>) -> (r: Json)
    ensures
        r@ == JsonView::Array(Seq::new(v@.len(), |i: int| js(v@[i]@))),
{
    let mut items: Vec<Json> = Vec::new();
    let mut i: usize = 0;
    assert(items_view(items@) =~= Seq::new(0, |i: int| js(v@[i]@)));
    while i < v.len()
        invariant
            i <= v@.len(),
            items_view(items@) == Seq::new(i as nat, |i: int| js(v@[i]@)),
        decreases v@.len() - i,
    {
        let j: Json = Json::Str(v[i].clone());
        proof {
            lemma_items_push(items@, j);
            assert(Seq::new(i as nat, |i: int| js(v@[i]@)).push(json_view(j)) =~= Seq::new(
                (i + 1) as nat,
                |i: int| js(v@[i]@),
            ));
        }
        items.push(j);
        i = i + 1;
    }
    Json::Array(items)
}

/// The place of the last member named `key`.
pub fn last_named(members: &Vec<(String, Json)>, key: &str) -> (r: Option<usize>)
    ensures
        r is Some == members_view(members@).dom().contains(key@),
        r matches Some(i) ==> i < members@.len() && members@[i as int].0@ == key@ && members_view(
            members@,
        )[key@] == json_view(members@[i as int].1) && forall|j: int|
            i < j < members@.len() ==> members@[j].0@ != key@,
{
    let wanted: String = key.to_owned();
    let mut i: usize = members.len();
    proof {
        lemma_member(members@, key@);
    }
    while i > 0
        invariant
            i <= members@.len(),
            wanted@ == key@,
            forall|j: int| i <= j < members@.len() ==> members@[j].0@ != key@,
        decreases i,
    {
        if members[i - 1].0 == wanted {
            proof {
                lemma_member(members@, key@);
                assert(members@[i - 1].0@ == key@);
            }
            return Some(i - 1);
        }
        i = i - 1;
    }
    None
}

/// Takes every member named `key` out.
pub fn take_out(members: Vec<(String, Json)>, key: &str) -> (r: Vec<(String, Json)>)
    ensures
        members_view(r@) == members_view(members@).remove(key@),
{
    let wanted: String = key.to_owned();
    let mut out: Vec<(String, Json)> = Vec::new();
    let ghost all = members@;
    proof {
        assert(all.take(0) =~= Seq::empty());
        assert(members_view(out@) =~= members_view(all.take(0)).remove(key@));
    }
    for m in it: members.into_iter()
        invariant
            it.seq() == all,
            wanted@ == key@,
            members_view(out@) == members_view(all.take(it.index() as int)).remove(key@),
    {
        let ghost i = it.index() as int;
        proof {
            assert(all.take(i + 1) =~= all.take(i).push(all[i]));
            lemma_members_push(all.take(i), all[i]);
        }
        if m.0 == wanted {
            assert(members_view(all.take(i + 1)).remove(key@) =~= members_view(
                all.take(i),
            ).remove(key@));
        } else {
            proof {
                lemma_members_push(out@, m);
                assert(members_view(all.take(i + 1)).remove(key@) =~= members_view(
                    all.take(i),
                ).remove(key@).insert(m.0@, json_view(m.1)));
            }
            out.push(m);
        }
    }
    assert(all.take(all.len() as int) =~= all);
    out
}

impl Json {
    /// The member `key`, if this is an object that has it.
    pub fn get(&self, key: &str) -> (r: Option<&Json>)
        ensures
            r is Some == member_of(self@, key@) is Some,
            r matches Some(v) ==> member_of(self@, key@) == Some(v@),
    {
        match self {
            Json::Object(members) => match last_named(members, key) {
                Some(i) => Some(&members[i].1),
                None => None,
            },
            _ => None,
        }
    }

    /// A copy of the member `key`, or null.
    pub fn get_or_null(&self, key: &str) -> (r: Json)
        ensures
            r@ == (match member_of(self@, key@) {
                Some(v) => v,
                None => JsonView::Null,
            }),
    {
        match self.get(key) {
            Some(v) => v.duplicate(),
            None => Json::Null,
        }
    }

    /// The string, if this is one.
    pub fn as_str(&self) -> (r: Option<&String>)
        ensures
            r is Some == text_of(Some(self@)) is Some,
            r matches Some(s) ==> self@ == js(s@),
    {
        match self {
            Json::Str(s) => Some(s),
            _ => None,
        }
    }

    /// The number, if this is an integer that fits 64 bits without a sign.
    pub fn as_u64(&self) -> (r: Option<u64>)
        ensures
            r is Some == uint_of(Some(self@)) is Some,
            r matches Some(n) ==> self@ == JsonView::Int(n as int),
    {
        match self {
            Json::UInt(n) => Some(*n),
            Json::Int(n) => if *n >= 0 {
                Some(*n as u64)
            } else {
                None
            },
            _ => None,
        }
    }

    /// The truth value, if this is one.
    pub fn as_bool(&self) -> (r: Option<bool>)
        ensures
            r == bool_of(Some(self@)),
    {
        match self {
            Json::Bool(b) => Some(*b),
            _ => None,
        }
    }

    /// The items, if this is an array.
    pub fn as_array(&self) -> (r: Option<&Vec<Json>>)
        ensures
            r is Some == self@ is Array,
            r matches Some(v) ==> self@ == JsonView::Array(items_view(v@)),
    {
        match self {
            Json::Array(v) => Some(v),
            _ => None,
        }
    }

    /// The text of the member `key`, if it is a string.
    pub fn text_at(&self, key: &str) -> (r: Option<String>)
        ensures
            crate::text::opt_text(r) == text_of(member_of(self@, key@)),
    {
        match self.get(key) {
            Some(Json::Str(s)) => Some(s.clone()),
            _ => None,
        }
    }

    /// The text of the member `key` if it is a string, else `other`.
    pub fn text_or(&self, key: &str, other: &str) -> (r: String)
        ensures
            r@ == (match text_of(member_of(self@, key@)) {
                Some(s) => s,
                None => other@,
            }),
    {
        match self.text_at(key) {
            Some(s) => s,
            None => other.to_owned(),
        }
    }

    /// The member `key` as a number, or zero.
    pub fn uint_or_zero(&self, key: &str) -> (r: u64)
        ensures
            r == (match uint_of(member_of(self@, key@)) {
                Some(n) => n,
                None => 0,
            }),
    {
        match self.get(key) {
            Some(v) => match v.as_u64() {
                Some(n) => n,
                None => 0,
            },
            None => 0,
        }
    }

    /// Reads a value from bytes of JSON text.
    pub fn parse_bytes(bytes: &[u8]) -> (r: Option<Json>)
        ensures
            r is Some == parsed_json(bytes@) is Some,
            r matches Some(j) ==> parsed_json(bytes@) == Some(j@),
    {
        match parse_value(bytes) {
            Some(v) => Some(json_of_value(v)),
            None => None,
        }
    }

    /// Reads a value from JSON text.
    pub fn parse(text: &str) -> (r: Option<Json>)
        ensures
            r is Some == parsed_json(vstd::utf8::encode_utf8(text@)) is Some,
            r matches Some(j) ==> parsed_json(vstd::utf8::encode_utf8(text@)) == Some(j@),
    {
        Json::parse_bytes(text.as_bytes())
    }

    /// The compact text of this value.
    pub fn to_text(&self) -> (r: String)
        ensures
            r@ == compact_text(self@),
            on_one_line(r@),
            flat_object(self@) ==> parsed_json(vstd::utf8::encode_utf8(r@)) == Some(self@),
    {
        print_value(&value_of_json(self))
    }

    /// The indented text of this value.
    pub fn to_pretty_text(&self) -> (r: String)
        ensures
            r@ == pretty_text(self@),
    {
        print_value_pretty(&value_of_json(self))
    }
}

// ---------------------------------------------------------------------------
// Conversion
// ---------------------------------------------------------------------------

fn json_of_value(v: serde_json::Value) -> (r: Json)
    ensures
        r@ == value_view(v),
    decreases value_view(v),
{
    let ghost whole = value_view(v);
    match open_value(v) {
        Parts::Null => Json::Null,
        Parts::Bool(b) => Json::Bool(b),
        Parts::UInt(n) => Json::UInt(n),
        Parts::Int(n) => Json::Int(n),
        Parts::Decimal(n) => Json::Decimal(Decimal { number: n }),
        Parts::Str(s) => Json::Str(s),
        Parts::Array(items) => {
            let mut out: Vec<Json> = Vec::new();
            let ghost all = items@;
            assert(items_view(out@) =~= value_items(all).take(0));
            for x in it: items.into_iter()
                invariant
                    it.seq() == all,
                    whole == value_view(v),
                    whole == JsonView::Array(value_items(all)),
                    items_view(out@) == value_items(all).take(it.index() as int),
            {
                let ghost i = it.index() as int;
                assert(decreases_to!(whole => whole->Array_0));
                assert(decreases_to!(whole->Array_0 => whole->Array_0[i]));
                let j = json_of_value(x);
                proof {
                    lemma_items_push(out@, j);
                    assert(value_items(all).take(i + 1) =~= value_items(all).take(i).push(
                        value_items(all)[i],
                    ));
                }
                out.push(j);
            }
            assert(value_items(all).take(all.len() as int) =~= value_items(all));
            Json::Array(out)
        },
        Parts::Object(members) => {
            let mut out: Vec<(String, Json)> = Vec::new();
            let ghost all = members@;
            assert(all.take(0) =~= Seq::empty());
            assert(members_view(out@) =~= value_members(all.take(0)));
            for x in it: members.into_iter()
                invariant
                    it.seq() == all,
                    names_once(all),
                    whole == value_view(v),
                    whole == JsonView::Object(value_members(all)),
                    members_view(out@) == value_members(all.take(it.index() as int)),
            {
                let ghost i = it.index() as int;
                proof {
                    lemma_value_member(all, i);
                    assert(decreases_to!(whole => whole->Object_0));
                    assert(decreases_to!(whole->Object_0 => whole->Object_0[all[i].0@]));
                }
                let (name, inner) = x;
                let m: (String, Json) = (name, json_of_value(inner));
                proof {
                    lemma_members_push(out@, m);
                    lemma_one_more_value(all, i);
                }
                out.push(m);
            }
            assert(all.take(all.len() as int) =~= all);
            Json::Object(out)
        },
    }
}

/// The place of the member `name`.
fn find_value(v: &Vec<(String, serde_json::Value)>, name: &String) -> (r: Option<usize>)
    requires
        names_once(v@),
    ensures
        r is Some == crate::names::has_name(value_pairs(v@), name@),
        r matches Some(i) ==> i < v@.len() && i == crate::names::place_of(
            value_pairs(v@),
            name@,
        ),
{
    let n: usize = v.len();
    let mut i: usize = 0;
    while i < n
        invariant
            n == v@.len(),
            names_once(v@),
            i <= n,
            forall|k: int| 0 <= k < i ==> (#[trigger] v@[k]).0@ != name@,
        decreases n - i,
    {
        if v[i].0 == *name {
            proof {
                crate::names::lemma_place(value_pairs(v@), i as int);
            }
            return Some(i);
        }
        i = i + 1;
    }
    proof {
        assert forall|k: int| !crate::names::named_at(value_pairs(v@), name@, k) by {}
    }
    None
}

fn value_of_json(j: &Json) -> (r: serde_json::Value)
    ensures
        value_view(r) == j@,
    decreases *j,
{
    let p = match j {
        Json::Null => Parts::Null,
        Json::Bool(b) => Parts::Bool(*b),
        Json::UInt(n) => Parts::UInt(*n),
        Json::Int(n) => Parts::Int(*n),
        Json::Decimal(d) => {
            proof {
                use_type_invariant(d);
            }
            Parts::Decimal(copy_number(&d.number))
        },
        Json::Str(s) => Parts::Str(s.clone()),
        Json::Array(items) => {
            let mut out: Vec<serde_json::Value> = Vec::new();
            let mut i: usize = 0;
            while i < items.len()
                invariant
                    *j == Json::Array(*items),
                    i <= items@.len(),
                    out@.len() == i,
                    forall|k: int| 0 <= k < i ==> value_view(#[trigger] out@[k]) == json_view(
                        items@[k],
                    ),
                decreases items@.len() - i,
            {
                proof {
                    lemma_item_smaller(*j, i as int);
                }
                out.push(value_of_json(&items[i]));
                i = i + 1;
            }
            proof {
                lemma_items(items@);
                assert(value_items(out@) =~= items_view(items@));
            }
            Parts::Array(out)
        },
        Json::Object(members) => {
            let mut out: Vec<(String, serde_json::Value)> = Vec::new();
            let mut i: usize = 0;
            assert(members@.take(0) =~= Seq::empty());
            assert(value_members(out@) =~= members_view(members@.take(0)));
            while i < members.len()
                invariant
                    *j == Json::Object(*members),
                    i <= members@.len(),
                    names_once(out@),
                    value_members(out@) == members_view(members@.take(i as int)),
                decreases members@.len() - i,
            {
                let ghost before = value_pairs(out@);
                proof {
                    lemma_member_smaller(*j, i as int);
                }
                let v = value_of_json(&members[i].1);
                let ghost bound_value = value_view(v);
                let name: &String = &members[i].0;
                let at = find_value(&out, name);
                let m: (String, serde_json::Value) = (name.clone(), v);
                match at {
                    Some(k) => {
                        out.set(k, m);
                    },
                    None => {
                        out.push(m);
                    },
                }
                proof {
                    crate::names::lemma_bound(before, name@, bound_value);
                    assert(value_pairs(out@) =~= crate::names::bound(
                        before,
                        name@,
                        bound_value,
                    ));
                    assert(members@.take(i + 1).drop_last() =~= members@.take(i as int));
                }
                i = i + 1;
            }
            assert(members@.take(members@.len() as int) =~= members@);
            Parts::Object(out)
        },
    };
    close_value(p)
}

// ---------------------------------------------------------------------------
// Copying and equality
// ---------------------------------------------------------------------------

fn copy_json(j: &Json) -> (r: Json)
    ensures
        r@ == j@,
    decreases *j,
{
    match j {
        Json::Null => Json::Null,
        Json::Bool(b) => Json::Bool(*b),
        Json::UInt(n) => Json::UInt(*n),
        Json::Int(n) => Json::Int(*n),
        Json::Decimal(d) => {
            proof {
                use_type_invariant(d);
            }
            Json::Decimal(Decimal { number: copy_number(&d.number) })
        },
        Json::Str(s) => Json::Str(s.clone()),
        Json::Array(items) => {
            let mut out: Vec<Json> = Vec::new();
            let mut i: usize = 0;
            while i < items.len()
                invariant
                    *j == Json::Array(*items),
                    i <= items@.len(),
                    out@.len() == i,
                    forall|k: int| 0 <= k < i ==> json_view(#[trigger] out@[k]) == json_view(
                        items@[k],
                    ),
                decreases items@.len() - i,
            {
                proof {
                    lemma_item_smaller(*j, i as int);
                }
                out.push(copy_json(&items[i]));
                i = i + 1;
            }
            proof {
                lemma_items(items@);
                lemma_items(out@);
                assert(items_view(out@) =~= items_view(items@));
            }
            Json::Array(out)
        },
        Json::Object(members) => {
            let mut out: Vec<(String, Json)> = Vec::new();
            let mut i: usize = 0;
            assert(members@.take(0) =~= Seq::empty());
            while i < members.len()
                invariant
                    *j == Json::Object(*members),
                    i <= members@.len(),
                    members_view(out@) == members_view(members@.take(i as int)),
                decreases members@.len() - i,
            {
                proof {
                    lemma_member_smaller(*j, i as int);
                }
                let m: (String, Json) = (members[i].0.clone(), copy_json(&members[i].1));
                proof {
                    lemma_members_push(out@, m);
                    assert(members@.take(i + 1).drop_last() =~= members@.take(i as int));
                }
                out.push(m);
                i = i + 1;
            }
            assert(members@.take(members@.len() as int) =~= members@);
            Json::Object(out)
        },
    }
}

fn same_json(a: &Json, b: &Json) -> (r: bool)
    ensures
        r == (a@ == b@),
    decreases *a,
{
    match (a, b) {
        (Json::Null, Json::Null) => true,
        (Json::Bool(x), Json::Bool(y)) => *x == *y,
        (Json::UInt(x), Json::UInt(y)) => *x == *y,
        (Json::UInt(x), Json::Int(y)) => *y >= 0 && *x == *y as u64,
        (Json::Int(x), Json::UInt(y)) => *x >= 0 && *x as u64 == *y,
        (Json::Int(x), Json::Int(y)) => *x == *y,
        (Json::Decimal(x), Json::Decimal(y)) => number_string(&x.number) == number_string(&y.number),
        (Json::Str(x), Json::Str(y)) => *x == *y,
        (Json::Array(x), Json::Array(y)) => {
            proof {
                lemma_items(x@);
                lemma_items(y@);
            }
            if x.len() != y.len() {
                return false;
            }
            let mut i: usize = 0;
            while i < x.len()
                invariant
                    *a == Json::Array(*x),
                    *b == Json::Array(*y),
                    x@.len() == y@.len(),
                    i <= x@.len(),
                    forall|k: int| 0 <= k < i ==> json_view(#[trigger] x@[k]) == json_view(y@[k]),
                decreases x@.len() - i,
            {
                proof {
                    lemma_item_smaller(*a, i as int);
                }
                if !same_json(&x[i], &y[i]) {
                    proof {
                        lemma_items(x@);
                        lemma_items(y@);
                        assert(items_view(x@)[i as int] != items_view(y@)[i as int]);
                    }
                    return false;
                }
                i = i + 1;
            }
            proof {
                lemma_items(x@);
                lemma_items(y@);
                assert(items_view(x@) =~= items_view(y@));
            }
            true
        },
        (Json::Object(x), Json::Object(y)) => {
            let mut i: usize = 0;
            while i < x.len()
                invariant
                    *a == Json::Object(*x),
                    *b == Json::Object(*y),
                    i <= x@.len(),
                    forall|k: int|
                        0 <= k < i ==> members_view(y@).dom().contains(#[trigger] x@[k].0@)
                            && members_view(x@)[x@[k].0@] == members_view(y@)[x@[k].0@],
                decreases x@.len() - i,
            {
                let key: &str = x[i].0.as_str();
                let p = last_named(x, key);
                let q = last_named(y, key);
                proof {
                    lemma_occurs(x@, i as int);
                }
                match (p, q) {
                    (Some(p), Some(q)) => {
                        proof {
                            lemma_member_smaller(*a, p as int);
                        }
                        if !same_json(&x[p].1, &y[q].1) {
                            return false;
                        }
                    },
                    _ => {
                        return false;
                    },
                }
                i = i + 1;
            }
            let mut i: usize = 0;
            while i < y.len()
                invariant
                    *a == Json::Object(*x),
                    *b == Json::Object(*y),
                    i <= y@.len(),
                    forall|k: int|
                        0 <= k < i ==> members_view(x@).dom().contains(#[trigger] y@[k].0@),
                decreases y@.len() - i,
            {
                if last_named(x, y[i].0.as_str()).is_none() {
                    proof {
                        lemma_occurs(y@, i as int);
                    }
                    return false;
                }
                i = i + 1;
            }
            proof {
                assert forall|key: Seq<char>|
                    members_view(x@).dom().contains(key) == members_view(y@).dom().contains(
                        key,
                    ) by {
                    lemma_member(x@, key);
                    lemma_member(y@, key);
                }
                assert forall|key: Seq<char>|
                    members_view(x@).dom().contains(key) implies members_view(x@)[key]
                    == members_view(y@)[key] by {
                    lemma_member(x@, key);
                }
                assert(members_view(x@) =~= members_view(y@));
            }
            true
        },
        _ => false,
    }
}

pub proof fn lemma_occurs(s: Seq<(String, Json)>, i: int)
    requires
        0 <= i < s.len(),
    ensures
        members_view(s).dom().contains(s[i].0@),
    decreases s.len(),
{
    if i < s.len() - 1 {
        lemma_occurs(s.drop_last(), i);
    }
}

/// The place of the last member named `key`.
pub proof fn lemma_last(s: Seq<(String, Json)>, key: Seq<char>) -> (p: int)
    requires
        members_view(s).dom().contains(key),
    ensures
        0 <= p < s.len(),
        s[p].0@ == key,
        forall|q: int| p < q < s.len() ==> s[q].0@ != key,
        members_view(s)[key] == json_view(s[p].1),
    decreases s.len(),
{
    if s.last().0@ == key {
        s.len() - 1
    } else {
        let p = lemma_last(s.drop_last(), key);
        assert forall|q: int| p < q < s.len() implies s[q].0@ != key by {
            if q < s.len() - 1 {
                assert(s.drop_last()[q] == s[q]);
            }
        }
        p
    }
}

impl Duplicate for Json {
    fn duplicate(&self) -> (r: Self) {
        copy_json(self)
    }
}

impl SameView for Json {
    fn same(&self, other: &Self) -> (r: bool) {
        same_json(self, other)
    }
}

/// A number is taken as an unsigned one if and only if it is a whole number that
/// fits.
pub proof fn whole_numbers_that_fit_are_taken(n: int, m: Map<Seq<char>, JsonView>, key: Seq<char>)
    ensures
        uint_of(Some(JsonView::Int(n))) == (if 0 <= n <= u64::MAX {
            Some(n)
        } else {
            None
        }),
        uint_of(None) is None,
        !m.dom().contains(key) ==> member_of(JsonView::Object(m), key) is None,
        m.dom().contains(key) ==> member_of(JsonView::Object(m), key) == Some(m[key]),
        m.dom().contains(key) && !(m[key] is Int) ==> uint_of(
            member_of(JsonView::Object(m), key),
        ) is None,
{
}

} // verus!
