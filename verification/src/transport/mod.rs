//! What the transports share: header names and the codec of the overrides
//! header.
use vstd::prelude::*;

use crate::expand::Texts;
use crate::json::{parse_texts, print_texts};
use crate::names::NameMap;

pub mod bridge;
pub mod content_types;
pub mod headers;
pub mod http;
pub mod stdio;

verus! {

/// What the standard base64 engine of the `base64` crate writes for bytes.
pub uninterp spec fn base64_text(bytes: Seq<u8>) -> Seq<char>;

/// What the standard base64 engine of the `base64` crate reads from a text.
pub uninterp spec fn base64_bytes(text: Seq<char>) -> Option<Seq<u8>>;

/// `encode` of `base64::engine::general_purpose::STANDARD`: the bytes in
/// base64, from which `decode` of the same engine reads the bytes back.
#[verifier::external_body]
fn base64_encode(bytes: &[u8]) -> (r: String)
    ensures
        r@ == base64_text(bytes@),
        base64_bytes(r@) == Some(bytes@),
{
    base64::Engine::encode(&base64::engine::general_purpose::STANDARD, bytes)
}

/// `decode` of `base64::engine::general_purpose::STANDARD`: whether the text is
/// base64, and of which bytes.
#[verifier::external_body]
fn base64_decode(text: &str) -> (r: Option<Vec<u8>>)
    ensures
        r is Some == base64_bytes(text@) is Some,
        r matches Some(b) ==> base64_bytes(text@) == Some(b@),
{
    base64::Engine::decode(&base64::engine::general_purpose::STANDARD, text).ok()
}

/// The header for the given overrides: their JSON text in base64.
pub open spec fn env_header(env: Texts) -> Seq<char> {
    base64_text(vstd::utf8::encode_utf8(crate::json::texts_json(env)))
}

/// The overrides that a header stands for: none unless it is base64 of a JSON
/// object of strings.
pub open spec fn header_env(raw: Seq<char>) -> Texts {
    match base64_bytes(raw) {
        Some(bytes) => match crate::json::parsed_texts(bytes) {
            Some(env) => env,
            None => Map::empty(),
        },
        None => Map::empty(),
    }
}

/// The names and values of the overrides.
fn pairs_of(env: &NameMap<String>) -> (r: Vec<(String, String)>)
    ensures
        crate::json::text_pairs(r@) == env.pairs(),
        crate::names::distinct_names(env.pairs()),
{
    let ghost pairs = env.pairs();
    let n: usize = env.len();
    let mut out: Vec<(String, String)> = Vec::new();
    let mut i: usize = 0;
    while i < n
        invariant
            pairs == env.pairs(),
            n == pairs.len(),
            i <= n,
            out@.len() == i,
            forall|k: int| 0 <= k < i ==> (out@[k].0@, out@[k].1@) == #[trigger] pairs[k],
        decreases n - i,
    {
        out.push((env.name_at(i).clone(), env.value_at(i).clone()));
        i = i + 1;
    }
    assert(crate::json::text_pairs(out@) =~= pairs);
    out
}

/// Encodes overrides as a header; none if there are none. Decoding the header
/// gives the overrides back.
pub fn encode_env_header(env: &NameMap<String>) -> (r: Option<String>)
    ensures
        r is None == (env@ == Map::<Seq<char>, Seq<char>>::empty()),
        r matches Some(h) ==> h@ == env_header(env@) && header_env(h@) == env@,
{
    if env.is_empty() {
        return None;
    }
    let text = print_texts(pairs_of(env));
    Some(base64_encode(text.as_str().as_bytes()))
}

/// Decodes a header to overrides; none if it cannot be decoded.
pub fn decode_env_header(raw: &str) -> (r: NameMap<String>)
    ensures
        r@ == header_env(raw@),
{
    let mut out: NameMap<String> = NameMap::new();
    let bytes: Vec<u8> = match base64_decode(raw) {
        Some(b) => b,
        None => {
            return out;
        },
    };
    let pairs: Vec<(String, String)> = match parse_texts(bytes.as_slice()) {
        Some(v) => v,
        None => {
            return out;
        },
    };
    let ghost all = crate::json::text_pairs(pairs@);
    let mut i: usize = 0;
    while i < pairs.len()
        invariant
            all == crate::json::text_pairs(pairs@),
            crate::names::distinct_names(all),
            i <= pairs@.len(),
            out.pairs() == all.take(i as int),
        decreases pairs@.len() - i,
    {
        proof {
            let so_far = all.take(i as int);
            assert(!crate::names::has_name(so_far, all[i as int].0)) by {
                if crate::names::has_name(so_far, all[i as int].0) {
                    let p = crate::names::place_of(so_far, all[i as int].0);
                    assert(all[p].0 == all[i as int].0);
                }
            }
            assert(all.take(i + 1) =~= so_far.push(all[i as int]));
        }
        out.insert(pairs[i].0.clone(), pairs[i].1.clone());
        i = i + 1;
    }
    assert(all.take(all.len() as int) =~= all);
    out
}

} // verus!
