//! The key under which a resolution is cached: a digest of the manifest's
//! dependency entries that does not depend on their order or on the
//! project's name.

use vstd::prelude::*;
use vstd::string::StringSliceAdditionalSpecFns;
use vstd::utf8::encode_utf8;
use crate::install::integrity::{sha256, sha256_digest};
use crate::order::{
    lemma_pick_sorted_texts, lemma_sorted_texts_ignore_order, order_by_text, pick, sorted_texts,
    stable_order_by_text,
};
use crate::text::{
    hex_encode, spec_hex, str_chars, str_to_string, string_append, string_from_chars, string_push,
    trim_end_char, trim_end_char_chars, vecs_view,
};

verus! {

/// A dependency of the manifest as the key sees it.
#[derive(Debug, Clone)]
pub struct DepEntry {
    /// The manifest section (`dependencies`, `devDependencies`, …).
    pub group: String,
    pub name: String,
    pub range: String,
    pub dev: bool,
    pub optional: bool,
    pub peer: bool,
}

pub open spec fn bool_text(b: bool) -> Seq<char> {
    if b {
        "true"@
    } else {
        "false"@
    }
}

/// One entry's text: its fields joined with NUL characters.
pub open spec fn entry_text(e: DepEntry) -> Seq<char> {
    e.group@ + seq!['\0'] + e.name@ + seq!['\0'] + e.range@ + seq!['\0'] + bool_text(e.dev) + seq![
        '\0',
    ] + bool_text(e.optional) + seq!['\0'] + bool_text(e.peer)
}

pub open spec fn entry_texts(es: Seq<DepEntry>) -> Seq<Seq<char>> {
    es.map_values(|e: DepEntry| entry_text(e))
}

/// Each entry text followed by a NUL character.
pub open spec fn joined_entries(texts: Seq<Seq<char>>) -> Seq<char>
    decreases texts.len(),
{
    if texts.len() == 0 {
        Seq::empty()
    } else {
        joined_entries(texts.drop_last()) + texts.last() + seq!['\0']
    }
}

/// The hashed text: a version tag, the registry URL without trailing
/// slashes, and the sorted entry texts.
pub open spec fn key_text(sorted: Seq<Seq<char>>, registry_url: Seq<char>) -> Seq<char> {
    "magicore-web-resolution-v1"@ + seq!['\0'] + trim_end_char(registry_url, '/') + seq!['\0']
        + joined_entries(sorted)
}

fn push_bool(s: &mut String, b: bool)
    ensures
        final(s)@ == old(s)@ + bool_text(b),
{
    if b {
        string_append(s, "true");
    } else {
        string_append(s, "false");
    }
}

fn entry_text_of(e: &DepEntry) -> (r: Vec<char>)
    ensures
        r@ == entry_text(*e),
{
    let mut s = str_to_string(e.group.as_str());
    string_push(&mut s, '\0');
    string_append(&mut s, e.name.as_str());
    string_push(&mut s, '\0');
    string_append(&mut s, e.range.as_str());
    string_push(&mut s, '\0');
    push_bool(&mut s, e.dev);
    string_push(&mut s, '\0');
    push_bool(&mut s, e.optional);
    string_push(&mut s, '\0');
    push_bool(&mut s, e.peer);
    str_chars(s.as_str())
}

/// The cache key of the entries under a registry: lowercase hex SHA-256 of
/// [`key_text`] over the entry texts in ascending order.
pub open spec fn resolution_key(entries: Seq<DepEntry>, registry_url: Seq<char>) -> Seq<char> {
    spec_hex(sha256_digest(encode_utf8(key_text(sorted_texts(entry_texts(entries)), registry_url))))
}

/// The cache key does not depend on the order in which the manifest lists
/// its dependencies: two entry lists that hold the same entries (by their
/// text), each as often, get the same key.
pub proof fn law_cache_key_ignores_order(
    es1: Seq<DepEntry>,
    es2: Seq<DepEntry>,
    registry_url: Seq<char>,
)
    requires
        entry_texts(es1).to_multiset() == entry_texts(es2).to_multiset(),
    ensures
        resolution_key(es1, registry_url) == resolution_key(es2, registry_url),
{
    lemma_sorted_texts_ignore_order(entry_texts(es1), entry_texts(es2));
}

/// The cache key: lowercase hex SHA-256 of [`key_text`] over the entry
/// texts in sorted order.
pub fn manifest_resolution_cache_key(entries: &Vec<DepEntry>, registry_url: &str) -> (r: String)
    ensures
        r@ == resolution_key(entries@, registry_url@),
{
    let ghost ts = entry_texts(entries@);
    let mut texts: Vec<Vec<char>> = Vec::new();
    let mut i: usize = 0;
    while i < entries.len()
        invariant
            i <= entries.len(),
            ts == entry_texts(entries@),
            vecs_view(texts@) == ts.take(i as int),
        decreases entries.len() - i,
    {
        let t = entry_text_of(&entries[i]);
        let ghost before = texts@;
        texts.push(t);
        proof {
            assert(vecs_view(texts@) =~= vecs_view(before).push(t@));
            assert(ts.take(i + 1) =~= ts.take(i as int).push(ts[i as int]));
        }
        i = i + 1;
    }
    proof {
        assert(ts.take(entries.len() as int) =~= ts);
    }
    let order = order_by_text(&texts);
    let mut text = str_to_string("magicore-web-resolution-v1");
    string_push(&mut text, '\0');
    let reg = trim_end_char_chars(&str_chars(registry_url), '/');
    let regs = string_from_chars(&reg);
    string_append(&mut text, regs.as_str());
    string_push(&mut text, '\0');
    let ghost head = text@;
    let ghost sorted = pick(ts, order@);
    let mut j: usize = 0;
    while j < order.len()
        invariant
            j <= order.len(),
            order.len() == texts.len(),
            ts == entry_texts(entries@),
            vecs_view(texts@) == ts,
            stable_order_by_text(order@, ts),
            sorted == pick(ts, order@),
            text@ == head + joined_entries(sorted.take(j as int)),
        decreases order.len() - j,
    {
        let k = order[j];
        let piece = string_from_chars(&texts[k]);
        string_append(&mut text, piece.as_str());
        string_push(&mut text, '\0');
        proof {
            assert(sorted.take(j + 1).drop_last() =~= sorted.take(j as int));
            assert(sorted.take(j + 1).last() == ts[k as int]);
        }
        j = j + 1;
    }
    proof {
        assert(sorted.take(order.len() as int) =~= sorted);
        assert(text@ =~= key_text(sorted, registry_url@));
        lemma_pick_sorted_texts(ts, order@);
    }
    let digest = sha256(text.as_str().as_bytes());
    hex_encode(digest.as_slice())
}

} // verus!
