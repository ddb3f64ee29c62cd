//! Dependency specs as the adapter reads them before resolution: registry
//! dist-tags, exact-version ranges, and the dist data a resolved version
//! takes from its registry document.

use vstd::prelude::*;
use crate::native::npm_registry::{PackageMetadata, VersionInfo, lookup_entry, spec_lookup};
use crate::text::{
    chars_eq, chars_starts_with, find_char, find_char_index, starts_with, str_chars, str_to_string,
    string_from_chars, sub_chars, trim, trim_chars,
};
use crate::install::bin::{contains_text, text_contains};
use crate::audit::join_comma;
use crate::order::{lemma_pick_sorted_texts, order_by_text, pick, sorted_texts};
use crate::provider::{
    AgePolicy, check_pinned_version_at, result_view, spec_check_pinned,
};
use crate::text::{string_append, vecs_view};

verus! {

pub open spec fn is_ascii_alpha(c: char) -> bool {
    ('a' <= c && c <= 'z') || ('A' <= c && c <= 'Z')
}

/// A dist-tag (`latest`, `next`, `beta`, …): a non-empty word of ASCII
/// letters once trimmed. Anything with a digit or an operator is a range.
pub open spec fn spec_is_dist_tag(spec: Seq<char>) -> bool {
    let s = trim(spec);
    s.len() > 0 && s != "*"@ && forall|i: int| 0 <= i < s.len() ==> #[trigger] is_ascii_alpha(s[i])
}

pub fn is_dist_tag_spec(spec: &str) -> (r: bool)
    ensures
        r == spec_is_dist_tag(spec@),
{
    let s = trim_chars(&str_chars(spec));
    if s.len() == 0 || chars_eq(&s, &str_chars("*")) {
        return false;
    }
    let mut i: usize = 0;
    while i < s.len()
        invariant
            i <= s.len(),
            s@ == trim(spec@),
            s@.len() > 0,
            s@ != "*"@,
            forall|k: int| 0 <= k < i ==> #[trigger] is_ascii_alpha(s@[k]),
        decreases s.len() - i,
    {
        let c = s[i];
        if !(('a' <= c && c <= 'z') || ('A' <= c && c <= 'Z')) {
            proof {
                assert(!is_ascii_alpha(s@[i as int]));
            }
            return false;
        }
        i = i + 1;
    }
    true
}

/// The text of a range that may denote one exact version: the trimmed
/// range without a leading `=`, trimmed again; none when empty, led by an
/// operator (`^`, `~`, `>`, `<`) or holding alternatives (`||`). Whether it
/// parses as a version the range accepts is decided by the caller.
pub open spec fn spec_exact_version_candidate(range: Seq<char>) -> Option<Seq<char>> {
    let raw = trim(range);
    let stripped = if starts_with(raw, "="@) {
        raw.skip(1)
    } else {
        raw
    };
    let exact = trim(stripped);
    if exact.len() == 0 || exact[0] == '^' || exact[0] == '~' || exact[0] == '>' || exact[0] == '<'
        || contains_text(exact, "||"@) {
        None
    } else {
        Some(exact)
    }
}

pub fn exact_version_candidate(range: &str) -> (r: Option<String>)
    ensures
        match r {
            Some(s) => spec_exact_version_candidate(range@) == Some(s@),
            None => spec_exact_version_candidate(range@).is_none(),
        },
{
    let raw = trim_chars(&str_chars(range));
    let stripped = if raw.len() > 0 && raw[0] == '=' {
        sub_chars(&raw, 1, raw.len())
    } else {
        raw.clone()
    };
    proof {
        reveal_strlit("=");
        if raw@.len() > 0 && raw@[0] == '=' {
            assert(raw@.take(1) =~= "="@);
            assert(starts_with(raw@, "="@));
        } else {
            if raw@.len() > 0 {
                assert(raw@.take(1)[0] != "="@[0]);
            }
            assert(!starts_with(raw@, "="@));
        }
    }
    let exact = trim_chars(&stripped);
    if exact.len() == 0 {
        return None;
    }
    let c = exact[0];
    if c == '^' || c == '~' || c == '>' || c == '<' {
        return None;
    }
    if text_contains(&exact, &str_chars("||")) {
        return None;
    }
    Some(string_from_chars(&exact))
}

/// The tarball URL and integrity of a resolved version from its registry
/// document: the version's dist entry when there is one (integrity empty
/// when unrecorded), else no URL and the resolver's own integrity.
pub open spec fn spec_resolved_dist(
    meta: Option<PackageMetadata>,
    version: Seq<char>,
    fallback_integrity: Seq<char>,
) -> (Seq<char>, Seq<char>) {
    match meta {
        Some(m) => match spec_lookup(m.versions@, version) {
            Some(v) => match v.dist {
                Some(d) => (
                    d.tarball@,
                    match d.integrity {
                        Some(i) => i@,
                        None => Seq::empty(),
                    },
                ),
                None => (Seq::empty(), fallback_integrity),
            },
            None => (Seq::empty(), fallback_integrity),
        },
        None => (Seq::empty(), fallback_integrity),
    }
}

pub fn resolved_dist(meta: Option<&PackageMetadata>, version: &str, fallback_integrity: &str) -> (r: (
    String,
    String,
))
    ensures
        (r.0@, r.1@) == spec_resolved_dist(
            match meta {
                Some(m) => Some(*m),
                None => None,
            },
            version@,
            fallback_integrity@,
        ),
{
    let empty = Vec::new();
    match meta {
        Some(m) => match lookup_entry(&m.versions, version) {
            Some(v) => match &v.dist {
                Some(d) => {
                    let integrity = match &d.integrity {
                        Some(i) => str_to_string(i.as_str()),
                        None => string_from_chars(&empty),
                    };
                    (str_to_string(d.tarball.as_str()), integrity)
                },
                None => (string_from_chars(&empty), str_to_string(fallback_integrity)),
            },
            None => (string_from_chars(&empty), str_to_string(fallback_integrity)),
        },
        None => (string_from_chars(&empty), str_to_string(fallback_integrity)),
    }
}

/// The names of the dist-tags, in document order.
pub open spec fn tag_names(tags: Seq<(String, String)>) -> Seq<Seq<char>> {
    tags.map_values(|t: (String, String)| t.0@)
}

/// At most the first ten of a list.
pub open spec fn first_ten(items: Seq<Seq<char>>) -> Seq<Seq<char>> {
    if items.len() > 10 {
        items.take(10)
    } else {
        items
    }
}

/// The refusal of an unknown dist-tag, naming up to ten known tags in
/// ascending order.
pub open spec fn unknown_tag_message(range: Seq<char>, name: Seq<char>, meta: PackageMetadata) -> Seq<
    char,
> {
    "unknown dist-tag '"@ + range + "' for '"@ + name + "' (known tags: "@ + join_comma(
        first_ten(sorted_texts(tag_names(meta.dist_tags@))),
    ) + ")"@
}

/// A dist-tag spec pinned through the package document at `now`: the
/// tagged version when the tag (trimmed) is known and the version passes
/// the age policy; the age refusal; or the unknown-tag refusal.
pub open spec fn spec_pin_dist_tag(
    name: Seq<char>,
    range: Seq<char>,
    meta: PackageMetadata,
    policy: Option<AgePolicy>,
    now: u64,
) -> Result<Seq<char>, Seq<char>> {
    match spec_lookup(meta.dist_tags@, trim(range)) {
        Some(pinned) => match spec_check_pinned(name, meta, pinned@, policy, now) {
            Ok(()) => Ok(pinned@),
            Err(e) => Err(e),
        },
        None => Err(unknown_tag_message(range, name, meta)),
    }
}

pub open spec fn text_result_view(r: Result<String, String>) -> Result<Seq<char>, Seq<char>> {
    match r {
        Ok(s) => Ok(s@),
        Err(e) => Err(e@),
    }
}

fn join_comma_of(items: &Vec<Vec<char>>, n: usize) -> (r: String)
    requires
        n <= items.len(),
    ensures
        r@ == join_comma(vecs_view(items@).take(n as int)),
{
    let ghost iv = vecs_view(items@);
    let mut out = string_from_chars(&Vec::new());
    let mut i: usize = 0;
    proof {
        assert(iv.take(0) =~= Seq::<Seq<char>>::empty());
    }
    while i < n
        invariant
            i <= n,
            n <= items.len(),
            iv == vecs_view(items@),
            out@ == join_comma(iv.take(i as int)),
        decreases n - i,
    {
        proof {
            assert(iv.take(i + 1).drop_last() =~= iv.take(i as int));
            assert(iv.take(i + 1).last() == items@[i as int]@);
        }
        if i > 0 {
            string_append(&mut out, ", ");
        } else {
            proof {
                assert(iv.take(1) =~= seq![items@[0]@]);
            }
        }
        let piece = string_from_chars(&items[i]);
        string_append(&mut out, piece.as_str());
        proof {
            if i == 0 {
                assert(out@ =~= items@[0]@);
            }
        }
        i = i + 1;
    }
    out
}

/// The known tags of a document, as the unknown-tag refusal lists them.
fn known_tags_text(meta: &PackageMetadata) -> (r: String)
    ensures
        r@ == join_comma(first_ten(sorted_texts(tag_names(meta.dist_tags@)))),
{
    let ghost names = tag_names(meta.dist_tags@);
    let mut keys: Vec<Vec<char>> = Vec::new();
    let mut i: usize = 0;
    while i < meta.dist_tags.len()
        invariant
            i <= meta.dist_tags.len(),
            names == tag_names(meta.dist_tags@),
            vecs_view(keys@) == names.take(i as int),
        decreases meta.dist_tags.len() - i,
    {
        let k = str_chars(meta.dist_tags[i].0.as_str());
        let ghost before = keys@;
        keys.push(k);
        proof {
            assert(vecs_view(keys@) =~= vecs_view(before).push(k@));
            assert(names.take(i + 1) =~= names.take(i as int).push(names[i as int]));
        }
        i = i + 1;
    }
    proof {
        assert(names.take(meta.dist_tags.len() as int) =~= names);
    }
    let order = order_by_text(&keys);
    let mut sorted: Vec<Vec<char>> = Vec::new();
    let mut j: usize = 0;
    while j < order.len()
        invariant
            j <= order.len(),
            order.len() == keys.len(),
            crate::order::stable_order_by_text(order@, vecs_view(keys@)),
            vecs_view(sorted@) == pick(vecs_view(keys@), order@).take(j as int),
        decreases order.len() - j,
    {
        let k = order[j];
        let ghost before = sorted@;
        sorted.push(keys[k].clone());
        proof {
            assert(vecs_view(sorted@) =~= vecs_view(before).push(keys@[k as int]@));
            assert(pick(vecs_view(keys@), order@).take(j + 1) =~= pick(vecs_view(keys@), order@).take(
                j as int,
            ).push(vecs_view(keys@)[k as int]));
        }
        j = j + 1;
    }
    proof {
        assert(pick(vecs_view(keys@), order@).take(order.len() as int) =~= pick(
            vecs_view(keys@),
            order@,
        ));
        lemma_pick_sorted_texts(vecs_view(keys@), order@);
    }
    let n = if sorted.len() > 10 {
        10
    } else {
        sorted.len()
    };
    proof {
        assert(vecs_view(sorted@).take(n as int) =~= first_ten(vecs_view(sorted@)));
    }
    join_comma_of(&sorted, n)
}

/// Pins a dist-tag spec through the package document at `now` (see
/// [`spec_pin_dist_tag`]).
pub fn pin_dist_tag_at(
    name: &str,
    range: &str,
    meta: &PackageMetadata,
    policy: Option<AgePolicy>,
    now: u64,
) -> (r: Result<String, String>)
    ensures
        text_result_view(r) == spec_pin_dist_tag(name@, range@, *meta, policy, now),
{
    let tag = string_from_chars(&trim_chars(&str_chars(range)));
    match lookup_entry(&meta.dist_tags, tag.as_str()) {
        Some(pinned) => match check_pinned_version_at(name, meta, pinned.as_str(), policy, now) {
            Ok(()) => Ok(pinned.clone()),
            Err(e) => Err(e),
        },
        None => {
            let mut msg = str_to_string("unknown dist-tag '");
            string_append(&mut msg, range);
            string_append(&mut msg, "' for '");
            string_append(&mut msg, name);
            string_append(&mut msg, "' (known tags: ");
            let known = known_tags_text(meta);
            string_append(&mut msg, known.as_str());
            string_append(&mut msg, ")");
            Err(msg)
        },
    }
}

/// Pins a dist-tag spec against the clock (see [`pin_dist_tag_at`]).
pub fn pin_dist_tag(name: &str, range: &str, meta: &PackageMetadata, policy: Option<AgePolicy>) -> (r:
    Result<String, String>)
    ensures
        exists|now: u64| text_result_view(r) == spec_pin_dist_tag(name@, range@, *meta, policy, now),
{
    let now = crate::cache::current_unix_secs();
    pin_dist_tag_at(name, range, meta, policy, now)
}

/// How `add` chooses the range it saves.
#[derive(Debug, Clone)]
pub enum AddRange {
    /// Ask the registry for its preferred version, then save it (see
    /// [`saved_latest_range`]).
    FetchLatest,
    /// Save this range as given.
    Use { range: String },
}

/// A leading run of `c` removed.
pub open spec fn trim_start_char(s: Seq<char>, c: char) -> Seq<char>
    decreases s.len(),
{
    if s.len() > 0 && s[0] == c {
        trim_start_char(s.skip(1), c)
    } else {
        s
    }
}

pub open spec fn spec_add_range(explicit: Option<Seq<char>>, exact: bool) -> Option<Seq<char>> {
    match explicit {
        None => None,
        Some(raw) => if raw == "latest"@ || raw == "*"@ || raw.len() == 0 {
            None
        } else if exact {
            Some(trim_start_char(trim_start_char(raw, '^'), '~'))
        } else {
            Some(raw)
        },
    }
}

fn trim_start_char_of(s: &Vec<char>, c: char) -> (r: Vec<char>)
    ensures
        r@ == trim_start_char(s@, c),
{
    let mut i: usize = 0;
    proof {
        assert(s@.skip(0) =~= s@);
    }
    while i < s.len() && s[i] == c
        invariant
            i <= s.len(),
            trim_start_char(s@.skip(i as int), c) == trim_start_char(s@, c),
        decreases s.len() - i,
    {
        proof {
            assert(s@.skip(i as int).skip(1) =~= s@.skip(i + 1));
        }
        i = i + 1;
    }
    proof {
        if i == s.len() {
            assert(s@.skip(i as int) =~= Seq::<char>::empty());
        }
    }
    sub_chars(s, i, s.len())
}

/// The range `add` saves: with no range, `latest`, `*` or an empty range the
/// registry's version is fetched; otherwise the range given, with leading
/// `^` and then `~` removed when an exact pin is wanted. Whether the text
/// parses as a range is decided by the caller.
pub fn add_range_plan(explicit: Option<&str>, exact: bool) -> (r: AddRange)
    ensures
        match r {
            AddRange::FetchLatest => spec_add_range(
                match explicit {
                    Some(e) => Some(e@),
                    None => None,
                },
                exact,
            ).is_none(),
            AddRange::Use { range } => spec_add_range(
                match explicit {
                    Some(e) => Some(e@),
                    None => None,
                },
                exact,
            ) == Some(range@),
        },
{
    match explicit {
        None => AddRange::FetchLatest,
        Some(raw) => {
            let c = str_chars(raw);
            if chars_eq(&c, &str_chars("latest")) || chars_eq(&c, &str_chars("*")) || c.len() == 0 {
                return AddRange::FetchLatest;
            }
            if exact {
                let t = trim_start_char_of(&trim_start_char_of(&c, '^'), '~');
                AddRange::Use { range: string_from_chars(&t) }
            } else {
                AddRange::Use { range: str_to_string(raw) }
            }
        },
    }
}

/// The range saved for a fetched version: the version itself for an exact
/// pin, else `^version`.
pub fn saved_latest_range(latest: &str, exact: bool) -> (r: String)
    ensures
        r@ == if exact {
            latest@
        } else {
            "^"@ + latest@
        },
{
    if exact {
        str_to_string(latest)
    } else {
        let mut s = str_to_string("^");
        string_append(&mut s, latest);
        s
    }
}

} // verus!
