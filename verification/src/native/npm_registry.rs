//! npm registry model: package metadata shapes and the RFC 4648 base64
//! encoder used for `sha512-…` integrity strings.

use vstd::prelude::*;
use crate::text::{push_decimal, spec_decimal, str_to_string, string_append, string_from_chars};

verus! {

/// The RFC 4648 standard alphabet, indexed by a 6-bit value.
pub open spec fn base64_alphabet(i: int) -> char {
    if i < 26 {
        (65 + i) as char
    } else if i < 52 {
        (97 + (i - 26)) as char
    } else if i < 62 {
        (48 + (i - 52)) as char
    } else if i == 62 {
        '+'
    } else {
        '/'
    }
}

/// Standard base64 with `=` padding: every 3-byte group becomes 4 characters,
/// a trailing group of 1 or 2 bytes is padded to 4 characters.
pub open spec fn spec_base64_encode(bytes: Seq<u8>) -> Seq<char>
    decreases bytes.len(),
{
    if bytes.len() == 0 {
        Seq::empty()
    } else {
        let b0 = bytes[0] as int;
        let b1 = if bytes.len() > 1 { bytes[1] as int } else { 0 };
        let b2 = if bytes.len() > 2 { bytes[2] as int } else { 0 };
        let quad = seq![
            base64_alphabet(b0 / 4),
            base64_alphabet((b0 % 4) * 16 + b1 / 16),
            if bytes.len() > 1 { base64_alphabet((b1 % 16) * 4 + b2 / 64) } else { '=' },
            if bytes.len() > 2 { base64_alphabet(b2 % 64) } else { '=' },
        ];
        if bytes.len() <= 3 {
            quad
        } else {
            quad + spec_base64_encode(bytes.skip(3))
        }
    }
}

/// A character of the standard base64 output: a letter, a digit, `+`,
/// `/` or the padding `=`.
pub open spec fn is_base64_char(c: char) -> bool {
    ('A' <= c && c <= 'Z') || ('a' <= c && c <= 'z') || ('0' <= c && c <= '9') || c == '+' || c
        == '/' || c == '='
}

/// Base64 output only holds characters of the standard alphabet and the
/// padding `=`.
pub proof fn law_base64_alphabet(bytes: Seq<u8>)
    ensures
        forall|k: int|
            0 <= k < spec_base64_encode(bytes).len() ==> is_base64_char(
                #[trigger] spec_base64_encode(bytes)[k],
            ),
    decreases bytes.len(),
{
    if bytes.len() > 0 {
        assert forall|i: int| 0 <= i < 64 implies is_base64_char(#[trigger] base64_alphabet(i)) by {}
        let b0 = bytes[0] as int;
        let b1 = if bytes.len() > 1 { bytes[1] as int } else { 0 };
        let b2 = if bytes.len() > 2 { bytes[2] as int } else { 0 };
        assert(0 <= b0 / 4 < 64);
        assert(0 <= (b0 % 4) * 16 + b1 / 16 < 64);
        assert(0 <= (b1 % 16) * 4 + b2 / 64 < 64);
        assert(0 <= b2 % 64 < 64);
        let quad = seq![
            base64_alphabet(b0 / 4),
            base64_alphabet((b0 % 4) * 16 + b1 / 16),
            if bytes.len() > 1 { base64_alphabet((b1 % 16) * 4 + b2 / 64) } else { '=' },
            if bytes.len() > 2 { base64_alphabet(b2 % 64) } else { '=' },
        ];
        let enc = spec_base64_encode(bytes);
        assert forall|k: int| 0 <= k < 4 implies is_base64_char(#[trigger] quad[k]) by {}
        if bytes.len() > 3 {
            law_base64_alphabet(bytes.skip(3));
            let rest = spec_base64_encode(bytes.skip(3));
            assert(enc == quad + rest);
            assert forall|k: int| 0 <= k < enc.len() implies is_base64_char(#[trigger] enc[k]) by {
                if k < 4 {
                    assert(enc[k] == quad[k]);
                } else {
                    assert(enc[k] == rest[k - 4]);
                }
            }
        } else {
            assert(enc == quad);
        }
    }
}

/// Base64 output is four characters for every started group of three
/// bytes.
pub proof fn law_base64_length(bytes: Seq<u8>)
    ensures
        spec_base64_encode(bytes).len() == 4 * ((bytes.len() + 2) / 3),
    decreases bytes.len(),
{
    if bytes.len() > 3 {
        law_base64_length(bytes.skip(3));
    }
}

fn base64_char(i: u8) -> (c: char)
    requires
        i < 64,
    ensures
        c == base64_alphabet(i as int),
{
    if i < 26 {
        (65 + i) as char
    } else if i < 52 {
        (97 + (i - 26)) as char
    } else if i < 62 {
        (48 + (i - 52)) as char
    } else if i == 62 {
        '+'
    } else {
        '/'
    }
}

/// Encodes bytes as standard base64 with padding.
pub fn base64_encode(bytes: &[u8]) -> (out: String)
    ensures
        out@ == spec_base64_encode(bytes@),
{
    let n = bytes.len();
    let mut chars: Vec<char> = Vec::new();
    let mut i: usize = 0;
    proof {
        assert(bytes@.skip(0) == bytes@);
    }
    while i < n
        invariant
            n == bytes@.len(),
            i <= n,
            spec_base64_encode(bytes@) == chars@ + spec_base64_encode(bytes@.skip(i as int)),
        decreases n - i,
    {
        let rest = n - i;
        let b0 = bytes[i];
        let b1: u8 = if rest > 1 { bytes[i + 1] } else { 0 };
        let b2: u8 = if rest > 2 { bytes[i + 2] } else { 0 };
        let ghost old_chars = chars@;
        let ghost tail = bytes@.skip(i as int);
        chars.push(base64_char(b0 / 4));
        chars.push(base64_char((b0 % 4) * 16 + b1 / 16));
        if rest > 1 {
            chars.push(base64_char((b1 % 16) * 4 + b2 / 64));
        } else {
            chars.push('=');
        }
        if rest > 2 {
            chars.push(base64_char(b2 % 64));
        } else {
            chars.push('=');
        }
        proof {
            assert(tail[0] == b0);
            assert(rest > 1 ==> tail[1] == b1);
            assert(rest > 2 ==> tail[2] == b2);
            let quad = chars@.subrange(old_chars.len() as int, chars@.len() as int);
            assert(chars@ == old_chars + quad);
        }
        if rest <= 3 {
            proof {
                let ghost empty: Seq<u8> = Seq::empty();
                assert(bytes@.skip(n as int) == empty);
            }
            i = n;
        } else {
            proof {
                assert(tail.skip(3) == bytes@.skip(i + 3));
            }
            i = i + 3;
        }
    }
    proof {
        assert(bytes@.skip(n as int).len() == 0);
        assert(chars@ + Seq::<char>::empty() == chars@);
    }
    string_from_chars(&chars)
}

} // verus!

verus! {

/// The entry stored under `key` in an association list (first match).
pub open spec fn spec_lookup<V>(entries: Seq<(String, V)>, key: Seq<char>) -> Option<V>
    decreases entries.len(),
{
    if entries.len() == 0 {
        None
    } else if entries[0].0@ == key {
        Some(entries[0].1)
    } else {
        spec_lookup(entries.drop_first(), key)
    }
}

/// Association lists whose keys occur once each (the registry's JSON objects).
pub open spec fn keys_unique<V>(entries: Seq<(String, V)>) -> bool {
    forall|i: int, j: int|
        0 <= i < j < entries.len() ==> #[trigger] entries[i].0@ != #[trigger] entries[j].0@
}

/// Looks a key up in an association list.
pub fn lookup_entry<'a, V>(entries: &'a Vec<(String, V)>, key: &str) -> (r: Option<&'a V>)
    ensures
        match r {
            Some(v) => spec_lookup(entries@, key@) == Some(*v),
            None => spec_lookup(entries@, key@) is None,
        },
{
    let mut i: usize = 0;
    proof {
        assert(entries@.skip(0) == entries@);
    }
    while i < entries.len()
        invariant
            i <= entries.len(),
            spec_lookup(entries@, key@) == spec_lookup(entries@.skip(i as int), key@),
        decreases entries.len() - i,
    {
        proof {
            assert(entries@.skip(i as int)[0] == entries@[i as int]);
            assert(entries@.skip(i as int).drop_first() == entries@.skip(i + 1));
        }
        if crate::text::str_eq(entries[i].0.as_str(), key) {
            return Some(&entries[i].1);
        }
        i = i + 1;
    }
    None
}

/// Registry document of one package (an npm "packument").
#[derive(Debug, Clone)]
pub struct PackageMetadata {
    pub name: String,
    pub description: Option<String>,
    pub versions: Vec<(String, VersionInfo)>,
    pub dist_tags: Vec<(String, String)>,
    pub time: Vec<(String, String)>,
}

/// Manifest of one published version.
#[derive(Debug, Clone)]
pub struct VersionInfo {
    pub version: String,
    pub dependencies: Option<Vec<(String, String)>>,
    pub dev_dependencies: Option<Vec<(String, String)>>,
    pub peer_dependencies: Option<Vec<(String, String)>>,
    pub optional_dependencies: Option<Vec<(String, String)>>,
    pub os: Option<Vec<String>>,
    pub cpu: Option<Vec<String>>,
    pub dist: Option<DistInfo>,
}

/// Where a version's tarball lives and its SRI integrity.
#[derive(Debug, Clone)]
pub struct DistInfo {
    pub tarball: String,
    pub integrity: Option<String>,
}


/// Tarballs larger than this (2 MiB) are streamed to disk instead of being
/// buffered.
pub const LARGE_PKG_THRESHOLD_BYTES: u64 = 2097152;

/// A client of one npm registry.
pub struct NpmRegistry {
    registry_url: String,
}

impl NpmRegistry {
    pub fn new(registry_url: &str) -> (r: NpmRegistry)
        ensures
            r.spec_registry_url() == registry_url@,
    {
        NpmRegistry { registry_url: str_to_string(registry_url) }
    }

    pub closed spec fn spec_registry_url(&self) -> Seq<char> {
        self.registry_url@
    }

    pub fn registry_url(&self) -> (r: &str)
        ensures
            r@ == self.spec_registry_url(),
    {
        self.registry_url.as_str()
    }
}

/// A downloaded tarball: buffered bytes, or a file streamed to disk with
/// the SRI computed on the way and its length.
pub enum DownloadedTarball {
    Bytes(Vec<u8>),
    Streamed { computed_integrity: String, bytes_len: u64 },
}

/// The retry jitter for an attempt: the high bits of one step of a linear
/// congruential generator, reduced to 0..100 ms.
pub open spec fn spec_jitter_ms(attempt: u32) -> u64 {
    let state = vstd::wrapping::u64_specs::wrapping_add(
        vstd::wrapping::u64_specs::wrapping_mul(attempt as u64, 6364136223846793005u64),
        1442695040888963407u64,
    );
    (state >> 33u64) % 100
}

pub fn jitter_ms(attempt: u32) -> (r: u64)
    ensures
        r == spec_jitter_ms(attempt),
        r < 100,
{
    let state = (attempt as u64).wrapping_mul(6364136223846793005u64).wrapping_add(
        1442695040888963407u64,
    );
    (state >> 33u64) % 100
}

/// How many times a registry call is attempted before its last error is
/// returned.
pub const RETRY_ATTEMPTS: u32 = 4;

/// The base backoff before retry `attempt + 1`: 50 ms, doubling with each
/// attempt.
pub open spec fn backoff_base_ms(attempt: nat) -> nat
    decreases attempt,
{
    if attempt == 0 {
        50
    } else {
        2 * backoff_base_ms((attempt - 1) as nat)
    }
}

/// What follows attempt `attempt` (counted from 0) of a registry call.
#[derive(Debug, Clone, Copy, PartialEq, Eq, Structural)]
pub enum RetryStep {
    /// The call succeeded: return its value.
    Done,
    /// The call failed: sleep this many milliseconds, then try again.
    RetryAfterMs(u64),
    /// The call failed on its last attempt: return its error.
    GiveUp,
}

/// The retry policy: a success ends the loop; a failure is retried after
/// the doubling backoff plus the attempt's jitter, until the fourth attempt
/// has failed.
pub fn retry_step(attempt: u32, succeeded: bool) -> (r: RetryStep)
    requires
        attempt < RETRY_ATTEMPTS,
    ensures
        succeeded ==> r == RetryStep::Done,
        !succeeded && attempt + 1 < RETRY_ATTEMPTS ==> r == RetryStep::RetryAfterMs(
            (backoff_base_ms(attempt as nat) + spec_jitter_ms(attempt)) as u64,
        ),
        !succeeded && attempt + 1 == RETRY_ATTEMPTS ==> r == RetryStep::GiveUp,
{
    if succeeded {
        return RetryStep::Done;
    }
    if attempt + 1 == RETRY_ATTEMPTS {
        return RetryStep::GiveUp;
    }
    let mut base: u64 = 50;
    let mut k: u32 = 0;
    while k < attempt
        invariant
            k <= attempt < 3,
            base == backoff_base_ms(k as nat),
            base <= 50 * 4,
        decreases attempt - k,
    {
        proof {
            reveal_with_fuel(backoff_base_ms, 3);
            if k == 1 {
                assert(backoff_base_ms(1) == 100);
            }
        }
        base = base * 2;
        k = k + 1;
    }
    RetryStep::RetryAfterMs(base + jitter_ms(attempt))
}

/// The instant an RFC 3339 timestamp denotes, as whole seconds since the
/// unix epoch and the nanoseconds past that second, or the text of the
/// parse error, as `chrono` computes them.
pub uninterp spec fn rfc3339_instant(text: Seq<char>) -> Result<(i64, u32), Seq<char>>;

pub open spec fn instant_view(r: Result<(i64, u32), String>) -> Result<(i64, u32), Seq<char>> {
    match r {
        Ok(v) => Ok(v),
        Err(e) => Err(e@),
    }
}

/// `chrono::DateTime::parse_from_rfc3339`, read out as `timestamp` and
/// `timestamp_subsec_nanos`; on failure the parse error's text. A function
/// of the text alone.
#[verifier::external_body]
fn parse_rfc3339_instant(text: &str) -> (r: Result<(i64, u32), String>)
    ensures
        instant_view(r) == rfc3339_instant(text@),
{
    match chrono::DateTime::parse_from_rfc3339(text) {
        Ok(d) => Ok((d.timestamp(), d.timestamp_subsec_nanos())),
        Err(e) => Err(e.to_string()),
    }
}

/// The current time (`chrono::Utc::now()`), read out as `timestamp` and
/// `timestamp_subsec_nanos`; nothing is promised of it.
#[verifier::external_body]
fn utc_now_instant() -> (r: (i64, u32)) {
    let now = chrono::Utc::now();
    (now.timestamp(), now.timestamp_subsec_nanos())
}

/// Nanoseconds since the unix epoch of an instant given as seconds and
/// nanoseconds.
pub open spec fn instant_nanos(i: (i64, u32)) -> int {
    i.0 * 1000000000 + i.1
}

fn to_nanos(i: (i64, u32)) -> (r: i128)
    ensures
        r == instant_nanos(i),
        -10000000000000000000000000000 <= r <= 10000000000000000000000000000,
{
    i.0 as i128 * 1000000000 + i.1 as i128
}

/// An age in whole minutes (truncated towards zero) shown in hours with
/// one decimal, rounded half up.
pub open spec fn hours_text(minutes: int) -> Seq<char> {
    let m = if minutes < 0 {
        -minutes
    } else {
        minutes
    };
    let tenths = (m * 10 + 30) / 60;
    (if minutes < 0 {
        "-"@
    } else {
        Seq::empty()
    }) + spec_decimal((tenths / 10) as nat) + "."@ + spec_decimal((tenths % 10) as nat)
}

/// Whole minutes of an age in nanoseconds, truncated towards zero.
pub open spec fn age_minutes(age_ns: int) -> int {
    if age_ns >= 0 {
        age_ns / 60000000000
    } else {
        -((-age_ns) / 60000000000)
    }
}

/// The refusal of a package version still in quarantine.
pub open spec fn quarantine_message(name: Seq<char>, version: Seq<char>, age_ns: int) -> Seq<char> {
    "\u{1F6A8} SECURITY: Package '"@ + name + "@"@ + version + "' was published only "@ + hours_text(
        age_minutes(age_ns),
    ) + "h ago (< 24h quarantine).\n   This may be a supply-chain attack. Use --allow-untrusted to override."@
}

/// The quarantine verdict for a version published at `published_ns`, seen
/// at `now_ns` (nanoseconds since the unix epoch): younger than
/// `min_age_secs` is refused, otherwise it passes (`Ok(true)`: a timestamp
/// was checked).
pub fn publish_age_outcome(
    name: &str,
    version: &str,
    min_age_secs: i64,
    published_ns: i128,
    now_ns: i128,
) -> (r: Result<bool, String>)
    requires
        -10000000000000000000000000000 <= published_ns <= 10000000000000000000000000000,
        -10000000000000000000000000000 <= now_ns <= 10000000000000000000000000000,
    ensures
        (now_ns - published_ns) < min_age_secs * 1000000000 ==> (r matches Err(m) && m@
            == quarantine_message(name@, version@, now_ns - published_ns)),
        (now_ns - published_ns) >= min_age_secs * 1000000000 ==> r == Ok::<bool, String>(true),
{
    let age: i128 = now_ns - published_ns;
    if age < (min_age_secs as i128) * 1000000000 {
        let minutes: i128 = if age >= 0 {
            age / 60000000000
        } else {
            -((-age) / 60000000000)
        };
        let m: i128 = if minutes < 0 {
            -minutes
        } else {
            minutes
        };
        let tenths: i128 = (m * 10 + 30) / 60;
        assert(tenths / 10 <= u64::MAX);
        let mut msg = str_to_string("\u{1F6A8} SECURITY: Package '");
        string_append(&mut msg, name);
        string_append(&mut msg, "@");
        string_append(&mut msg, version);
        string_append(&mut msg, "' was published only ");
        if minutes < 0 {
            string_append(&mut msg, "-");
        }
        push_decimal(&mut msg, (tenths / 10) as u64);
        string_append(&mut msg, ".");
        push_decimal(&mut msg, (tenths % 10) as u64);
        string_append(
            &mut msg,
            "h ago (< 24h quarantine).\n   This may be a supply-chain attack. Use --allow-untrusted to override.",
        );
        proof {
            assert(minutes == age_minutes(now_ns - published_ns));
            if minutes < 0 {
                assert(msg@ =~= quarantine_message(name@, version@, now_ns - published_ns));
            } else {
                assert(msg@ =~= quarantine_message(name@, version@, now_ns - published_ns));
            }
        }
        return Err(msg);
    }
    Ok(true)
}

/// The contract of [`publish_age_outcome`].
pub open spec fn age_outcome(
    name: Seq<char>,
    version: Seq<char>,
    min_age_secs: i64,
    published: int,
    now: int,
    r: Result<bool, String>,
) -> bool {
    &&& ((now - published) < min_age_secs * 1000000000 ==> (r matches Err(m) && m@
        == quarantine_message(name, version, now - published)))
    &&& ((now - published) >= min_age_secs * 1000000000 ==> r == Ok::<bool, String>(true))
}

/// The check of a version with publish time `time`: a time that does not
/// parse is treated as unknown and passes unchecked (`Ok(false)`);
/// otherwise the verdict at some instant (the clock's).
pub open spec fn timed_outcome(
    name: Seq<char>,
    version: Seq<char>,
    min_age_secs: i64,
    time: Seq<char>,
    r: Result<bool, String>,
) -> bool {
    match rfc3339_instant(time) {
        Err(_) => r == Ok::<bool, String>(false),
        Ok(published) => exists|now: (i64, u32)|
            #[trigger] age_outcome(
                name,
                version,
                min_age_secs,
                instant_nanos(published),
                instant_nanos(now),
                r,
            ),
    }
}

/// The quarantine check of a version against the clock: a version whose
/// publish time is missing or does not parse passes unchecked
/// (`Ok(false)`); otherwise see [`publish_age_outcome`].
pub fn check_publish_age(metadata: &PackageMetadata, version: &str, min_age_secs: i64) -> (r: Result<
    bool,
    String,
>)
    ensures
        spec_lookup(metadata.time@, version@).is_none() ==> r == Ok::<bool, String>(false),
        spec_lookup(metadata.time@, version@) matches Some(t) ==> timed_outcome(
            metadata.name@,
            version@,
            min_age_secs,
            t@,
            r,
        ),
{
    let ts = match lookup_entry(&metadata.time, version) {
        Some(t) => t,
        None => return Ok(false),
    };
    let published = match parse_rfc3339_instant(ts.as_str()) {
        Ok(p) => p,
        Err(_) => {
            proof {
                assert(spec_lookup(metadata.time@, version@) == Some(*ts));
            }
            return Ok(false);
        },
    };
    let now = utc_now_instant();
    let r = publish_age_outcome(
        metadata.name.as_str(),
        version,
        min_age_secs,
        to_nanos(published),
        to_nanos(now),
    );
    proof {
        assert(spec_lookup(metadata.time@, version@) == Some(*ts));
        assert(rfc3339_instant(ts@) == Ok::<(i64, u32), Seq<char>>(published));
        assert(age_outcome(
            metadata.name@,
            version@,
            min_age_secs,
            instant_nanos(published),
            instant_nanos(now),
            r,
        ));
        assert(exists|w: (i64, u32)|
            #[trigger] age_outcome(
                metadata.name@,
                version@,
                min_age_secs,
                instant_nanos(published),
                instant_nanos(w),
                r,
            )) by {
            assert(age_outcome(
                metadata.name@,
                version@,
                min_age_secs,
                instant_nanos(published),
                instant_nanos(now),
                r,
            ));
        }
        let p2 = rfc3339_instant(ts@)->Ok_0;
        assert(p2 == published);
        assert(p2.0 == published.0 && p2.1 == published.1);
        assert(instant_nanos(p2) == instant_nanos(published));
        assert(timed_outcome(metadata.name@, version@, min_age_secs, ts@, r));
    }
    r
}

} // verus!
