//! Tarball integrity (Subresource Integrity) computation and verification.

use vstd::prelude::*;
use crate::native::npm_registry::{base64_alphabet, spec_base64_encode};
use crate::text::{
    find_char, find_char_index, split_whitespace, split_whitespace_chars, str_chars, str_to_string,
    string_append, sub_chars, vecs_view, chars_eq, is_white_space, ws_split_from,
    lemma_find_char_found,
};
use crate::types::ResolvedPackage;

verus! {

/// SHA-256 digest of a byte string (FIPS 180-4).
pub uninterp spec fn sha256_digest(data: Seq<u8>) -> Seq<u8>;

/// SHA-512 digest of a byte string (FIPS 180-4).
pub uninterp spec fn sha512_digest(data: Seq<u8>) -> Seq<u8>;

/// SHA-256 of `bytes` (`sha2::Sha256::digest`): a function of the input
/// alone, 32 bytes long.
#[verifier::external_body]
pub(crate) fn sha256(bytes: &[u8]) -> (r: Vec<u8>)
    ensures
        r@ == sha256_digest(bytes@),
        r@.len() == 32,
{
    <sha2::Sha256 as sha2::Digest>::digest(bytes).to_vec()
}

/// SHA-512 of `bytes` (`sha2::Sha512::digest`): a function of the input
/// alone, 64 bytes long.
#[verifier::external_body]
pub(crate) fn sha512(bytes: &[u8]) -> (r: Vec<u8>)
    ensures
        r@ == sha512_digest(bytes@),
        r@.len() == 64,
{
    <sha2::Sha512 as sha2::Digest>::digest(bytes).to_vec()
}

/// Standard base64 with padding through the `base64` crate
/// (`general_purpose::STANDARD.encode`), which uses the RFC 4648 alphabet
/// and `=` padding.
#[verifier::external_body]
pub(crate) fn base64_standard_encode(bytes: &[u8]) -> (r: String)
    ensures
        r@ == spec_base64_encode(bytes@),
{
    base64::Engine::encode(&base64::engine::general_purpose::STANDARD, bytes)
}

pub open spec fn sha256_b64(bytes: Seq<u8>) -> Seq<char> {
    spec_base64_encode(sha256_digest(bytes))
}

pub open spec fn sha512_b64(bytes: Seq<u8>) -> Seq<char> {
    spec_base64_encode(sha512_digest(bytes))
}

/// The SRI string `sha512-<base64 digest>` of a tarball.
pub open spec fn spec_tarball_integrity(bytes: Seq<u8>) -> Seq<char> {
    "sha512-"@ + sha512_b64(bytes)
}

/// Base64 of the SHA-256 digest.
pub fn compute_sha256_b64_str(bytes: &[u8]) -> (r: String)
    ensures
        r@ == sha256_b64(bytes@),
{
    let d = sha256(bytes);
    base64_standard_encode(d.as_slice())
}

/// Base64 of the SHA-512 digest.
pub fn compute_sha512_b64(bytes: &[u8]) -> (r: String)
    ensures
        r@ == sha512_b64(bytes@),
{
    let d = sha512(bytes);
    base64_standard_encode(d.as_slice())
}

/// `sha512-<base64>` integrity of a tarball.
pub fn compute_tarball_integrity(bytes: &[u8]) -> (r: String)
    ensures
        r@ == spec_tarball_integrity(bytes@),
{
    let mut s = str_to_string("sha512-");
    let b = compute_sha512_b64(bytes);
    string_append(&mut s, b.as_str());
    s
}

/// Why a tarball failed its integrity check.
#[derive(Debug, Clone)]
pub enum IntegrityError {
    /// Strict mode and the package has no SRI string.
    Missing { package: String },
    /// Strict mode and an entry uses sha1 or md5.
    WeakAlgorithm { package: String, algorithm: String },
    /// Only sha1/md5 entries were present.
    OnlyWeak { package: String },
    /// No sha256/sha512 entry matched the bytes.
    Mismatch { package: String },
}

/// How scanning the SRI entries ends.
pub enum SriScan {
    Matched,
    WeakRejected(Seq<char>),
    OnlyWeak,
    Mismatch,
}

pub open spec fn is_weak_alg(alg: Seq<char>) -> bool {
    alg == "sha1"@ || alg == "md5"@
}

/// Scans SRI entries in order; `d256`/`d512` are the base64 digests of the
/// bytes; `weak`/`strong` record algorithms seen so far.
pub open spec fn sri_scan(
    entries: Seq<Seq<char>>,
    d256: Seq<char>,
    d512: Seq<char>,
    strict: bool,
    weak: bool,
    strong: bool,
) -> SriScan
    decreases entries.len(),
{
    if entries.len() == 0 {
        if weak && !strong {
            SriScan::OnlyWeak
        } else {
            SriScan::Mismatch
        }
    } else {
        let e = entries[0];
        let rest = entries.drop_first();
        match find_char(e, '-') {
            None => sri_scan(rest, d256, d512, strict, weak, strong),
            Some(i) => {
                let alg = e.take(i);
                let expected = e.skip(i + 1);
                if is_weak_alg(alg) {
                    if strict {
                        SriScan::WeakRejected(alg)
                    } else {
                        sri_scan(rest, d256, d512, strict, true, strong)
                    }
                } else if alg == "sha256"@ {
                    if d256 == expected {
                        SriScan::Matched
                    } else {
                        sri_scan(rest, d256, d512, strict, weak, true)
                    }
                } else if alg == "sha512"@ {
                    if d512 == expected {
                        SriScan::Matched
                    } else {
                        sri_scan(rest, d256, d512, strict, weak, true)
                    }
                } else {
                    sri_scan(rest, d256, d512, strict, weak, strong)
                }
            },
        }
    }
}

/// Outcome of verifying `bytes` against a package's SRI string.
pub open spec fn spec_verify_sri(
    package: Seq<char>,
    integrity: Seq<char>,
    bytes: Seq<u8>,
    strict: bool,
) -> Result<(), IntegrityErrorView> {
    if integrity.len() == 0 {
        if strict {
            Err(IntegrityErrorView::Missing(package))
        } else {
            Ok(())
        }
    } else {
        match sri_scan(
            split_whitespace(integrity),
            sha256_b64(bytes),
            sha512_b64(bytes),
            strict,
            false,
            false,
        ) {
            SriScan::Matched => Ok(()),
            SriScan::WeakRejected(alg) => Err(IntegrityErrorView::WeakAlgorithm(package, alg)),
            SriScan::OnlyWeak => Err(IntegrityErrorView::OnlyWeak(package)),
            SriScan::Mismatch => Err(IntegrityErrorView::Mismatch(package)),
        }
    }
}

/// [`IntegrityError`] with its strings as character sequences.
pub enum IntegrityErrorView {
    Missing(Seq<char>),
    WeakAlgorithm(Seq<char>, Seq<char>),
    OnlyWeak(Seq<char>),
    Mismatch(Seq<char>),
}

impl IntegrityError {
    pub open spec fn view(self) -> IntegrityErrorView {
        match self {
            IntegrityError::Missing { package } => IntegrityErrorView::Missing(package@),
            IntegrityError::WeakAlgorithm { package, algorithm } => IntegrityErrorView::WeakAlgorithm(
                package@,
                algorithm@,
            ),
            IntegrityError::OnlyWeak { package } => IntegrityErrorView::OnlyWeak(package@),
            IntegrityError::Mismatch { package } => IntegrityErrorView::Mismatch(package@),
        }
    }
}

/// The text of an integrity failure.
pub open spec fn integrity_message(e: IntegrityErrorView) -> Seq<char> {
    match e {
        IntegrityErrorView::Missing(p) => "strict integrity: '"@ + p + "' has no SRI integrity field"@,
        IntegrityErrorView::WeakAlgorithm(p, a) => "strict integrity: '"@ + p
            + "' uses weak hash algorithm '"@ + a + "' (only sha256/sha512 allowed)"@,
        IntegrityErrorView::OnlyWeak(p) => "integrity check failed for '"@ + p
            + "': only weak algorithms present (sha1/md5)"@,
        IntegrityErrorView::Mismatch(p) => "integrity mismatch for '"@ + p
            + "': none of the SRI entries matched"@,
    }
}

impl IntegrityError {
    /// The error's text.
    pub fn message(&self) -> (r: String)
        ensures
            r@ == integrity_message(self.view()),
    {
        match self {
            IntegrityError::Missing { package } => {
                let mut m = str_to_string("strict integrity: '");
                string_append(&mut m, package.as_str());
                string_append(&mut m, "' has no SRI integrity field");
                m
            },
            IntegrityError::WeakAlgorithm { package, algorithm } => {
                let mut m = str_to_string("strict integrity: '");
                string_append(&mut m, package.as_str());
                string_append(&mut m, "' uses weak hash algorithm '");
                string_append(&mut m, algorithm.as_str());
                string_append(&mut m, "' (only sha256/sha512 allowed)");
                m
            },
            IntegrityError::OnlyWeak { package } => {
                let mut m = str_to_string("integrity check failed for '");
                string_append(&mut m, package.as_str());
                string_append(&mut m, "': only weak algorithms present (sha1/md5)");
                m
            },
            IntegrityError::Mismatch { package } => {
                let mut m = str_to_string("integrity mismatch for '");
                string_append(&mut m, package.as_str());
                string_append(&mut m, "': none of the SRI entries matched");
                m
            },
        }
    }
}

pub open spec fn integrity_result_view(r: Result<(), IntegrityError>) -> Result<(), IntegrityErrorView> {
    match r {
        Ok(()) => Ok(()),
        Err(e) => Err(e.view()),
    }
}

fn chars_is(a: &Vec<char>, b: &str) -> (r: bool)
    ensures
        r == (a@ == b@),
{
    chars_eq(a, &str_chars(b))
}

/// Verifies tarball bytes against the package's SRI string. `strict`
/// rejects a missing SRI string and any sha1/md5 entry.
pub fn verify_sri_integrity(pkg: &ResolvedPackage, bytes: &[u8], strict: bool) -> (r: Result<
    (),
    IntegrityError,
>)
    ensures
        integrity_result_view(r) == spec_verify_sri(
            pkg.id.name@,
            pkg.integrity@,
            bytes@,
            strict,
        ),
{
    let integrity = str_chars(pkg.integrity.as_str());
    if integrity.len() == 0 {
        if strict {
            return Err(IntegrityError::Missing { package: pkg.id.name.clone() });
        }
        return Ok(());
    }
    let entries = split_whitespace_chars(&integrity);
    let ghost ents = vecs_view(entries@);
    let ghost d256 = sha256_b64(bytes@);
    let ghost d512 = sha512_b64(bytes@);
    let mut weak = false;
    let mut strong = false;
    let mut i: usize = 0;
    proof {
        assert(ents.skip(0) == ents);
    }
    while i < entries.len()
        invariant
            i <= entries.len(),
            ents == vecs_view(entries@),
            ents == split_whitespace(pkg.integrity@),
            pkg.integrity@.len() > 0,
            d256 == sha256_b64(bytes@),
            d512 == sha512_b64(bytes@),
            sri_scan(ents, d256, d512, strict, false, false) == sri_scan(
                ents.skip(i as int),
                d256,
                d512,
                strict,
                weak,
                strong,
            ),
        decreases entries.len() - i,
    {
        let e = &entries[i];
        proof {
            assert(ents.skip(i as int)[0] == e@);
            assert(ents.skip(i as int).drop_first() == ents.skip(i + 1));
        }
        match find_char_index(e, '-') {
            None => {},
            Some(k) => {
                let alg = sub_chars(e, 0, k);
                let expected = sub_chars(e, k + 1, e.len());
                proof {
                    assert(alg@ == e@.take(k as int));
                    assert(expected@ == e@.skip(k + 1));
                }
                if chars_is(&alg, "sha1") || chars_is(&alg, "md5") {
                    if strict {
                        let algorithm = crate::text::string_from_chars(&alg);
                        return Err(
                            IntegrityError::WeakAlgorithm { package: pkg.id.name.clone(), algorithm },
                        );
                    }
                    weak = true;
                } else if chars_is(&alg, "sha256") {
                    strong = true;
                    let actual = str_chars(compute_sha256_b64_str(bytes).as_str());
                    if chars_eq(&actual, &expected) {
                        return Ok(());
                    }
                } else if chars_is(&alg, "sha512") {
                    strong = true;
                    let actual = str_chars(compute_sha512_b64(bytes).as_str());
                    if chars_eq(&actual, &expected) {
                        return Ok(());
                    }
                }
            },
        }
        i = i + 1;
    }
    proof {
        assert(ents.skip(ents.len() as int).len() == 0);
    }
    if weak && !strong {
        Err(IntegrityError::OnlyWeak { package: pkg.id.name.clone() })
    } else {
        Err(IntegrityError::Mismatch { package: pkg.id.name.clone() })
    }
}

/// Verifies a package's tarball (see [`verify_sri_integrity`]).
pub fn verify_tarball_integrity(pkg: &ResolvedPackage, bytes: &[u8], strict: bool) -> (r: Result<
    (),
    IntegrityError,
>)
    ensures
        integrity_result_view(r) == spec_verify_sri(
            pkg.id.name@,
            pkg.integrity@,
            bytes@,
            strict,
        ),
{
    verify_sri_integrity(pkg, bytes, strict)
}

/// Fills in a missing integrity from the bytes, then verifies them.
pub fn prepare_verified_tarball_for_cache(
    pkg: &mut ResolvedPackage,
    bytes: &[u8],
    strict: bool,
) -> (r: Result<(), IntegrityError>)
    ensures
        final(pkg).id == old(pkg).id,
        final(pkg).tarball_url == old(pkg).tarball_url,
        final(pkg).deps == old(pkg).deps,
        final(pkg).peer_deps == old(pkg).peer_deps,
        final(pkg).direct == old(pkg).direct,
        final(pkg).dev == old(pkg).dev,
        final(pkg).integrity@ == (if old(pkg).integrity@.len() == 0 {
            spec_tarball_integrity(bytes@)
        } else {
            old(pkg).integrity@
        }),
        integrity_result_view(r) == spec_verify_sri(
            final(pkg).id.name@,
            final(pkg).integrity@,
            bytes@,
            strict,
        ),
{
    if pkg.integrity.as_str().is_empty() {
        pkg.integrity = compute_tarball_integrity(bytes);
    }
    verify_tarball_integrity(pkg, bytes, strict)
}


/// No character of standard base64 is white space or `-`.
proof fn lemma_base64_chars(bytes: Seq<u8>)
    ensures
        forall|k: int|
            0 <= k < spec_base64_encode(bytes).len() ==> !is_white_space(
                #[trigger] spec_base64_encode(bytes)[k],
            ) && spec_base64_encode(bytes)[k] != '-',
    decreases bytes.len(),
{
    if bytes.len() > 0 {
        assert forall|i: int| 0 <= i < 64 implies !is_white_space(#[trigger] base64_alphabet(i))
            && base64_alphabet(i) != '-' by {}
        let b0 = bytes[0] as int;
        let b1 = if bytes.len() > 1 { bytes[1] as int } else { 0 };
        let b2 = if bytes.len() > 2 { bytes[2] as int } else { 0 };
        assert(0 <= b0 / 4 < 64);
        assert(0 <= (b0 % 4) * 16 + b1 / 16 < 64);
        assert(0 <= (b1 % 16) * 4 + b2 / 64 < 64);
        assert(0 <= b2 % 64 < 64);
        let quad = seq![
            base64_alphabet(b0 / 4),
            base64_alphabet((b0 % 4) * 16 + b1 / 16),
            if bytes.len() > 1 { base64_alphabet((b1 % 16) * 4 + b2 / 64) } else { '=' },
            if bytes.len() > 2 { base64_alphabet(b2 % 64) } else { '=' },
        ];
        let enc = spec_base64_encode(bytes);
        assert(!is_white_space('='));
        assert forall|k: int| 0 <= k < 4 implies !is_white_space(#[trigger] quad[k]) && quad[k]
            != '-' by {}
        if bytes.len() > 3 {
            lemma_base64_chars(bytes.skip(3));
            let rest = spec_base64_encode(bytes.skip(3));
            assert(enc == quad + rest);
            assert forall|k: int| 0 <= k < enc.len() implies !is_white_space(#[trigger] enc[k])
                && enc[k] != '-' by {
                if k < 4 {
                    assert(enc[k] == quad[k]);
                } else {
                    assert(enc[k] == rest[k - 4]);
                }
            }
        } else {
            assert(enc == quad);
        }
    }
}

/// A text without white space splits into itself (when non-empty).
proof fn lemma_split_whole(cur: Seq<char>, s: Seq<char>)
    requires
        forall|k: int| 0 <= k < s.len() ==> !is_white_space(#[trigger] s[k]),
        cur.len() + s.len() > 0,
    ensures
        ws_split_from(cur, s) == seq![cur + s],
    decreases s.len(),
{
    if s.len() == 0 {
        assert(cur + s =~= cur);
    } else {
        assert(!is_white_space(s[0]));
        assert forall|k: int| 0 <= k < s.drop_first().len() implies !is_white_space(
            #[trigger] s.drop_first()[k],
        ) by {
            assert(s.drop_first()[k] == s[k + 1]);
        }
        lemma_split_whole(cur.push(s[0]), s.drop_first());
        assert(cur.push(s[0]) + s.drop_first() =~= cur + s);
    }
}

/// What [`compute_tarball_integrity`] computes for some bytes, those bytes
/// satisfy: the integrity written for a tarball verifies it, in strict mode
/// too.
pub proof fn law_computed_integrity_verifies(package: Seq<char>, bytes: Seq<u8>, strict: bool)
    ensures
        spec_verify_sri(package, spec_tarball_integrity(bytes), bytes, strict) is Ok,
{
    reveal_strlit("sha512-");
    reveal_strlit("sha512");
    reveal_strlit("sha256");
    reveal_strlit("sha1");
    reveal_strlit("md5");
    let b = sha512_b64(bytes);
    let e = spec_tarball_integrity(bytes);
    lemma_base64_chars(sha512_digest(bytes));
    assert forall|k: int| 0 <= k < e.len() implies !is_white_space(#[trigger] e[k]) by {
        if k >= 7 {
            assert(e[k] == b[k - 7]);
        }
    }
    lemma_split_whole(Seq::empty(), e);
    assert(Seq::<char>::empty() + e =~= e);
    assert(split_whitespace(e) == seq![e]);
    lemma_find_char_found(e, '-');
    assert(e[6] == '-');
    assert(find_char(e, '-') == Some(6int));
    assert(e.take(6) =~= "sha512"@);
    assert(e.skip(7) =~= b);
    assert(seq![e].drop_first() =~= Seq::<Seq<char>>::empty());
    assert("sha512"@ != "sha1"@ && "sha512"@ != "md5"@);
    assert("sha512"@[3] != "sha256"@[3]);
    assert(!is_weak_alg(e.take(6)));
    assert(e.take(6) != "sha256"@);
    assert(seq![e][0] == e);
    assert(sri_scan(seq![e], sha256_b64(bytes), b, strict, false, false) == SriScan::Matched);
}

/// An SRI entry that names sha256 or sha512 and carries the digest of the
/// bytes (`d256`, `d512`: their base64 digests).
pub open spec fn strong_match(e: Seq<char>, d256: Seq<char>, d512: Seq<char>) -> bool {
    match find_char(e, '-') {
        Some(i) => (e.take(i) == "sha256"@ && e.skip(i + 1) == d256) || (e.take(i) == "sha512"@
            && e.skip(i + 1) == d512),
        None => false,
    }
}

pub open spec fn has_strong_match(entries: Seq<Seq<char>>, d256: Seq<char>, d512: Seq<char>) -> bool {
    exists|k: int| 0 <= k < entries.len() && #[trigger] strong_match(entries[k], d256, d512)
}

proof fn lemma_scan_matches(
    entries: Seq<Seq<char>>,
    d256: Seq<char>,
    d512: Seq<char>,
    strict: bool,
    weak: bool,
    strong: bool,
)
    ensures
        sri_scan(entries, d256, d512, strict, weak, strong) is Matched ==> has_strong_match(
            entries,
            d256,
            d512,
        ),
        !strict ==> (has_strong_match(entries, d256, d512) <==> sri_scan(
            entries,
            d256,
            d512,
            strict,
            weak,
            strong,
        ) is Matched),
    decreases entries.len(),
{
    reveal_strlit("sha256");
    reveal_strlit("sha512");
    reveal_strlit("sha1");
    reveal_strlit("md5");
    assert("sha256"@.len() == 6 && "sha512"@.len() == 6 && "sha1"@.len() == 4 && "md5"@.len() == 3);
    assert("sha256"@ != "sha1"@ && "sha256"@ != "md5"@);
    assert("sha512"@ != "sha1"@ && "sha512"@ != "md5"@);
    assert("sha512"@[3] != "sha256"@[3]);
    if entries.len() > 0 {
        let e = entries[0];
        let rest = entries.drop_first();
        lemma_scan_matches(rest, d256, d512, strict, weak, strong);
        lemma_scan_matches(rest, d256, d512, strict, true, strong);
        lemma_scan_matches(rest, d256, d512, strict, weak, true);
        assert forall|k: int| 0 <= k < rest.len() implies #[trigger] rest[k] == entries[k + 1] by {}
        if has_strong_match(rest, d256, d512) {
            let k = choose|k: int| 0 <= k < rest.len() && #[trigger] strong_match(rest[k], d256, d512);
            assert(strong_match(entries[k + 1], d256, d512));
        }
        if has_strong_match(entries, d256, d512) && !strong_match(e, d256, d512) {
            let k = choose|k: int| 0 <= k < entries.len() && #[trigger] strong_match(entries[k], d256, d512);
            assert(k > 0);
            assert(strong_match(rest[k - 1], d256, d512));
        }
        if strong_match(e, d256, d512) {
            assert(strong_match(entries[0], d256, d512));
        }
    }
}

/// Outside strict mode, bytes are accepted exactly when the package has no
/// SRI string or one of its entries is a sha256 or sha512 digest of them;
/// sha1/md5, unknown algorithms and entries without `-` never accept.
pub proof fn law_sri_accepts_exactly_strong_matches(package: Seq<char>, integrity: Seq<char>, bytes: Seq<u8>)
    ensures
        spec_verify_sri(package, integrity, bytes, false) is Ok <==> (integrity.len() == 0
            || has_strong_match(split_whitespace(integrity), sha256_b64(bytes), sha512_b64(bytes))),
{
    lemma_scan_matches(split_whitespace(integrity), sha256_b64(bytes), sha512_b64(bytes), false, false, false);
}

/// Strict mode never accepts bytes without a strong digest: a package with
/// no SRI string is refused as missing, and an accepted one has a sha256 or
/// sha512 entry that is a digest of the bytes.
pub proof fn law_strict_needs_strong_digest(package: Seq<char>, integrity: Seq<char>, bytes: Seq<u8>)
    ensures
        integrity.len() == 0 ==> spec_verify_sri(package, integrity, bytes, true) == Err::<(), IntegrityErrorView>(
            IntegrityErrorView::Missing(package),
        ),
        spec_verify_sri(package, integrity, bytes, true) is Ok ==> integrity.len() > 0 && has_strong_match(
            split_whitespace(integrity),
            sha256_b64(bytes),
            sha512_b64(bytes),
        ),
{
    lemma_scan_matches(split_whitespace(integrity), sha256_b64(bytes), sha512_b64(bytes), true, false, false);
}

/// Strict mode refuses a weak first entry: when the first SRI entry names
/// sha1 or md5, the check fails naming that algorithm.
pub proof fn law_strict_refuses_weak_first_entry(
    package: Seq<char>,
    integrity: Seq<char>,
    bytes: Seq<u8>,
    alg: Seq<char>,
    rest: Seq<char>,
)
    requires
        is_weak_alg(alg),
        split_whitespace(integrity).len() > 0,
        split_whitespace(integrity)[0] == alg + "-"@ + rest,
    ensures
        spec_verify_sri(package, integrity, bytes, true) == Err::<(), IntegrityErrorView>(
            IntegrityErrorView::WeakAlgorithm(package, alg),
        ),
{
    reveal_strlit("sha1");
    reveal_strlit("md5");
    reveal_strlit("-");
    let e = alg + "-"@ + rest;
    assert(forall|k: int| 0 <= k < alg.len() ==> alg[k] != '-');
    assert(e[alg.len() as int] == '-');
    lemma_find_char_found(e, '-');
    match find_char(e, '-') {
        Some(i) => {
            if i < alg.len() {
                assert(e[i] == alg[i]);
            }
            assert(i == alg.len());
        },
        None => {
            assert(e[alg.len() as int] != '-');
        },
    }
    assert(e.take(alg.len() as int) =~= alg);
    assert(integrity.len() > 0) by {
        if integrity.len() == 0 {
            assert(split_whitespace(integrity) =~= Seq::<Seq<char>>::empty());
        }
    }
}

} // verus!
