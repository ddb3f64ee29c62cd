//! Audit-grade reading of an advisory's `vulnerable_versions` range: every
//! `||` alternative must be `*` or operators and versions; the checks it
//! yields say which texts must parse as versions, and where the range is
//! malformed.

use vstd::prelude::*;
use crate::text::{
    chars_eq, split_whitespace, split_whitespace_chars, str_chars, str_to_string, string_append,
    string_from_chars, sub_chars, trim, trim_chars, vecs_view,
};

verus! {

/// `str::split("||")`: the pieces between non-overlapping `||`, scanned
/// from the left; `cur` is the piece being collected.
pub open spec fn bar_split_from(cur: Seq<char>, s: Seq<char>) -> Seq<Seq<char>>
    decreases s.len(),
{
    if s.len() == 0 {
        seq![cur]
    } else if s.len() >= 2 && s[0] == '|' && s[1] == '|' {
        seq![cur] + bar_split_from(Seq::empty(), s.skip(2))
    } else {
        bar_split_from(cur.push(s[0]), s.drop_first())
    }
}

pub open spec fn bar_split(s: Seq<char>) -> Seq<Seq<char>> {
    bar_split_from(Seq::empty(), s)
}

fn bar_split_chars(s: &Vec<char>) -> (r: Vec<Vec<char>>)
    ensures
        vecs_view(r@) == bar_split(s@),
{
    let mut pieces: Vec<Vec<char>> = Vec::new();
    let mut cur: Vec<char> = Vec::new();
    let mut i: usize = 0;
    proof {
        assert(s@.skip(0) =~= s@);
    }
    while i < s.len()
        invariant
            i <= s.len(),
            bar_split(s@) == vecs_view(pieces@) + bar_split_from(cur@, s@.skip(i as int)),
        decreases s.len() - i,
    {
        if i + 1 < s.len() && s[i] == '|' && s[i + 1] == '|' {
            proof {
                assert(s@.skip(i as int).skip(2) =~= s@.skip(i + 2));
            }
            let ghost before = pieces@;
            pieces.push(cur);
            proof {
                assert(vecs_view(pieces@) =~= vecs_view(before).push(cur@));
            }
            cur = Vec::new();
            i = i + 2;
        } else {
            proof {
                assert(s@.skip(i as int).drop_first() =~= s@.skip(i + 1));
            }
            cur.push(s[i]);
            i = i + 1;
        }
    }
    let ghost before = pieces@;
    pieces.push(cur);
    proof {
        assert(vecs_view(pieces@) =~= vecs_view(before).push(cur@));
        assert(s@.skip(i as int).len() == 0);
    }
    pieces
}

/// A check the range asks for.
#[derive(Debug, Clone)]
pub enum RangeCheck {
    /// `version` must parse as a semver version; `message` is the error if
    /// it does not.
    ParseVersion { version: String, message: String },
    /// The range is malformed.
    Fail { message: String },
}

pub open spec fn check_view(c: RangeCheck) -> (bool, Seq<char>, Seq<char>) {
    match c {
        RangeCheck::ParseVersion { version, message } => (true, version@, message@),
        RangeCheck::Fail { message } => (false, Seq::empty(), message@),
    }
}

pub open spec fn checks_view(v: Seq<RangeCheck>) -> Seq<(bool, Seq<char>, Seq<char>)> {
    v.map_values(|c: RangeCheck| check_view(c))
}

pub open spec fn is_operator(t: Seq<char>) -> bool {
    t == ">="@ || t == "<="@ || t == ">"@ || t == "<"@ || t == "="@ || t == "=="@ || t == "^"@ || t
        == "~"@
}

pub open spec fn is_op_char(c: char) -> bool {
    c == '>' || c == '<' || c == '=' || c == '^' || c == '~'
}

/// A token without its leading operator characters.
pub open spec fn strip_ops(t: Seq<char>) -> Seq<char>
    decreases t.len(),
{
    if t.len() > 0 && is_op_char(t[0]) {
        strip_ops(t.drop_first())
    } else {
        t
    }
}

/// The checks of an alternative's tokens: an operator token takes the next
/// token as its version (an operator at the end is malformed); any other
/// token is a version once its leading operators are stripped.
pub open spec fn token_checks(toks: Seq<Seq<char>>, alt: Seq<char>, range: Seq<char>) -> Seq<
    (bool, Seq<char>, Seq<char>),
>
    decreases toks.len(),
{
    if toks.len() == 0 {
        Seq::empty()
    } else if is_operator(toks[0]) {
        if toks.len() < 2 {
            seq![
                (false, Seq::empty(), "operator '"@ + toks[0] + "' in '"@ + alt + "' of range '"@
                    + range + "' has no version"@),
            ]
        } else {
            seq![
                (true, toks[1], "version '"@ + toks[1] + "' in '"@ + alt + "' of range '"@ + range
                    + "' is not parseable semver"@),
            ] + token_checks(toks.skip(2), alt, range)
        }
    } else {
        seq![
            (true, strip_ops(toks[0]), "token '"@ + toks[0] + "' in '"@ + alt + "' of range '"@
                + range + "' is not a parseable semver version"@),
        ] + token_checks(toks.drop_first(), alt, range)
    }
}

pub open spec fn ends_in_fail(cs: Seq<(bool, Seq<char>, Seq<char>)>) -> bool {
    cs.len() > 0 && !cs.last().0
}

/// The checks of the alternatives: an empty alternative is malformed and
/// ends the checks, `*` needs none, others need their tokens' checks; a
/// malformed alternative ends the checks.
pub open spec fn alt_checks(alts: Seq<Seq<char>>, range: Seq<char>) -> Seq<(bool, Seq<char>, Seq<char>)>
    decreases alts.len(),
{
    if alts.len() == 0 {
        Seq::empty()
    } else {
        let alt = trim(alts[0]);
        if alt.len() == 0 {
            seq![(false, Seq::empty(), "empty alternative in range '"@ + range + "'"@)]
        } else if alt == "*"@ {
            alt_checks(alts.drop_first(), range)
        } else {
            let tc = token_checks(split_whitespace(alt), alt, range);
            if ends_in_fail(tc) {
                tc
            } else {
                tc + alt_checks(alts.drop_first(), range)
            }
        }
    }
}

/// The checks of a range, in order (see [`alt_checks`]).
pub open spec fn spec_range_checks(range: Seq<char>) -> Seq<(bool, Seq<char>, Seq<char>)> {
    alt_checks(bar_split(range), range)
}

fn is_operator_exec(t: &Vec<char>) -> (r: bool)
    ensures
        r == is_operator(t@),
{
    chars_eq(t, &str_chars(">=")) || chars_eq(t, &str_chars("<=")) || chars_eq(t, &str_chars(">"))
        || chars_eq(t, &str_chars("<")) || chars_eq(t, &str_chars("=")) || chars_eq(
        t,
        &str_chars("=="),
    ) || chars_eq(t, &str_chars("^")) || chars_eq(t, &str_chars("~"))
}

fn strip_ops_exec(t: &Vec<char>) -> (r: Vec<char>)
    ensures
        r@ == strip_ops(t@),
{
    let mut i: usize = 0;
    proof {
        assert(t@.skip(0) =~= t@);
    }
    while i < t.len() && (t[i] == '>' || t[i] == '<' || t[i] == '=' || t[i] == '^' || t[i] == '~')
        invariant
            i <= t.len(),
            strip_ops(t@) == strip_ops(t@.skip(i as int)),
        decreases t.len() - i,
    {
        proof {
            assert(t@.skip(i as int).drop_first() =~= t@.skip(i + 1));
        }
        i = i + 1;
    }
    sub_chars(t, i, t.len())
}

fn message3(a: &str, x: &Vec<char>, b: &str, alt: &Vec<char>, c: &str, range: &str, d: &str) -> (r: String)
    ensures
        r@ == a@ + x@ + b@ + alt@ + c@ + range@ + d@,
{
    let mut m = str_to_string(a);
    let xs = string_from_chars(x);
    string_append(&mut m, xs.as_str());
    string_append(&mut m, b);
    let alts = string_from_chars(alt);
    string_append(&mut m, alts.as_str());
    string_append(&mut m, c);
    string_append(&mut m, range);
    string_append(&mut m, d);
    m
}

/// Appends the checks of one alternative's tokens.
fn push_token_checks(out: &mut Vec<RangeCheck>, alt: &Vec<char>, range: &str)
    ensures
        checks_view(final(out)@) == checks_view(old(out)@) + token_checks(
            split_whitespace(alt@),
            alt@,
            range@,
        ),
{
    let toks = split_whitespace_chars(alt);
    let ghost tv = vecs_view(toks@);
    let ghost start = checks_view(out@);
    let mut i: usize = 0;
    proof {
        assert(tv.skip(0) =~= tv);
    }
    while i < toks.len()
        invariant
            i <= toks.len(),
            tv == vecs_view(toks@),
            tv == split_whitespace(alt@),
            start == checks_view(old(out)@),
            start + token_checks(tv, alt@, range@) == checks_view(out@) + token_checks(
                tv.skip(i as int),
                alt@,
                range@,
            ),
        decreases toks.len() - i,
    {
        let t = &toks[i];
        proof {
            assert(tv.skip(i as int)[0] == t@);
        }
        if is_operator_exec(t) {
            if i + 1 >= toks.len() {
                let m = message3("operator '", t, "' in '", alt, "' of range '", range, "' has no version");
                let ghost before = out@;
                out.push(RangeCheck::Fail { message: m });
                proof {
                    assert(checks_view(out@) =~= checks_view(before).push(check_view(out@.last())));
                    assert(tv.skip(i as int).len() < 2);
                    reveal_strlit("operator '");
                    assert(checks_view(out@) =~= start + token_checks(tv, alt@, range@));
                }
                return;
            }
            let v = &toks[i + 1];
            let m = message3("version '", v, "' in '", alt, "' of range '", range, "' is not parseable semver");
            let ghost before = out@;
            out.push(RangeCheck::ParseVersion { version: string_from_chars(v), message: m });
            proof {
                assert(tv.skip(i as int)[1] == v@);
                assert(tv.skip(i as int).skip(2) =~= tv.skip(i + 2));
                assert(checks_view(out@) =~= checks_view(before).push(check_view(out@.last())));
            }
            i = i + 2;
        } else {
            let s = strip_ops_exec(t);
            let m = message3("token '", t, "' in '", alt, "' of range '", range, "' is not a parseable semver version");
            let ghost before = out@;
            out.push(RangeCheck::ParseVersion { version: string_from_chars(&s), message: m });
            proof {
                assert(tv.skip(i as int).drop_first() =~= tv.skip(i + 1));
                assert(checks_view(out@) =~= checks_view(before).push(check_view(out@.last())));
            }
            i = i + 1;
        }
    }
    proof {
        assert(tv.skip(i as int).len() == 0);
        assert(checks_view(out@) =~= start + token_checks(tv, alt@, range@));
    }
}

/// The checks a range asks for, in order (see [`spec_range_checks`]); the
/// range is valid when every version check passes, in order, and no
/// check fails.
pub fn semver_range_checks(range: &str) -> (r: Vec<RangeCheck>)
    ensures
        checks_view(r@) == spec_range_checks(range@),
{
    let alts = bar_split_chars(&str_chars(range));
    let ghost av = vecs_view(alts@);
    let mut out: Vec<RangeCheck> = Vec::new();
    let mut i: usize = 0;
    proof {
        assert(av.skip(0) =~= av);
        assert(checks_view(out@) =~= Seq::<(bool, Seq<char>, Seq<char>)>::empty());
    }
    while i < alts.len()
        invariant
            i <= alts.len(),
            av == vecs_view(alts@),
            av == bar_split(range@),
            !ends_in_fail(checks_view(out@)),
            spec_range_checks(range@) == checks_view(out@) + alt_checks(av.skip(i as int), range@),
        decreases alts.len() - i,
    {
        let alt = trim_chars(&alts[i]);
        proof {
            assert(av.skip(i as int)[0] == alts@[i as int]@);
            assert(av.skip(i as int).drop_first() =~= av.skip(i + 1));
        }
        if alt.len() == 0 {
            let mut m = str_to_string("empty alternative in range '");
            string_append(&mut m, range);
            string_append(&mut m, "'");
            let ghost before = out@;
            out.push(RangeCheck::Fail { message: m });
            proof {
                assert(checks_view(out@) =~= checks_view(before).push(check_view(out@.last())));
                assert(checks_view(out@) =~= spec_range_checks(range@));
            }
            return out;
        }
        if chars_eq(&alt, &str_chars("*")) {
            i = i + 1;
            continue;
        }
        let ghost before = checks_view(out@);
        push_token_checks(&mut out, &alt, range);
        let n = out.len();
        if n > 0 {
            let failed = match &out[n - 1] {
                RangeCheck::Fail { .. } => true,
                RangeCheck::ParseVersion { .. } => false,
            };
            if failed {
                proof {
                    let tc = token_checks(split_whitespace(alt@), alt@, range@);
                    assert(checks_view(out@) == before + tc);
                    assert(!check_view(out@[n - 1]).0);
                    assert(ends_in_fail(checks_view(out@)));
                    assert(tc.len() > 0) by {
                        if tc.len() == 0 {
                            assert(checks_view(out@) =~= before);
                        }
                    }
                    assert(checks_view(out@).last() == tc.last());
                    assert(ends_in_fail(tc));
                    assert(checks_view(out@) =~= spec_range_checks(range@));
                }
                return out;
            }
        }
        proof {
            let tc = token_checks(split_whitespace(alt@), alt@, range@);
            if tc.len() > 0 {
                assert(checks_view(out@).last() == tc.last());
                assert(check_view(out@[n - 1]).0);
            }
            assert(!ends_in_fail(tc));
            if checks_view(out@).len() > 0 {
                if tc.len() == 0 {
                    assert(checks_view(out@) =~= before);
                } else {
                    assert(check_view(out@[n - 1]).0);
                }
            }
        }
        i = i + 1;
    }
    proof {
        assert(av.skip(i as int).len() == 0);
        assert(checks_view(out@) =~= spec_range_checks(range@));
    }
    out
}

/// The first check that fails, in order: a malformed range, or a version
/// that does not parse (`parses[j]` says whether the `j`-th check's version
/// parses).
pub open spec fn first_failure(cs: Seq<(bool, Seq<char>, Seq<char>)>, parses: Seq<bool>) -> Option<
    Seq<char>,
>
    decreases cs.len(),
{
    if cs.len() == 0 {
        None
    } else if !cs[0].0 || !parses[0] {
        Some(cs[0].2)
    } else {
        first_failure(cs.drop_first(), parses.drop_first())
    }
}

/// Why an advisory's vulnerable range cannot be used in an audit: it does
/// not parse as a range (`parse_error`), or it fails the audit-grade checks
/// of [`spec_range_checks`]; `None` when it can be used.
pub open spec fn spec_audit_range_error(
    range: Seq<char>,
    parse_error: Option<Seq<char>>,
    parses: Seq<bool>,
) -> Option<Seq<char>> {
    match parse_error {
        Some(e) => Some("invalid vulnerable_versions '"@ + range + "': "@ + e),
        None => first_failure(spec_range_checks(range), parses),
    }
}

/// See [`spec_audit_range_error`]: `checks` are the checks of `range` (from
/// [`semver_range_checks`]) and `parses[j]` whether the version of the
/// `j`-th check parses.
pub fn audit_range_error(
    range: &str,
    parse_error: Option<&str>,
    checks: &Vec<RangeCheck>,
    parses: &Vec<bool>,
) -> (r: Option<String>)
    requires
        checks_view(checks@) == spec_range_checks(range@),
        parses.len() == checks.len(),
    ensures
        match r {
            Some(m) => spec_audit_range_error(
                range@,
                crate::env_config::opt_view(parse_error),
                parses@,
            ) == Some(m@),
            None => spec_audit_range_error(range@, crate::env_config::opt_view(parse_error), parses@)
                is None,
        },
{
    if let Some(e) = parse_error {
        let mut m = str_to_string("invalid vulnerable_versions '");
        string_append(&mut m, range);
        string_append(&mut m, "': ");
        string_append(&mut m, e);
        return Some(m);
    }
    let ghost cs = checks_view(checks@);
    let mut j: usize = 0;
    proof {
        assert(cs.skip(0) =~= cs);
        assert(parses@.skip(0) =~= parses@);
    }
    while j < checks.len()
        invariant
            j <= checks.len() == parses.len(),
            cs == checks_view(checks@),
            cs == spec_range_checks(range@),
            parse_error is None,
            first_failure(cs, parses@) == first_failure(cs.skip(j as int), parses@.skip(j as int)),
        decreases checks.len() - j,
    {
        proof {
            assert(cs.skip(j as int)[0] == check_view(checks@[j as int]));
            assert(parses@.skip(j as int)[0] == parses@[j as int]);
            assert(cs.skip(j as int).drop_first() =~= cs.skip(j + 1));
            assert(parses@.skip(j as int).drop_first() =~= parses@.skip(j + 1));
        }
        match &checks[j] {
            RangeCheck::Fail { message } => {
                return Some(message.clone());
            },
            RangeCheck::ParseVersion { message, .. } => {
                if !parses[j] {
                    return Some(message.clone());
                }
            },
        }
        j = j + 1;
    }
    None
}

} // verus!
