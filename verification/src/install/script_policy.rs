//! Whether lifecycle scripts (`preinstall`, `install`, `postinstall`) run:
//! the blanket opt-in, the machine-local trust entries, and the merged
//! per-package verdict.

use vstd::prelude::*;
use crate::env_config::{flag_value_enabled, spec_flag_enabled, opt_view};
use crate::native::npm_registry::{lookup_entry, spec_lookup};
use crate::text::{chars_eq, str_chars, str_to_string, string_append, strings_view};

verus! {

/// The blanket opt-in from the `MAGICORE_WEB_ALLOW_SCRIPTS` setting
/// (`1`, `true`, `yes` or `on`, trimmed, any case).
pub fn lifecycle_scripts_allowed(raw: Option<&str>) -> (r: bool)
    ensures
        r == spec_flag_enabled(opt_view(raw)),
{
    flag_value_enabled(raw)
}

pub open spec fn spec_should_run(ignore_scripts: bool, allow_scripts: bool, setting: Option<Seq<char>>) -> bool {
    !ignore_scripts && (allow_scripts || spec_flag_enabled(setting))
}

/// Scripts run unless ignored, when allowed by the caller or by the
/// blanket setting (`setting` is its raw value).
pub fn should_run_lifecycle_scripts(ignore_scripts: bool, allow_scripts: bool, setting: Option<&str>) -> (r:
    bool)
    ensures
        r == spec_should_run(ignore_scripts, allow_scripts, opt_view(setting)),
{
    if ignore_scripts {
        return false;
    }
    allow_scripts || lifecycle_scripts_allowed(setting)
}

/// A trust entry decides for itself (`approved` runs, `denied` does not);
/// with no entry, or any other value, the blanket opt-in decides.
pub open spec fn spec_trust_allows(policy: Option<Seq<char>>, blanket: bool) -> bool {
    match policy {
        Some(p) => if p == "approved"@ {
            true
        } else if p == "denied"@ {
            false
        } else {
            blanket
        },
        None => blanket,
    }
}

pub fn trust_allows_script(policy: Option<&str>, blanket_scripts: bool) -> (r: bool)
    ensures
        r == spec_trust_allows(opt_view(policy), blanket_scripts),
{
    match policy {
        Some(p) => {
            let pc = str_chars(p);
            let approved = str_chars("approved");
            let denied = str_chars("denied");
            if chars_eq(&pc, &approved) {
                true
            } else if chars_eq(&pc, &denied) {
                false
            } else {
                blanket_scripts
            }
        },
        None => blanket_scripts,
    }
}

/// Lifecycle scripts are opt-in and fail closed: with neither the caller's
/// allowance nor the setting they do not run; ignoring scripts always wins;
/// a trust entry `denied` is never overridden by the blanket opt-in, and
/// `approved` runs without it.
pub proof fn law_scripts_opt_in(allow_scripts: bool, setting: Option<Seq<char>>, blanket: bool)
    ensures
        !spec_should_run(false, false, None),
        !spec_should_run(true, allow_scripts, setting),
        !spec_trust_allows(Some("denied"@), blanket),
        spec_trust_allows(Some("approved"@), blanket),
{
    reveal_strlit("denied");
    reveal_strlit("approved");
    assert("denied"@[0] != "approved"@[0]);
}

/// A package runs install scripts when its `scripts` object names one of
/// `preinstall`, `install`, `postinstall`.
pub open spec fn spec_has_install_scripts(names: Seq<Seq<char>>) -> bool {
    names.contains("preinstall"@) || names.contains("install"@) || names.contains("postinstall"@)
}

pub fn has_install_scripts(script_names: &Vec<String>) -> (r: bool)
    ensures
        r == spec_has_install_scripts(strings_view(script_names@)),
{
    let pre = str_chars("preinstall");
    let ins = str_chars("install");
    let post = str_chars("postinstall");
    let ghost nv = strings_view(script_names@);
    let mut i: usize = 0;
    while i < script_names.len()
        invariant
            i <= script_names.len(),
            nv == strings_view(script_names@),
            pre@ == "preinstall"@,
            ins@ == "install"@,
            post@ == "postinstall"@,
            forall|k: int|
                0 <= k < i ==> #[trigger] nv[k] != "preinstall"@ && nv[k] != "install"@ && nv[k]
                    != "postinstall"@,
        decreases script_names.len() - i,
    {
        let n = str_chars(script_names[i].as_str());
        if chars_eq(&n, &pre) || chars_eq(&n, &ins) || chars_eq(&n, &post) {
            proof {
                assert(nv[i as int] == n@);
            }
            return true;
        }
        proof {
            assert(nv[i as int] == n@);
        }
        i = i + 1;
    }
    proof {
        if spec_has_install_scripts(nv) {
            if nv.contains("preinstall"@) {
                let k = choose|k: int| 0 <= k < nv.len() && nv[k] == "preinstall"@;
                assert(nv[k] != "preinstall"@);
            } else if nv.contains("install"@) {
                let k = choose|k: int| 0 <= k < nv.len() && nv[k] == "install"@;
                assert(nv[k] != "install"@);
            } else {
                let k = choose|k: int| 0 <= k < nv.len() && nv[k] == "postinstall"@;
                assert(nv[k] != "postinstall"@);
            }
        }
    }
    false
}

/// The trust entry of a package: the one for `name@version`, else the one
/// for `name`.
pub open spec fn spec_trust_policy(trust: Seq<(String, String)>, name: Seq<char>, version: Seq<char>) -> Option<
    String,
> {
    match spec_lookup(trust, name + "@"@ + version) {
        Some(p) => Some(p),
        None => spec_lookup(trust, name),
    }
}

pub fn trust_policy_for(trust: &Vec<(String, String)>, name: &str, version: &str) -> (r: Option<String>)
    ensures
        r == spec_trust_policy(trust@, name@, version@),
{
    let mut key = str_to_string(name);
    string_append(&mut key, "@");
    string_append(&mut key, version);
    match lookup_entry(trust, key.as_str()) {
        Some(p) => Some(p.clone()),
        None => match lookup_entry(trust, name) {
            Some(p) => Some(p.clone()),
            None => None,
        },
    }
}

/// The merged verdict on a package's scripts from the committed policy and
/// the trust entry: a denial from either wins, then an approval.
#[derive(Debug, Clone, Copy, PartialEq, Eq, Structural)]
pub enum ScriptVerdict {
    Deny,
    Allow,
    Undecided,
}

/// A package's scripts run when allowed, and when undecided under the
/// blanket opt-in.
pub fn scripts_run_for(verdict: ScriptVerdict, blanket_scripts: bool) -> (r: bool)
    ensures
        r == match verdict {
            ScriptVerdict::Deny => false,
            ScriptVerdict::Allow => true,
            ScriptVerdict::Undecided => blanket_scripts,
        },
{
    match verdict {
        ScriptVerdict::Deny => false,
        ScriptVerdict::Allow => true,
        ScriptVerdict::Undecided => blanket_scripts,
    }
}

} // verus!
