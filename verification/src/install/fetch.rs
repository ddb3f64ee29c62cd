//! Which URL a package tarball is downloaded from.

use vstd::prelude::*;
use crate::env_config::opt_view;
use crate::audit::{
    allow_insecure_loopback_url, is_tarball_url_trusted, spec_allow_insecure_loopback,
    spec_tarball_url_trusted,
};
use crate::text::{
    chars_starts_with, starts_with, str_chars, str_to_string, string_append, string_from_chars,
    trim_end_char, trim_end_char_chars,
};
use crate::types::{ResolvedPackage, unscoped, unscoped_name};

verus! {

/// The registry's conventional tarball location
/// `<registry>/<name>/-/<unscoped name>-<version>.tgz`.
pub open spec fn registry_tarball_url(registry: Seq<char>, name: Seq<char>, version: Seq<char>) -> Seq<char> {
    trim_end_char(registry, '/') + "/"@ + name + "/-/"@ + unscoped(name) + "-"@ + version + ".tgz"@
}

/// The URL used for a package: its recorded tarball URL when that is https
/// (or loopback http) and trusted for the registry, else the registry's
/// conventional location.
pub open spec fn spec_package_tarball_url(
    registry: Seq<char>,
    pkg: ResolvedPackage,
    allowed_hosts: Option<Seq<char>>,
) -> Seq<char> {
    let url = pkg.tarball_url@;
    if url.len() > 0 && (starts_with(url, "https://"@) || spec_allow_insecure_loopback(url))
        && spec_tarball_url_trusted(url, registry, allowed_hosts) {
        url
    } else {
        registry_tarball_url(registry, pkg.id.name@, pkg.id.version@)
    }
}

/// A package is downloaded from its recorded URL or, without a usable one
/// (in particular with none recorded), from the registry's conventional
/// location: the registry without trailing `/`, then `/<name>/-/`, then the
/// unscoped name, `-`, the version and `.tgz` (for `lodash@4.17.21` on
/// `https://registry.npmjs.org`:
/// `https://registry.npmjs.org/lodash/-/lodash-4.17.21.tgz`).
pub proof fn law_tarball_url_location(registry: Seq<char>, pkg: ResolvedPackage, allowed_hosts: Option<Seq<char>>)
    ensures
        pkg.tarball_url@.len() == 0 ==> spec_package_tarball_url(registry, pkg, allowed_hosts)
            == trim_end_char(registry, '/') + "/"@ + pkg.id.name@ + "/-/"@ + unscoped(pkg.id.name@) + "-"@
            + pkg.id.version@ + ".tgz"@,
        spec_package_tarball_url(registry, pkg, allowed_hosts) == pkg.tarball_url@
            || spec_package_tarball_url(registry, pkg, allowed_hosts) == trim_end_char(registry, '/')
            + "/"@ + pkg.id.name@ + "/-/"@ + unscoped(pkg.id.name@) + "-"@ + pkg.id.version@ + ".tgz"@,
{
}

fn fallback_url(registry_url: &str, pkg: &ResolvedPackage) -> (r: String)
    ensures
        r@ == registry_tarball_url(registry_url@, pkg.id.name@, pkg.id.version@),
{
    let base = trim_end_char_chars(&str_chars(registry_url), '/');
    let mut s = string_from_chars(&base);
    string_append(&mut s, "/");
    string_append(&mut s, pkg.id.name.as_str());
    string_append(&mut s, "/-/");
    let u = string_from_chars(&unscoped_name(pkg.id.name.as_str()));
    string_append(&mut s, u.as_str());
    string_append(&mut s, "-");
    string_append(&mut s, pkg.id.version.as_str());
    string_append(&mut s, ".tgz");
    s
}

/// Tarball download URL for a package (recorded URL validated for scheme
/// and host trust, registry convention otherwise).
pub fn package_tarball_url(
    registry_url: &str,
    pkg: &ResolvedPackage,
    allowed_hosts: Option<&str>,
) -> (r: String)
    ensures
        r@ == spec_package_tarball_url(registry_url@, *pkg, opt_view(allowed_hosts)),
        pkg.tarball_url@.len() == 0 ==> r@ == trim_end_char(registry_url@, '/') + "/"@ + pkg.id.name@
            + "/-/"@ + unscoped(pkg.id.name@) + "-"@ + pkg.id.version@ + ".tgz"@,
        r@ == pkg.tarball_url@ || r@ == trim_end_char(registry_url@, '/') + "/"@ + pkg.id.name@ + "/-/"@
            + unscoped(pkg.id.name@) + "-"@ + pkg.id.version@ + ".tgz"@,
{
    proof {
        law_tarball_url_location(registry_url@, *pkg, opt_view(allowed_hosts));
    }
    let url = pkg.tarball_url.as_str();
    if url.is_empty() {
        return fallback_url(registry_url, pkg);
    }
    if !chars_starts_with(&str_chars(url), &str_chars("https://")) && !allow_insecure_loopback_url(
        url,
    ) {
        return fallback_url(registry_url, pkg);
    }
    if !is_tarball_url_trusted(url, registry_url, allowed_hosts) {
        return fallback_url(registry_url, pkg);
    }
    pkg.tarball_url.clone()
}

} // verus!
