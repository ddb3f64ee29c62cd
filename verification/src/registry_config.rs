//! Which registry endpoint the adapter talks to, and whether it is allowed.

use vstd::prelude::*;
use crate::env_config::opt_view;
use crate::audit::{allow_insecure_loopback_url, spec_allow_insecure_loopback};
use crate::text::{
    chars_eq, chars_starts_with, comma_items, comma_items_chars, starts_with, str_chars,
    str_to_string, string_from_chars, trim, trim_chars, trim_end_char, trim_end_char_chars,
    vecs_view,
};

verus! {

/// Why a registry URL was refused.
#[derive(Debug, Clone)]
pub enum RegistryUrlError {
    /// Neither `https://` nor plain http to the loopback host.
    NotHttps { url: String },
    /// Not in the configured allow-list.
    NotAllowed { url: String, allowed: String },
}

pub enum RegistryUrlErrorView {
    NotHttps(Seq<char>),
    NotAllowed(Seq<char>, Seq<char>),
}

impl RegistryUrlError {
    pub open spec fn view(self) -> RegistryUrlErrorView {
        match self {
            RegistryUrlError::NotHttps { url } => RegistryUrlErrorView::NotHttps(url@),
            RegistryUrlError::NotAllowed { url, allowed } => RegistryUrlErrorView::NotAllowed(
                url@,
                allowed@,
            ),
        }
    }
}

/// Whether `url` (trailing slashes ignored) is one of the allow-list items
/// (their trailing slashes ignored too).
pub open spec fn registry_listed(allowed: Seq<char>, url: Seq<char>) -> bool {
    exists|i: int|
        0 <= i < comma_items(allowed).len() && #[trigger] trim_end_char(comma_items(allowed)[i], '/')
            == trim_end_char(url, '/')
}

/// An absent or blank allow-list allows every registry.
pub open spec fn spec_registry_allowed(url: Seq<char>, allowed: Option<Seq<char>>) -> bool {
    match allowed {
        None => true,
        Some(list) => comma_items(list).len() == 0 || registry_listed(list, url),
    }
}

pub open spec fn unit_result_view(r: Result<(), RegistryUrlError>) -> Result<(), RegistryUrlErrorView> {
    match r {
        Ok(()) => Ok(()),
        Err(e) => Err(e.view()),
    }
}

/// Checks a registry URL against the comma-separated allow-list
/// (`MAGICORE_WEB_ALLOWED_REGISTRIES`).
pub fn validate_registry_allowed(url: &str, allowed: Option<&str>) -> (r: Result<(), RegistryUrlError>)
    ensures
        unit_result_view(r) == (if spec_registry_allowed(url@, opt_view(allowed)) {
            Ok::<(), RegistryUrlErrorView>(())
        } else {
            Err(RegistryUrlErrorView::NotAllowed(url@, allowed->0@))
        }),
{
    let list = match allowed {
        None => return Ok(()),
        Some(list) => list,
    };
    let items = comma_items_chars(&str_chars(list));
    let ghost ci = comma_items(list@);
    if items.len() == 0 {
        return Ok(());
    }
    let normalized = trim_end_char_chars(&str_chars(url), '/');
    let mut i: usize = 0;
    while i < items.len()
        invariant
            i <= items.len(),
            vecs_view(items@) == ci,
            ci == comma_items(list@),
            opt_view(allowed) == Some(list@),
            normalized@ == trim_end_char(url@, '/'),
            forall|k: int| 0 <= k < i ==> #[trigger] trim_end_char(ci[k], '/') != normalized@,
        decreases items.len() - i,
    {
        let a = trim_end_char_chars(&items[i], '/');
        proof {
            assert(ci[i as int] == items@[i as int]@);
        }
        if chars_eq(&a, &normalized) {
            proof {
                assert(trim_end_char(ci[i as int], '/') == trim_end_char(url@, '/'));
                assert(registry_listed(list@, url@));
            }
            return Ok(());
        }
        i = i + 1;
    }
    proof {
        assert(!registry_listed(list@, url@));
    }
    Err(RegistryUrlError::NotAllowed { url: str_to_string(url), allowed: str_to_string(list) })
}

/// The registry URL in effect: the trimmed override when non-blank, else
/// the default.
pub open spec fn chosen_registry(default: Seq<char>, override_value: Option<Seq<char>>) -> Seq<char> {
    match override_value {
        Some(v) if trim(v).len() > 0 => trim(v),
        _ => default,
    }
}

pub open spec fn spec_effective_registry_url(
    default: Seq<char>,
    override_value: Option<Seq<char>>,
    allowed: Option<Seq<char>>,
) -> Result<Seq<char>, RegistryUrlErrorView> {
    let url = chosen_registry(default, override_value);
    if !starts_with(url, "https://"@) && !spec_allow_insecure_loopback(url) {
        Err(RegistryUrlErrorView::NotHttps(url))
    } else if !spec_registry_allowed(url, allowed) {
        Err(RegistryUrlErrorView::NotAllowed(url, allowed->0))
    } else {
        Ok(url)
    }
}

/// The registry in effect is never an unsafe one: whenever a URL is
/// accepted it starts with `https://` (or is plain http to the loopback
/// host) and it is allowed by the allow-list; and an override that is not
/// blank is the URL used or the reason for a refusal.
pub proof fn law_effective_registry_is_safe(
    default: Seq<char>,
    override_value: Option<Seq<char>>,
    allowed: Option<Seq<char>>,
)
    ensures
        spec_effective_registry_url(default, override_value, allowed) matches Ok(url) ==> (
        starts_with(url, "https://"@) || spec_allow_insecure_loopback(url)) && spec_registry_allowed(
            url,
            allowed,
        ),
        override_value.is_some() && trim(override_value.unwrap()).len() > 0 ==> match spec_effective_registry_url(
            default,
            override_value,
            allowed,
        ) {
            Ok(url) => url == trim(override_value.unwrap()),
            Err(RegistryUrlErrorView::NotHttps(url)) => url == trim(override_value.unwrap()),
            Err(RegistryUrlErrorView::NotAllowed(url, _)) => url == trim(override_value.unwrap()),
        },
{
}

pub open spec fn url_result_view(r: Result<String, RegistryUrlError>) -> Result<Seq<char>, RegistryUrlErrorView> {
    match r {
        Ok(u) => Ok(u@),
        Err(e) => Err(e.view()),
    }
}

/// Picks the registry URL (`MAGICORE_WEB_REGISTRY_URL` override or the
/// default) and refuses plain http (except loopback) and registries outside
/// the allow-list.
pub fn effective_registry_url(
    default: &str,
    override_value: Option<&str>,
    allowed: Option<&str>,
) -> (r: Result<String, RegistryUrlError>)
    ensures
        url_result_view(r) == spec_effective_registry_url(
            default@,
            opt_view(override_value),
            opt_view(allowed),
        ),
{
    let url = match override_value {
        Some(v) => {
            let t = trim_chars(&str_chars(v));
            if t.len() > 0 {
                string_from_chars(&t)
            } else {
                str_to_string(default)
            }
        },
        None => str_to_string(default),
    };
    let https = str_chars("https://");
    if !chars_starts_with(&str_chars(url.as_str()), &https) && !allow_insecure_loopback_url(
        url.as_str(),
    ) {
        return Err(RegistryUrlError::NotHttps { url });
    }
    match validate_registry_allowed(url.as_str(), allowed) {
        Ok(()) => Ok(url),
        Err(e) => Err(e),
    }
}

} // verus!
