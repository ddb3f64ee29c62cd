//! Plain-value models of the resolved dependency graph that the install
//! pipeline works on.

use vstd::prelude::*;

verus! {

/// A package name with an exact version (`name@version`).
#[derive(Debug, Clone)]
pub struct PackageId {
    pub name: String,
    pub version: String,
}

/// One package of a resolved graph.
#[derive(Debug, Clone)]
pub struct ResolvedPackage {
    pub id: PackageId,
    /// SRI integrity string (`sha512-…`), empty when unknown.
    pub integrity: String,
    /// Registry tarball URL, empty when unknown.
    pub tarball_url: String,
    pub deps: Vec<PackageId>,
    pub peer_deps: Vec<PackageId>,
    pub direct: bool,
    pub dev: bool,
}

/// The packages a resolution produced, in order.
#[derive(Debug, Clone)]
pub struct ResolvedGraph {
    pub packages: Vec<ResolvedPackage>,
}

} // verus!

verus! {

/// A package name without its `@scope/` prefix (`@types/node` → `node`).
pub open spec fn unscoped(name: Seq<char>) -> Seq<char> {
    if name.len() > 0 && name[0] == '@' {
        match crate::text::find_char(name, '/') {
            Some(i) => name.skip(i + 1),
            None => name,
        }
    } else {
        name
    }
}

pub fn unscoped_name(name: &str) -> (r: Vec<char>)
    ensures
        r@ == unscoped(name@),
{
    let chars = crate::text::str_chars(name);
    if chars.len() > 0 && chars[0] == '@' {
        match crate::text::find_char_index(&chars, '/') {
            Some(i) => crate::text::sub_chars(&chars, i + 1, chars.len()),
            None => chars,
        }
    } else {
        chars
    }
}

} // verus!
