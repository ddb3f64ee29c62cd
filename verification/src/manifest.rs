//! Reading `package.json`: its size limit, and the dependency entries the
//! resolver takes (ranges of the `workspace:` protocol are left out).

use vstd::prelude::*;
use crate::order::pairs_view;
use crate::text::{
    chars_starts_with, push_decimal, spec_decimal, starts_with, str_chars, str_to_string, string_append,
    trim, trim_chars,
};

verus! {

/// A `workspace:` range (`workspace:*`, `workspace:^`, `workspace:1.2.3`, …)
/// names a sibling package of the workspace, never a registry version.
pub open spec fn spec_is_workspace_range(range: Seq<char>) -> bool {
    starts_with(trim(range), "workspace:"@)
}

pub fn is_workspace_protocol_range(range: &str) -> (r: bool)
    ensures
        r == spec_is_workspace_range(range@),
{
    let r = trim_chars(&str_chars(range));
    chars_starts_with(&r, &str_chars("workspace:"))
}

/// The largest `package.json` read: 10 MiB.
pub const MAX_MANIFEST_SIZE: u64 = 10485760;

pub open spec fn too_large_message(len: u64) -> Seq<char> {
    "package.json is too large ("@ + spec_decimal(len as nat) + " bytes, max "@ + spec_decimal(
        MAX_MANIFEST_SIZE as nat,
    ) + ")"@
}

/// Refuses a `package.json` of more than [`MAX_MANIFEST_SIZE`] bytes.
pub fn check_manifest_size(len: u64) -> (r: Result<(), String>)
    ensures
        len <= MAX_MANIFEST_SIZE ==> r is Ok,
        len > MAX_MANIFEST_SIZE ==> (r matches Err(m) && m@ == too_large_message(len)),
{
    if len <= MAX_MANIFEST_SIZE {
        return Ok(());
    }
    let mut m = str_to_string("package.json is too large (");
    push_decimal(&mut m, len);
    string_append(&mut m, " bytes, max ");
    push_decimal(&mut m, MAX_MANIFEST_SIZE);
    string_append(&mut m, ")");
    Err(m)
}

/// The refusal when a project has no `package.json`.
pub fn missing_manifest_error(project_root: &str) -> (r: String)
    ensures
        r@ == "No package.json in '"@ + project_root@ + "'. Run 'mg init --template web' first."@,
{
    let mut m = str_to_string("No package.json in '");
    string_append(&mut m, project_root);
    string_append(&mut m, "'. Run 'mg init --template web' first.");
    m
}

pub open spec fn non_workspace(entries: Seq<(String, String)>) -> Seq<(Seq<char>, Seq<char>)>
    decreases entries.len(),
{
    if entries.len() == 0 {
        Seq::empty()
    } else {
        let r = non_workspace(entries.drop_last());
        let e = entries.last();
        if spec_is_workspace_range(e.1@) {
            r
        } else {
            r.push((e.0@, e.1@))
        }
    }
}

/// The (name, range) entries of a dependency group that the resolver
/// takes, in order: all but those with a `workspace:` range.
pub fn resolvable_dependencies(entries: &Vec<(String, String)>) -> (r: Vec<(String, String)>)
    ensures
        pairs_view(r@) == non_workspace(entries@),
{
    let mut out: Vec<(String, String)> = Vec::new();
    let mut i: usize = 0;
    proof {
        assert(entries@.take(0) =~= Seq::<(String, String)>::empty());
        assert(pairs_view(out@) =~= Seq::<(Seq<char>, Seq<char>)>::empty());
    }
    while i < entries.len()
        invariant
            i <= entries.len(),
            pairs_view(out@) == non_workspace(entries@.take(i as int)),
        decreases entries.len() - i,
    {
        proof {
            assert(entries@.take(i + 1).drop_last() =~= entries@.take(i as int));
            assert(entries@.take(i + 1).last() == entries@[i as int]);
        }
        if !is_workspace_protocol_range(entries[i].1.as_str()) {
            let ghost before = out@;
            out.push((str_to_string(entries[i].0.as_str()), str_to_string(entries[i].1.as_str())));
            proof {
                assert(pairs_view(out@) =~= pairs_view(before).push((entries@[i as int].0@, entries@[i as int].1@)));
            }
        }
        i = i + 1;
    }
    proof {
        assert(entries@.take(entries.len() as int) =~= entries@);
    }
    out
}

} // verus!

