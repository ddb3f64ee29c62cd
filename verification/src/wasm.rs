//! The provenance lane for WebAssembly artifacts of a web project: which
//! files it looks at and what makes one a genuine wasm module.

use vstd::prelude::*;
use crate::text::{chars_ends_with, chars_eq, ends_with, str_chars, str_to_string, string_append};

verus! {

/// At most this many artifacts are collected.
pub const WASM_SCAN_MAX_FILES: usize = 200;

/// Directories the artifact search does not enter (and files it ignores):
/// dependencies, build output, version control and the tool's own state.
pub open spec fn spec_wasm_scan_skips(name: Seq<char>) -> bool {
    name == "node_modules"@ || name == "target"@ || name == ".git"@ || name == ".magicore"@
}

pub fn wasm_scan_skips(name: &str) -> (r: bool)
    ensures
        r == spec_wasm_scan_skips(name@),
{
    let n = str_chars(name);
    chars_eq(&n, &str_chars("node_modules")) || chars_eq(&n, &str_chars("target")) || chars_eq(
        &n,
        &str_chars(".git"),
    ) || chars_eq(&n, &str_chars(".magicore"))
}

/// A file named `*.wasm`.
pub fn is_wasm_artifact_name(name: &str) -> (r: bool)
    ensures
        r == ends_with(name@, ".wasm"@),
{
    chars_ends_with(&str_chars(name), &str_chars(".wasm"))
}

/// A genuine module: at least eight bytes, starting with `\0asm`.
pub open spec fn spec_wasm_header_valid(bytes: Seq<u8>) -> bool {
    bytes.len() >= 8 && bytes[0] == 0u8 && bytes[1] == 0x61u8 && bytes[2] == 0x73u8 && bytes[3]
        == 0x6du8
}

pub open spec fn unreadable_message(path: Seq<char>) -> Seq<char> {
    "cannot read wasm artifact "@ + path
}

pub open spec fn bad_header_message(path: Seq<char>) -> Seq<char> {
    path + " is not a valid wasm module (bad magic header) \u{2014} provenance cannot be verified"@
}

/// The verdict on one artifact, given its bytes (`None` when they could
/// not be read): passed, or the reason the lane fails.
pub fn wasm_artifact_verdict(path: &str, bytes: Option<&[u8]>) -> (r: Result<(), String>)
    ensures
        match bytes {
            None => r matches Err(m) && m@ == unreadable_message(path@),
            Some(b) => if spec_wasm_header_valid(b@) {
                r is Ok
            } else {
                r matches Err(m) && m@ == bad_header_message(path@)
            },
        },
{
    match bytes {
        None => {
            let mut m = str_to_string("cannot read wasm artifact ");
            string_append(&mut m, path);
            Err(m)
        },
        Some(b) => {
            if b.len() >= 8 && b[0] == 0u8 && b[1] == 0x61u8 && b[2] == 0x73u8 && b[3] == 0x6du8 {
                Ok(())
            } else {
                let mut m = str_to_string(path);
                string_append(
                    &mut m,
                    " is not a valid wasm module (bad magic header) \u{2014} provenance cannot be verified",
                );
                Err(m)
            }
        },
    }
}

} // verus!
