//! Slash-separated path strings (Unix `PathBuf::join` semantics).

use vstd::prelude::*;
use crate::text::{str_chars, str_to_string, string_append, string_from_chars};

verus! {

/// `base.join(seg)`: an absolute `seg` replaces `base`; otherwise `seg` is
/// appended after a `/` unless `base` is empty or already ends in `/`.
pub open spec fn path_join(base: Seq<char>, seg: Seq<char>) -> Seq<char> {
    if seg.len() > 0 && seg[0] == '/' {
        seg
    } else if base.len() == 0 || base.last() == '/' {
        base + seg
    } else {
        base + "/"@ + seg
    }
}

pub fn join(base: &str, seg: &str) -> (r: String)
    ensures
        r@ == path_join(base@, seg@),
{
    let b = str_chars(base);
    let s = str_chars(seg);
    if s.len() > 0 && s[0] == '/' {
        return str_to_string(seg);
    }
    let mut out = str_to_string(base);
    if !(b.len() == 0 || b[b.len() - 1] == '/') {
        string_append(&mut out, "/");
    }
    string_append(&mut out, seg);
    proof {
        if b@.len() == 0 || b@.last() == '/' {
            assert(out@ == base@ + seg@);
        }
    }
    out
}

} // verus!
