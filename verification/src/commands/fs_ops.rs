//! Path helpers.
use vstd::prelude::*;

use crate::text::{chars_of, skip_chars, starts_with, string_of};

verus! {

/// Filesystem helpers.
pub struct FsOps;

/// `path` without one leading `./`.
pub open spec fn normalized(path: Seq<char>) -> Seq<char> {
    if path.len() >= 2 && path[0] == '.' && path[1] == '/' {
        path.skip(2)
    } else {
        path
    }
}

impl FsOps {
    /// `path` without one leading `./`.
    pub fn normalize_path(path: &str) -> (res: String)
        ensures
            res@ == normalized(path@),
    {
        let cs = chars_of(path);
        let prefix = chars_of("./");
        proof {
            reveal_strlit("./");
        }
        assert(prefix@.len() == 2 && prefix@[0] == '.' && prefix@[1] == '/');
        assert(cs@.len() >= 2 && cs@[0] == '.' && cs@[1] == '/' ==> cs@.take(2) =~= prefix@);
        if starts_with(&cs, &prefix) {
            assert(cs@.take(2)[0] == '.' && cs@.take(2)[1] == '/');
            let rest = skip_chars(&cs, 2);
            string_of(&rest)
        } else {
            string_of(&cs)
        }
    }
}

} // verus!
