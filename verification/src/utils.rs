//! Small text utilities.
use vstd::prelude::*;
use crate::text::{chars_of, push_range};

verus! {

/// `s` cut to its first `n` characters with `...` after them, if it is longer
/// than `n` characters; otherwise `s` itself.
pub open spec fn truncated(s: Seq<char>, n: nat) -> Seq<char> {
    if s.len() > n {
        s.take(n as int) + "..."@
    } else {
        s
    }
}

/// The number of characters that `truncate_string` keeps when given none.
pub const DEFAULT_TRUNCATE_CHARS: usize = 20;

/// `ss` cut to `num_chars` characters (20 when `None`) followed by `...`, if
/// it is longer than that; otherwise a copy of `ss`.
pub fn truncate_string(ss: &String, num_chars: Option<usize>) -> (r: String)
    ensures
        r@ == truncated(
            ss@,
            match num_chars {
                Some(n) => n as nat,
                None => DEFAULT_TRUNCATE_CHARS as nat,
            },
        ),
{
    let n = match num_chars {
        Some(n) => n,
        None => DEFAULT_TRUNCATE_CHARS,
    };
    let chars = chars_of(ss.as_str());
    if chars.len() > n {
        let mut s = String::new();
        push_range(&mut s, &chars, 0, n);
        s.append("...");
        assert(s@ =~= ss@.take(n as int) + "..."@);
        s
    } else {
        ss.clone()
    }
}

} // verus!
