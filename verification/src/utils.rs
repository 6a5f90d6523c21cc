//! Helpers for showing text.

use vstd::prelude::*;
use vstd::string::*;

verus! {

/// `s` cut to at most `max_chars` characters: `s` itself where it is short
/// enough, and otherwise its first `max_chars - 3` characters (none where
/// `max_chars` is below 3) followed by three dots.
pub open spec fn truncated(s: Seq<char>, max_chars: nat) -> Seq<char> {
    if s.len() <= max_chars {
        s
    } else if max_chars >= 3 {
        s.subrange(0, max_chars - 3) + "..."@
    } else {
        "..."@
    }
}

/// Cuts `s` to at most `max_chars` characters, three dots marking the cut.
/// Characters are counted, not bytes.
pub fn truncate(s: &str, max_chars: usize) -> (r: String)
    ensures
        r@ == truncated(s@, max_chars as nat),
{
    let n = s.unicode_len();
    if n <= max_chars {
        s.to_owned()
    } else {
        let keep: usize = if max_chars >= 3 {
            max_chars - 3
        } else {
            0
        };
        let head = s.substring_char(0, keep);
        let r = String::from_str(head).concat("...");
        assert(s@.subrange(0, 0) + "..."@ =~= "..."@);
        r
    }
}

} // verus!
