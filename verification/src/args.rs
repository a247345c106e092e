//! Flags of a `/top` invocation.

use vstd::prelude::*;

use crate::text::{chars_equal, chars_of, split_words, words};

verus! {

/// Parsed `/top` invocation flags.
#[derive(Debug, Default, Clone, Copy)]
pub struct TopArgs {
    /// Headless mode: take one snapshot, print a plain-text rendering and
    /// exit.
    pub once: bool,
}

impl TopArgs {
    /// Parse the argument string passed after `/top`: `--once` anywhere
    /// among the whitespace-separated words sets headless mode; other words
    /// are ignored.
    pub fn parse(args: &str) -> (r: TopArgs)
        ensures
            r.once == words(args@).contains("--once"@),
    {
        let ws = split_words(args);
        let flag = chars_of("--once");
        let mut once = false;
        let n = ws.len();
        for i in 0..n
            invariant
                n == ws@.len(),
                ws@.len() == words(args@).len(),
                forall|k: int| 0 <= k < ws@.len() ==> #[trigger] ws@[k]@ == words(args@)[k],
                flag@ == "--once"@,
                once <==> exists|k: int| 0 <= k < i && words(args@)[k] == "--once"@,
        {
            if chars_equal(&ws[i], &flag) {
                once = true;
            }
        }
        proof {
            if once {
                let k = choose|k: int| 0 <= k < n && words(args@)[k] == "--once"@;
                assert(words(args@)[k] == "--once"@);
            }
            if words(args@).contains("--once"@) {
                let k = choose|k: int| 0 <= k < words(args@).len() && words(args@)[k] == "--once"@;
                assert(0 <= k < n && words(args@)[k] == "--once"@);
            }
        }
        TopArgs { once }
    }
}

} // verus!
