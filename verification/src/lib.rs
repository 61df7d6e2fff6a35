pub mod cache;
pub mod relay;
pub mod rewrite;

use vstd::prelude::*;

verus! {

/// The reserved display name under which every repost identity is created.
pub open spec fn reserved_name() -> Seq<char> {
    seq!['v', 'x', 'b', 'o', 't']
}

/// True exactly when `s` is the reserved repost-identity name.
pub fn is_reserved_name(s: &str) -> (r: bool)
    ensures
        r == (s@ == reserved_name()),
{
    let n = s.unicode_len();
    if n != 5 {
        return false;
    }
    let r = s.get_char(0) == 'v' && s.get_char(1) == 'x' && s.get_char(2) == 'b' && s.get_char(3)
        == 'o' && s.get_char(4) == 't';
    proof {
        if r {
            assert(s@ =~= reserved_name());
        }
    }
    r
}

} // verus!
