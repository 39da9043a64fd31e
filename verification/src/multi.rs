//! Names of wallets kept as one file each.

use vstd::prelude::*;
use vstd::string::StrSliceExecFns;

verus! {

/// Whether a character may stand in a wallet's name: an ASCII letter, an
/// ASCII digit or an underscore.
pub open spec fn is_name_char(c: char) -> bool {
    ('a' <= c && c <= 'z') || ('A' <= c && c <= 'Z') || ('0' <= c && c <= '9') || c == '_'
}

/// Whether every character of `name` may stand in a wallet's name.
pub open spec fn spec_valid_wallet_name(name: Seq<char>) -> bool {
    forall|i: int| 0 <= i < name.len() ==> is_name_char(#[trigger] name[i])
}

/// Whether `name` is made of ASCII letters, ASCII digits and underscores
/// alone. The empty name is valid.
pub fn valid_wallet_name(name: &str) -> (r: bool)
    ensures
        r == spec_valid_wallet_name(name@),
{
    let n = name.unicode_len();
    let mut i: usize = 0;
    while i < n
        invariant
            n == name@.len(),
            i <= n,
            forall|j: int| 0 <= j < i ==> is_name_char(#[trigger] name@[j]),
        decreases n - i,
    {
        let c = name.get_char(i);
        let ok = ('a' <= c && c <= 'z') || ('A' <= c && c <= 'Z') || ('0' <= c && c <= '9') || c
            == '_';
        if !ok {
            assert(!is_name_char(name@[i as int]));
            return false;
        }
        i += 1;
    }
    true
}

} // verus!
