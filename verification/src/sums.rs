//! Sums of coin values by denomination.

use vstd::prelude::*;
use crate::coins::{CoinDataView, Denom};
use crate::hashes::CoinId;
use crate::table::{distinct_keys, has_key, lemma_upserted, lookup, upserted, Entry, Table};

verus! {

/// Sums of values by denomination.
pub type Sums = Seq<Entry<Denom, u128>>;

/// The sum recorded for a denomination, 0 where none is.
pub open spec fn amount(s: Sums, d: Denom) -> u128 {
    match lookup(s, d) {
        Some(v) => v,
        None => 0,
    }
}

/// The sums after `v` was added to that of `d`; `None` where the sum does
/// not fit in 128 bits.
pub open spec fn credited(s: Sums, d: Denom, v: u128) -> Option<Sums> {
    if amount(s, d) + v > u128::MAX {
        None
    } else {
        Some(upserted(s, Entry { key: d, value: (amount(s, d) + v) as u128 }))
    }
}

/// Adds `v` to the sum of `d`, unless the sum would not fit in 128 bits.
pub fn credit(sums: &mut Table<Denom, u128>, d: Denom, v: u128) -> (ok: bool)
    requires
        old(sums).wf(),
    ensures
        final(sums).wf(),
        match credited(old(sums)@, d, v) {
            Some(s) => ok && final(sums)@ == s,
            None => !ok && final(sums)@ == old(sums)@,
        },
{
    let current = match sums.get(&d) {
        Some(x) => *x,
        None => 0,
    };
    match current.checked_add(v) {
        Some(total) => {
            sums.put(d, total);
            true
        },
        None => false,
    }
}

/// The sum recorded for a denomination, 0 where none is.
pub fn amount_of(sums: &Table<Denom, u128>, d: &Denom) -> (r: u128)
    requires
        sums.wf(),
    ensures
        r == amount(sums@, *d),
{
    match sums.get(d) {
        Some(x) => *x,
        None => 0,
    }
}

/// `a + b`, or the largest 128-bit number where the sum is larger.
pub open spec fn saturating_sum(a: u128, b: u128) -> u128 {
    if a + b > u128::MAX {
        u128::MAX
    } else {
        (a + b) as u128
    }
}

/// The sums by denomination of the first `n` coins of a listing, each sum
/// saturating. The denominations stand in the order of their first coin.
pub open spec fn tallied(coins: Seq<Entry<CoinId, CoinDataView>>, n: int) -> Sums
    decreases n,
{
    if n <= 0 {
        Seq::empty()
    } else {
        let s = tallied(coins, n - 1);
        let c = coins[n - 1].value;
        upserted(s, Entry { key: c.denom, value: saturating_sum(amount(s, c.denom), c.value) })
    }
}

/// The sum of the values of the coins of denomination `d` among the first
/// `n` coins of a listing.
pub open spec fn total_value(coins: Seq<Entry<CoinId, CoinDataView>>, d: Denom, n: int) -> int
    decreases n,
{
    if n <= 0 {
        0
    } else if coins[n - 1].value.denom == d {
        total_value(coins, d, n - 1) + coins[n - 1].value.value
    } else {
        total_value(coins, d, n - 1)
    }
}

/// A tally holds each denomination once, and under it the sum of the
/// values of its coins, or the largest 128-bit number where the sum is
/// larger.
pub proof fn lemma_tallied(coins: Seq<Entry<CoinId, CoinDataView>>, n: int, d: Denom)
    requires
        0 <= n <= coins.len(),
    ensures
        distinct_keys(tallied(coins, n)),
        total_value(coins, d, n) >= 0,
        amount(tallied(coins, n), d) == (if total_value(coins, d, n) > u128::MAX {
            u128::MAX as int
        } else {
            total_value(coins, d, n)
        }),
        has_key(tallied(coins, n), d) <==> exists|i: int|
            0 <= i < n && (#[trigger] coins[i]).value.denom == d,
    decreases n,
{
    if n > 0 {
        lemma_tallied(coins, n - 1, d);
        let s = tallied(coins, n - 1);
        let c = coins[n - 1].value;
        lemma_tallied(coins, n - 1, c.denom);
        let e = Entry { key: c.denom, value: saturating_sum(amount(s, c.denom), c.value) };
        lemma_upserted(s, e);
        assert(lookup(upserted(s, e), d) == (if d == e.key {
            Some(e.value)
        } else {
            lookup(s, d)
        }));
        if has_key(tallied(coins, n), d) {
            if d == c.denom {
                assert(coins[n - 1].value.denom == d);
            } else {
                let i = choose|i: int| 0 <= i < n - 1 && (#[trigger] coins[i]).value.denom == d;
                assert(0 <= i < n && coins[i].value.denom == d);
            }
        }
        if exists|i: int| 0 <= i < n && (#[trigger] coins[i]).value.denom == d {
            let i = choose|i: int| 0 <= i < n && (#[trigger] coins[i]).value.denom == d;
            if i < n - 1 {
                assert(has_key(s, d));
            }
        }
    }
}

} // verus!
