//! The bounded view of a long list: its head and its last few members.
//!
//! A list of `total` members is shown whole where `total` is at most
//! `limit`. A longer one is shown by `limit` of its members: the first
//! `limit - last_n` and the last `last_n`.

use vstd::prelude::*;

verus! {

/// The number of members shown of a list of `total`.
pub open spec fn sample_len(total: nat, limit: nat) -> nat {
    if total <= limit {
        total
    } else {
        limit
    }
}

/// The index in the list of the member shown at position `i`.
pub open spec fn sample_index(total: nat, limit: nat, last_n: nat, i: nat) -> nat {
    if total <= limit || i < limit - last_n {
        i
    } else {
        (total - limit + i) as nat
    }
}

/// In the sample of a list longer than `limit`, the last `last_n`
/// positions show the last `last_n` members of the list: position
/// `limit - last_n + k` shows the member at index `total - last_n + k`,
/// whose place counted from 1 is `total - last_n + k + 1`. The positions
/// before them show the list's first members.
pub proof fn lemma_sample_ends(total: nat, limit: nat, last_n: nat, k: nat)
    requires
        last_n <= limit < total,
    ensures
        k < last_n ==> sample_index(total, limit, last_n, (limit - last_n + k) as nat) == total
            - last_n + k,
        k < limit - last_n ==> sample_index(total, limit, last_n, k) == k,
{
}

/// Every position of a sample shows a member of the list, and later
/// positions show later members.
pub proof fn lemma_sample_in_range(total: nat, limit: nat, last_n: nat, i: nat, j: nat)
    requires
        last_n <= limit,
        i < j < sample_len(total, limit),
    ensures
        sample_index(total, limit, last_n, i) < sample_index(total, limit, last_n, j) < total,
{
}

} // verus!
