//! The row-diff gadget: a sound equality flag between adjacent rows.
//!
//! For a column that must not decrease across rows, the witness carries per
//! row a `same` flag and the multiplicative inverse of the difference to the
//! previous row.  The constraints `diff*inv = 1 - same` and
//! `diff*same = 0`, with `same` boolean, make `same` a sound equality
//! flag without a native comparison: no choice of inverse can make the
//! flag lie about a nonzero difference.

use vstd::prelude::*;
use vstd::arithmetic::div_mod::{lemma_mod_multiples_vanish, lemma_small_mod};

verus! {

/// The `same` column of the row-diff gadget for one data column: row 0 is
/// never equal to its (absent) predecessor, row `i > 0` repeats whether the
/// data stayed the same.
pub fn same_flags(data: &Vec<u64>) -> (r: Vec<bool>)
    ensures
        r@.len() == data@.len(),
        forall|i: int| 0 < i < r@.len() ==> r@[i] == (data@[i] == data@[i - 1]),
        r@.len() > 0 ==> r@[0] == false,
{
    let mut r: Vec<bool> = Vec::new();
    let n = data.len();
    for i in 0..n
        invariant
            n == data@.len(),
            r@.len() == i,
            forall|q: int| 0 < q < i ==> r@[q] == (data@[q] == data@[q - 1]),
            i > 0 ==> r@[0] == false,
    {
        if i == 0 {
            r.push(false);
        } else {
            r.push(data[i] == data[i - 1]);
        }
    }
    r
}

/// Soundness of the row-diff gate system modulo the field order `p`: if the
/// witnessed cells satisfy `diff*inv = 1 - same` and `diff*same = 0` with
/// `same` boolean, then `same` is 1 exactly when the difference is 0 -- no
/// choice of `inv` can make the flag lie.
pub proof fn lemma_row_diff_sound(p: int, diff: int, inv: int, same: int)
    requires
        p > 1,
        0 <= diff < p,
        0 <= inv < p,
        same == 0 || same == 1,
        (diff * inv) % p == (1 - same + p) % p,
        (diff * same) % p == 0,
    ensures
        same == 1 <==> diff == 0,
{
    if diff == 0 {
        assert((diff * inv) % p == 0) by {
            lemma_small_mod(0, p as nat);
        }
        if same == 0 {
            assert((1 - same + p) % p == 1) by {
                lemma_mod_multiples_vanish(1, 1, p);
                lemma_small_mod(1, p as nat);
            }
            assert(false);
        }
    } else {
        if same == 1 {
            assert((diff * same) % p == diff) by {
                lemma_small_mod(diff as nat, p as nat);
            }
            assert(false);
        }
    }
}

} // verus!
