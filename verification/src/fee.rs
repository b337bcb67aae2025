//! The total fee of a batch of transactions, rounded down to a value that
//! the amount codec holds exactly.

use vstd::prelude::*;
use crate::error::TxError;
use crate::float::{closest_packable, encode_float_spec, packable_floor};

verus! {

/// The sum of a sequence of fees.
pub open spec fn sum_of(fees: Seq<u128>) -> nat
    decreases fees.len(),
{
    if fees.len() == 0 {
        0
    } else {
        sum_of(fees.drop_last()) + fees.last() as nat
    }
}

/// What the total of a batch is: `EncodingOverflow` where the sum is more
/// than 128 bits hold, `AmountTooLarge` where the sum cannot be encoded, and
/// else the sum rounded down to what encoding keeps.
pub open spec fn batch_fee_spec(fees: Seq<u128>, exp_w: nat, mant_w: nat, base: nat) -> Result<
    nat,
    TxError,
> {
    if sum_of(fees) > u128::MAX {
        Err(TxError::EncodingOverflow)
    } else if encode_float_spec(sum_of(fees), exp_w, mant_w, base) is Err {
        Err(TxError::AmountTooLarge)
    } else {
        Ok(packable_floor(sum_of(fees), mant_w, base))
    }
}

/// The sum of the fees, or `None` where it is more than 128 bits hold.
pub fn sum_fees(fees: &Vec<u128>) -> (r: Option<u128>)
    ensures
        r == if sum_of(fees@) <= u128::MAX {
            Some(sum_of(fees@) as u128)
        } else {
            None
        },
{
    let mut total: u128 = 0;
    let mut i: usize = 0;
    assert(fees@.take(0) =~= Seq::<u128>::empty());
    while i < fees.len()
        invariant
            i <= fees@.len(),
            total == sum_of(fees@.take(i as int)),
        decreases fees@.len() - i,
    {
        proof {
            assert(fees@.take(i + 1).drop_last() =~= fees@.take(i as int));
            lemma_sum_grows(fees@, i + 1);
        }
        match total.checked_add(fees[i]) {
            Some(next) => {
                total = next;
            },
            None => {
                return None;
            },
        }
        i += 1;
    }
    assert(fees@.take(fees@.len() as int) =~= fees@);
    Some(total)
}

/// The sum of a prefix is at most the sum of the whole sequence.
pub proof fn lemma_sum_grows(fees: Seq<u128>, n: int)
    requires
        0 <= n <= fees.len(),
    ensures
        sum_of(fees.take(n)) <= sum_of(fees),
    decreases fees.len() - n,
{
    if n == fees.len() {
        assert(fees.take(n) =~= fees);
    } else {
        lemma_sum_grows(fees, n + 1);
        assert(fees.take(n + 1).drop_last() =~= fees.take(n));
    }
}

/// The total fee of a batch: the sum of the single fees, rounded down to a
/// value that the codec holds exactly.
pub fn batch_fee(fees: &Vec<u128>, exp_w: usize, mant_w: usize, base: u32) -> (r: Result<
    u128,
    TxError,
>)
    requires
        base >= 2,
    ensures
        match r {
            Ok(total) => batch_fee_spec(fees@, exp_w as nat, mant_w as nat, base as nat) == Ok::<
                nat,
                TxError,
            >(total as nat),
            Err(e) => batch_fee_spec(fees@, exp_w as nat, mant_w as nat, base as nat) == Err::<
                nat,
                TxError,
            >(e),
        },
{
    match sum_fees(fees) {
        None => Err(TxError::EncodingOverflow),
        Some(total) => closest_packable(total, exp_w, mant_w, base),
    }
}

} // verus!
