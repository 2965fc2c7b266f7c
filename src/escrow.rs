//! Escrow arithmetic: how an attached payment is divided between the
//! beneficiary, the payer and the bookkeeping overhead.

use vstd::prelude::*;

verus! {

/// Default overhead kept back from every accepted ticket (one milli-NEAR, in yoctoNEAR).
pub const STORAGE_COST: u128 = 1_000_000_000_000_000_000_000;

/// Default processing allowance retained from the refund of a repeated entry.
pub const ADD_PART_CALL_COST: u128 = 1_000_000_000_000_000_000_000;

/// The split of `paid` against `price`: `(forward, refund)`, where `forward` goes to
/// the beneficiary and `refund` back to the payer; `None` when the payment is short.
pub open spec fn escrow_split(paid: u128, price: u128, storage_cost: u128) -> Option<(u128, u128)> {
    if paid < price {
        None
    } else {
        Some(((price - storage_cost) as u128, (paid - price) as u128))
    }
}

/// What a payer gets back when a repeated entry is refused: the payment less the
/// processing allowance, and nothing when the allowance eats it all.
pub open spec fn repeat_refund(paid: u128, allowance: u128) -> u128 {
    if paid <= allowance {
        0
    } else {
        (paid - allowance) as u128
    }
}

/// Splits a payment for a ticket costing `price`, of which `storage_cost` is kept
/// as overhead.
pub fn split(paid: u128, price: u128, storage_cost: u128) -> (r: Option<(u128, u128)>)
    requires
        storage_cost <= price,
    ensures
        r == escrow_split(paid, price, storage_cost),
        r is None <==> paid < price,
        r matches Some((forward, refund)) ==> forward + refund + storage_cost == paid,
{
    if paid < price {
        None
    } else {
        Some((price - storage_cost, paid - price))
    }
}

/// The refund owed on a repeated entry.
pub fn refund_repeat(paid: u128, allowance: u128) -> (r: u128)
    ensures
        r == repeat_refund(paid, allowance),
        r <= paid,
{
    if paid <= allowance {
        0
    } else {
        paid - allowance
    }
}

/// Escrow conserves funds: whenever the payment covers the price, the forwarded
/// amount, the refund and the storage overhead add up to exactly the payment.
pub proof fn lemma_split_conserves(paid: u128, price: u128, storage_cost: u128)
    requires
        storage_cost <= price,
        paid >= price,
    ensures
        escrow_split(paid, price, storage_cost) matches Some((forward, refund))
            && forward + refund + storage_cost == paid,
{
}

/// A short payment has no split: the caller has to refuse the entry.
pub proof fn lemma_short_payment_has_no_split(paid: u128, price: u128, storage_cost: u128)
    requires
        paid < price,
    ensures
        escrow_split(paid, price, storage_cost) is None,
{
}

} // verus!
