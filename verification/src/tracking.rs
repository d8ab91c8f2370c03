//! Decision logic of the trade-tracking front end: which transactions
//! involve a watched mint, and how a trade's amounts are oriented.

use vstd::prelude::*;
use crate::model::Pubkey;
use crate::transformers::contains_key;

verus! {

/// Whether the watched key appears anywhere in a transaction's account-key
/// table; only such transactions are worth extracting.
pub fn key_is_present(account_keys: &Vec<Pubkey>, key: &Pubkey) -> (r: bool)
    ensures
        r == contains_key(account_keys@, key.bytes@),
{
    let n = account_keys.len();
    let mut j: usize = 0;
    while j < n
        invariant
            0 <= j <= n == account_keys@.len(),
            forall|k: int| 0 <= k < j ==> (#[trigger] account_keys@[k]).bytes@ != key.bytes@,
        decreases n - j,
    {
        if account_keys[j] == *key {
            return true;
        }
        j = j + 1;
    }
    false
}

/// The `(amount in, amount out)` of a trade event: a buy pays the base
/// currency amount in and takes the token amount out; a sell the reverse.
pub fn trade_amounts(is_buy: bool, sol_amount: u64, token_amount: u64) -> (r: (u64, u64))
    ensures
        r == if is_buy {
            (sol_amount, token_amount)
        } else {
            (token_amount, sol_amount)
        },
{
    if is_buy {
        (sol_amount, token_amount)
    } else {
        (token_amount, sol_amount)
    }
}

} // verus!
