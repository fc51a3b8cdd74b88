use vstd::prelude::*;
use crate::models::{Account, LedgerError, Row, in_i64};
use crate::tables::{ids_ascending, has_row, row_of, find_row};

verus! {

/// The stored balance of account `id` (meaningful when the account exists).
pub open spec fn balance_of(s: Seq<Account>, id: i32) -> int {
    row_of(s, id).balance as int
}

/// The accounts after `amount` is added to the balance of account `id`.
pub open spec fn apply_delta_spec(s: Seq<Account>, id: i32, amount: int) -> Seq<Account> {
    Seq::new(s.len(), |i: int| if s[i].id == id { s[i].with_balance(s[i].balance + amount) } else { s[i] })
}

/// Reads the stored balance of account `id`.
pub fn current_balance(accounts: &Vec<Account>, id: i32) -> (r: Result<i64, LedgerError>)
    requires
        ids_ascending(accounts@),
    ensures
        r is Err <==> !has_row(accounts@, id),
        r matches Err(e) ==> e == LedgerError::NotFound,
        r matches Ok(b) ==> b == balance_of(accounts@, id),
{
    match find_row(accounts, id) {
        Some(i) => Ok(accounts[i].balance),
        None => Err(LedgerError::NotFound),
    }
}

/// Adds `amount` (of either sign) to the balance of account `id`; no bound but
/// the range of `i64` is enforced.
pub fn apply_delta(accounts: &mut Vec<Account>, id: i32, amount: i64) -> (r: Result<(), LedgerError>)
    requires
        ids_ascending(old(accounts)@),
    ensures
        r == Err::<(), LedgerError>(LedgerError::NotFound) <==> !has_row(old(accounts)@, id),
        r == Err::<(), LedgerError>(LedgerError::StorageFailure) <==> has_row(old(accounts)@, id)
            && !in_i64(balance_of(old(accounts)@, id) + amount),
        r is Ok <==> has_row(old(accounts)@, id) && in_i64(balance_of(old(accounts)@, id) + amount),
        r is Err ==> final(accounts)@ == old(accounts)@,
        r is Ok ==> final(accounts)@ == apply_delta_spec(old(accounts)@, id, amount as int),
{
    match find_row(accounts, id) {
        None => Err(LedgerError::NotFound),
        Some(i) => {
            let b = accounts[i].balance;
            match b.checked_add(amount) {
                None => Err(LedgerError::StorageFailure),
                Some(nb) => {
                    accounts[i].balance = nb;
                    proof {
                        let s = old(accounts)@;
                        assert forall|j: int| 0 <= j < s.len() && j != i implies s[j].id != id by {
                            if j < i {
                                assert(s[j].row_id() < s[i as int].row_id());
                            } else {
                                assert(s[i as int].row_id() < s[j].row_id());
                            }
                        }
                        assert(accounts@ =~= apply_delta_spec(s, id, amount as int));
                    }
                    Ok(())
                },
            }
        },
    }
}

} // verus!
