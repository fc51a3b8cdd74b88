use vstd::prelude::*;
use crate::models::{LedgerError, Transaction, in_i64};

verus! {

/// `t` was recorded after transaction `after` on account `acc`
/// (identifier order, not the order of `datetime`).
pub open spec fn is_following(t: Transaction, acc: i32, after: i32) -> bool {
    t.accountid == acc && t.id > after
}

pub open spec fn shifted_following(t: Transaction, acc: i32, after: i32, delta: int) -> Transaction {
    if is_following(t, acc, after) {
        t.with_balances(t.balance_before + delta, t.balance_after + delta)
    } else {
        t
    }
}

/// The transactions after both snapshot figures of every transaction following
/// `after` on `acc` are moved by `delta`.
pub open spec fn shift_following_spec(s: Seq<Transaction>, acc: i32, after: i32, delta: int) -> Seq<Transaction> {
    Seq::new(s.len(), |i: int| shifted_following(s[i], acc, after, delta))
}

pub open spec fn following_fits(s: Seq<Transaction>, acc: i32, after: i32, delta: int) -> bool {
    forall|i: int|
        0 <= i < s.len() && #[trigger] is_following(s[i], acc, after) ==> in_i64(s[i].balance_before + delta)
            && in_i64(s[i].balance_after + delta)
}

/// Number of transactions following `after` on `acc`.
pub open spec fn count_following(s: Seq<Transaction>, acc: i32, after: i32) -> nat
    decreases s.len(),
{
    if s.len() == 0 {
        0
    } else {
        count_following(s.drop_last(), acc, after) + if is_following(s.last(), acc, after) { 1nat } else { 0nat }
    }
}

pub open spec fn shifted_self(t: Transaction, id: i32, acc: i32, delta: int) -> Transaction {
    if t.id == id && t.accountid == acc {
        t.with_balance_after(t.balance_after + delta)
    } else {
        t
    }
}

/// The transactions after `delta` is added to `balance_after` of transaction
/// `id` on `acc` alone.
pub open spec fn shift_self_spec(s: Seq<Transaction>, id: i32, acc: i32, delta: int) -> Seq<Transaction> {
    Seq::new(s.len(), |i: int| shifted_self(s[i], id, acc, delta))
}

pub open spec fn self_fits(s: Seq<Transaction>, id: i32, acc: i32, delta: int) -> bool {
    forall|i: int|
        0 <= i < s.len() && s[i].id == id && s[i].accountid == acc ==> in_i64(#[trigger] s[i].balance_after + delta)
}

/// Tells whether moving the followers of `after` on `acc` by `delta` stays in range.
pub fn check_following_fits(trxs: &Vec<Transaction>, acc: i32, after: i32, delta: i128) -> (r: bool)
    requires
        -0x4_0000_0000_0000_0000 <= delta <= 0x4_0000_0000_0000_0000,
    ensures
        r == following_fits(trxs@, acc, after, delta as int),
{
    let mut i: usize = 0;
    while i < trxs.len()
        invariant
            i <= trxs.len(),
            -0x4_0000_0000_0000_0000 <= delta <= 0x4_0000_0000_0000_0000,
            forall|j: int|
                0 <= j < i && #[trigger] is_following(trxs@[j], acc, after) ==> in_i64(
                    trxs@[j].balance_before + delta,
                ) && in_i64(trxs@[j].balance_after + delta),
        decreases trxs.len() - i,
    {
        let t = &trxs[i];
        if t.accountid == acc && t.id > after {
            let b = t.balance_before as i128 + delta;
            let a = t.balance_after as i128 + delta;
            if b < i64::MIN as i128 || b > i64::MAX as i128 || a < i64::MIN as i128 || a > i64::MAX as i128 {
                assert(is_following(trxs@[i as int], acc, after));
                return false;
            }
        }
        i += 1;
    }
    true
}

/// Tells whether adding `delta` to `balance_after` of transaction `id` on `acc` stays in range.
pub fn check_self_fits(trxs: &Vec<Transaction>, id: i32, acc: i32, delta: i128) -> (r: bool)
    requires
        -0x4_0000_0000_0000_0000 <= delta <= 0x4_0000_0000_0000_0000,
    ensures
        r == self_fits(trxs@, id, acc, delta as int),
{
    let mut i: usize = 0;
    while i < trxs.len()
        invariant
            i <= trxs.len(),
            -0x4_0000_0000_0000_0000 <= delta <= 0x4_0000_0000_0000_0000,
            forall|j: int|
                0 <= j < i && trxs@[j].id == id && trxs@[j].accountid == acc ==> in_i64(
                    #[trigger] trxs@[j].balance_after + delta,
                ),
        decreases trxs.len() - i,
    {
        let t = &trxs[i];
        if t.id == id && t.accountid == acc {
            let a = t.balance_after as i128 + delta;
            if a < i64::MIN as i128 || a > i64::MAX as i128 {
                return false;
            }
        }
        i += 1;
    }
    true
}

/// Adds `delta` to `balance_before` and `balance_after` of every transaction on
/// `acc` whose identifier is greater than `after`, and returns how many were
/// moved. Nothing moves when one of them would leave the range of `i64`.
pub fn shift_following(trxs: &mut Vec<Transaction>, acc: i32, after: i32, delta: i64) -> (r: Result<usize, LedgerError>)
    ensures
        r is Err <==> !following_fits(old(trxs)@, acc, after, delta as int),
        r matches Err(e) ==> e == LedgerError::StorageFailure,
        r is Err ==> final(trxs)@ == old(trxs)@,
        r matches Ok(n) ==> final(trxs)@ == shift_following_spec(old(trxs)@, acc, after, delta as int)
            && n == count_following(old(trxs)@, acc, after),
{
    if !check_following_fits(trxs, acc, after, delta as i128) {
        return Err(LedgerError::StorageFailure);
    }
    let ghost s = trxs@;
    let mut n: usize = 0;
    let mut i: usize = 0;
    while i < trxs.len()
        invariant
            i <= trxs.len(),
            trxs@.len() == s.len(),
            following_fits(s, acc, after, delta as int),
            forall|j: int| 0 <= j < i ==> trxs@[j] == shifted_following(s[j], acc, after, delta as int),
            forall|j: int| i <= j < s.len() ==> trxs@[j] == s[j],
            n == count_following(s.take(i as int), acc, after),
            n <= i,
        decreases trxs.len() - i,
    {
        proof {
            assert(s.take(i as int + 1).drop_last() =~= s.take(i as int));
            assert(s.take(i as int + 1).last() == s[i as int]);
        }
        if trxs[i].accountid == acc && trxs[i].id > after {
            assert(is_following(s[i as int], acc, after));
            let b = trxs[i].balance_before + delta;
            let a = trxs[i].balance_after + delta;
            trxs[i].balance_before = b;
            trxs[i].balance_after = a;
            n += 1;
        }
        i += 1;
    }
    proof {
        assert(trxs@ =~= shift_following_spec(s, acc, after, delta as int));
        assert(s.take(s.len() as int) =~= s);
    }
    Ok(n)
}

/// Adds `delta` to `balance_after` of transaction `id` on `acc` only; its
/// `balance_before`, inherited from its predecessor, stays. Nothing moves when
/// the result would leave the range of `i64`.
pub fn shift_self(trxs: &mut Vec<Transaction>, id: i32, acc: i32, delta: i64) -> (r: Result<(), LedgerError>)
    ensures
        r is Err <==> !self_fits(old(trxs)@, id, acc, delta as int),
        r matches Err(e) ==> e == LedgerError::StorageFailure,
        r is Err ==> final(trxs)@ == old(trxs)@,
        r is Ok ==> final(trxs)@ == shift_self_spec(old(trxs)@, id, acc, delta as int),
{
    if !check_self_fits(trxs, id, acc, delta as i128) {
        return Err(LedgerError::StorageFailure);
    }
    let ghost s = trxs@;
    let mut i: usize = 0;
    while i < trxs.len()
        invariant
            i <= trxs.len(),
            trxs@.len() == s.len(),
            self_fits(s, id, acc, delta as int),
            forall|j: int| 0 <= j < i ==> trxs@[j] == shifted_self(s[j], id, acc, delta as int),
            forall|j: int| i <= j < s.len() ==> trxs@[j] == s[j],
        decreases trxs.len() - i,
    {
        if trxs[i].id == id && trxs[i].accountid == acc {
            let a = trxs[i].balance_after + delta;
            trxs[i].balance_after = a;
        }
        i += 1;
    }
    proof {
        assert(trxs@ =~= shift_self_spec(s, id, acc, delta as int));
    }
    Ok(())
}

} // verus!
