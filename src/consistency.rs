use vstd::prelude::*;
use crate::models::{Account, NewTrx, Row, Transaction, UpdateTrx};
use crate::tables::{ids_ascending, has_row, row_index, lemma_row_index};
use crate::accounts::balance_of;
use crate::ledger::{
    LedgerModel, amounts_ok, add_fits, add_spec, posted, update_amounts_ok, update_category_ok, update_fits, update_spec,
    update_delta_spec, delete_fits, delete_spec, delete_amount,
};
use crate::cascade::shift_following_spec;

verus! {

/// No transaction of account `acc` stands strictly between positions `lo` and `hi`.
pub open spec fn none_between(s: Seq<Transaction>, acc: i32, lo: int, hi: int) -> bool {
    forall|k: int| lo < k < hi ==> #[trigger] s[k].accountid != acc
}

/// Position `j` holds the transaction recorded just before the one at `i` on the same account.
pub open spec fn is_predecessor(s: Seq<Transaction>, j: int, i: int) -> bool {
    &&& 0 <= j < i < s.len()
    &&& s[j].accountid == s[i].accountid
    &&& none_between(s, s[i].accountid, j, i)
}

/// Position `i` holds the first transaction of its account.
pub open spec fn is_first(s: Seq<Transaction>, i: int) -> bool {
    &&& 0 <= i < s.len()
    &&& none_between(s, s[i].accountid, -1, i)
}

/// Position `i` holds the last transaction of account `acc`.
pub open spec fn is_last(s: Seq<Transaction>, i: int, acc: i32) -> bool {
    &&& 0 <= i < s.len()
    &&& s[i].accountid == acc
    &&& none_between(s, acc, i, s.len() as int)
}

pub open spec fn has_trx(s: Seq<Transaction>, acc: i32) -> bool {
    exists|i: int| 0 <= i < s.len() && #[trigger] s[i].accountid == acc
}

/// Each snapshot closes: `balance_after = balance_before + credit - debit`.
pub open spec fn snapshots_ok(s: Seq<Transaction>) -> bool {
    forall|i: int| 0 <= i < s.len() ==> #[trigger] s[i].balance_after == s[i].balance_before + s[i].amount()
}

/// Each transaction starts where its predecessor on the account ended, and an
/// account's first transaction starts at zero.
pub open spec fn chain_ok(s: Seq<Transaction>) -> bool {
    &&& forall|j: int, i: int| #[trigger] is_predecessor(s, j, i) ==> s[i].balance_before == s[j].balance_after
    &&& forall|i: int| #[trigger] is_first(s, i) ==> s[i].balance_before == 0
}

/// Each account's balance is its last transaction's `balance_after`, or zero
/// when it has none.
pub open spec fn balances_ok(accounts: Seq<Account>, s: Seq<Transaction>) -> bool {
    forall|a: int| 0 <= a < accounts.len() ==> {
        &&& forall|i: int| #[trigger] is_last(s, i, accounts[a].id) ==> accounts[a].balance == s[i].balance_after
        &&& !has_trx(s, (#[trigger] accounts[a]).id) ==> accounts[a].balance == 0
    }
}

/// The three ledger invariants hold together.
pub open spec fn consistent(m: LedgerModel) -> bool {
    &&& snapshots_ok(m.trxs)
    &&& chain_ok(m.trxs)
    &&& balances_ok(m.accounts, m.trxs)
}

/// Sum of credit minus debit over the transactions of account `acc`.
pub open spec fn net(s: Seq<Transaction>, acc: i32) -> int
    decreases s.len(),
{
    if s.len() == 0 {
        0
    } else {
        net(s.drop_last(), acc) + if s.last().accountid == acc { s.last().amount() } else { 0 }
    }
}

/// The last transaction of `acc` at or after `lo` and before `hi`, given one at `lo`.
pub proof fn lemma_latest_before(s: Seq<Transaction>, acc: i32, lo: int, hi: int) -> (j: int)
    requires
        0 <= lo < hi <= s.len(),
        s[lo].accountid == acc,
    ensures
        lo <= j < hi,
        s[j].accountid == acc,
        none_between(s, acc, j, hi),
    decreases hi - lo,
{
    if hi - 1 == lo {
        lo
    } else if s[hi - 1].accountid == acc {
        hi - 1
    } else {
        lemma_latest_before(s, acc, lo, hi - 1)
    }
}

/// A transaction that is not its account's first has a predecessor.
pub proof fn lemma_predecessor_exists(s: Seq<Transaction>, i: int) -> (j: int)
    requires
        0 <= i < s.len(),
        !is_first(s, i),
    ensures
        is_predecessor(s, j, i),
{
    let acc = s[i].accountid;
    let k = choose|k: int| -1 < k < i && #[trigger] s[k].accountid == acc;
    lemma_latest_before(s, acc, k, i)
}

/// An account with a transaction has a last one.
pub proof fn lemma_last_exists(s: Seq<Transaction>, acc: i32) -> (j: int)
    requires
        has_trx(s, acc),
    ensures
        is_last(s, j, acc),
{
    let k = choose|k: int| 0 <= k < s.len() && #[trigger] s[k].accountid == acc;
    lemma_latest_before(s, acc, k, s.len() as int)
}

/// Balance additivity: in a consistent ledger every account's balance is the
/// sum of credit minus debit over its transactions.
pub proof fn lemma_balance_additivity(m: LedgerModel)
    requires
        m.wf(),
        consistent(m),
    ensures
        forall|a: int| 0 <= a < m.accounts.len() ==> #[trigger] m.accounts[a].balance == net(m.trxs, m.accounts[a].id),
{
    assert forall|a: int| 0 <= a < m.accounts.len() implies #[trigger] m.accounts[a].balance == net(
        m.trxs,
        m.accounts[a].id,
    ) by {
        let acc = m.accounts[a].id;
        lemma_running_net(m.trxs, acc, m.trxs.len() as int);
        assert(m.trxs.take(m.trxs.len() as int) =~= m.trxs);
        if has_trx(m.trxs, acc) {
            let l = lemma_last_exists(m.trxs, acc);
        }
    }
}

/// Along a consistent chain, the last `balance_after` of `acc` among the first
/// `n` transactions is their net for `acc`, and the net is zero when there is none.
proof fn lemma_running_net(s: Seq<Transaction>, acc: i32, n: int)
    requires
        0 <= n <= s.len(),
        snapshots_ok(s),
        chain_ok(s),
    ensures
        forall|i: int| 0 <= i < n && s[i].accountid == acc && none_between(s, acc, i, n) ==> net(s.take(n), acc)
            == s[i].balance_after,
        none_between(s, acc, -1, n) ==> net(s.take(n), acc) == 0,
    decreases n,
{
    if n > 0 {
        lemma_running_net(s, acc, n - 1);
        assert(s.take(n).drop_last() =~= s.take(n - 1));
        assert(s.take(n).last() == s[n - 1]);
        let t = s[n - 1];
        assert(snapshots_ok(s) ==> s[n - 1].balance_after == s[n - 1].balance_before + s[n - 1].amount());
        if t.accountid == acc {
            if none_between(s, acc, -1, n - 1) {
                assert(is_first(s, n - 1));
            } else {
                let j = lemma_predecessor_exists(s, n - 1);
                assert(is_predecessor(s, j, n - 1));
                assert(none_between(s, acc, j, n - 1));
            }
        } else {
            assert forall|i: int| 0 <= i < n && s[i].accountid == acc && none_between(s, acc, i, n) implies none_between(
                s,
                acc,
                i,
                n - 1,
            ) by {}
        }
    }
}

/// Posting keeps a consistent ledger consistent.
pub proof fn lemma_add_consistent(m: LedgerModel, t: NewTrx)
    requires
        m.wf(),
        consistent(m),
        amounts_ok(t.credit, t.debit),
        has_row(m.accounts, t.accountid),
        has_row(m.categories, t.categoryid),
        add_fits(m, t),
    ensures
        consistent(add_spec(m, t)),
{
    let s = m.trxs;
    let m2 = add_spec(m, t);
    let s2 = m2.trxs;
    let p = posted(m, t);
    let n = s.len() as int;
    let acc = t.accountid;
    assert(s2[n] == p);
    assert forall|x: int| 0 <= x < n implies s2[x] == s[x] by {}
    // snapshots
    assert forall|i: int| 0 <= i < s2.len() implies #[trigger] s2[i].balance_after == s2[i].balance_before
        + s2[i].amount() by {
        if i < n {
            assert(s2[i] == s[i]);
        }
    }
    // balances before the new row
    let ai = row_index(m.accounts, acc);
    assert(m.accounts[ai].id == acc);
    assert(balance_of(m.accounts, acc) == m.accounts[ai].balance);
    // chain
    assert forall|j: int, i: int| #[trigger] is_predecessor(s2, j, i) implies s2[i].balance_before
        == s2[j].balance_after by {
        if i < n {
            assert(s2[i] == s[i]);
            assert(s2[j] == s[j]);
            assert(is_predecessor(s, j, i));
        } else {
            assert(s2[j] == s[j]);
            assert(is_last(s, j, acc));
        }
    }
    assert forall|i: int| #[trigger] is_first(s2, i) implies s2[i].balance_before == 0 by {
        if i < n {
            assert(s2[i] == s[i]);
            assert(is_first(s, i));
        } else {
            if has_trx(s, acc) {
                let k = choose|k: int| 0 <= k < s.len() && #[trigger] s[k].accountid == acc;
                assert(s2[k] == s[k]);
            }
        }
    }
    // balances
    assert forall|a: int| 0 <= a < m2.accounts.len() implies {
        &&& forall|i: int| #[trigger] is_last(s2, i, m2.accounts[a].id) ==> m2.accounts[a].balance
            == s2[i].balance_after
        &&& !has_trx(s2, (#[trigger] m2.accounts[a]).id) ==> m2.accounts[a].balance == 0
    } by {
        let id = m.accounts[a].id;
        assert(m2.accounts[a].id == id);
        assert(s2[n].accountid == acc);
        assert(has_trx(s2, acc));
        if id == acc {
            lemma_row_index(m.accounts, a);
            assert forall|i: int| #[trigger] is_last(s2, i, id) implies m2.accounts[a].balance
                == s2[i].balance_after by {
                if i < n {
                    assert(s2[n].accountid == acc);
                }
            }
        } else {
            assert(m2.accounts[a] == m.accounts[a]);
            assert forall|i: int| #[trigger] is_last(s2, i, id) implies m2.accounts[a].balance
                == s2[i].balance_after by {
                assert(i < n);
                assert(s2[i] == s[i]);
                assert(is_last(s, i, id));
            }
            if !has_trx(s2, id) {
                assert forall|k: int| 0 <= k < s.len() implies #[trigger] s[k].accountid != id by {
                    assert(s2[k] == s[k]);
                }
            }
        }
    }
}

/// Updating keeps a consistent ledger consistent, provided the update gives
/// credit and debit together or neither of them.
pub proof fn lemma_update_consistent(m: LedgerModel, id: i32, u: UpdateTrx)
    requires
        m.wf(),
        consistent(m),
        has_row(m.trxs, id),
        update_amounts_ok(u),
        update_category_ok(m, u),
        update_fits(m, id, u),
        u.credit is Some <==> u.debit is Some,
    ensures
        consistent(update_spec(m, id, u)),
{
    let s = m.trxs;
    let k = row_index(s, id);
    let e = s[k];
    let acc = e.accountid;
    let d = update_delta_spec(e, u);
    let m2 = update_spec(m, id, u);
    let s2 = m2.trxs;
    let n = s.len() as int;
    assert(ids_ascending(s));
    assert forall|x: int| 0 <= x < n implies (#[trigger] s[x].id > id <==> x > k) && (s[x].id == id <==> x == k) by {
        if x < k {
            assert(s[x].row_id() < s[k].row_id());
        } else if x > k {
            assert(s[k].row_id() < s[x].row_id());
        }
    }
    assert forall|x: int| 0 <= x < n implies {
        &&& #[trigger] s2[x].accountid == s[x].accountid
        &&& s2[x].balance_before == s[x].balance_before + if s[x].accountid == acc && x > k { d } else { 0 }
        &&& s2[x].balance_after == s[x].balance_after + if s[x].accountid == acc && x >= k { d } else { 0 }
        &&& s2[x].amount() == s[x].amount() + if x == k { d } else { 0 }
    } by {
        assert(s[x].id > id <==> x > k);
    }
    assert(s2.len() == n);
    // snapshots
    assert forall|i: int| 0 <= i < s2.len() implies #[trigger] s2[i].balance_after == s2[i].balance_before
        + s2[i].amount() by {
        assert(s2[i].accountid == s[i].accountid);
    }
    // chain
    assert forall|j: int, i: int| #[trigger] is_predecessor(s2, j, i) implies s2[i].balance_before
        == s2[j].balance_after by {
        assert(s2[i].accountid == s[i].accountid);
        assert(s2[j].accountid == s[j].accountid);
        assert forall|q: int| j < q < i implies #[trigger] s[q].accountid != s[i].accountid by {
            assert(s2[q].accountid == s[q].accountid);
        }
        assert(is_predecessor(s, j, i));
        if s[i].accountid == acc && i > k && j < k {
            assert(s[k].accountid == acc);
        }
    }
    assert forall|i: int| #[trigger] is_first(s2, i) implies s2[i].balance_before == 0 by {
        assert(s2[i].accountid == s[i].accountid);
        assert forall|q: int| -1 < q < i implies #[trigger] s[q].accountid != s[i].accountid by {
            assert(s2[q].accountid == s[q].accountid);
        }
        assert(is_first(s, i));
        if s[i].accountid == acc && i > k {
            assert(s[k].accountid == acc);
        }
    }
    // balances
    assert forall|a: int| 0 <= a < m2.accounts.len() implies {
        &&& forall|i: int| #[trigger] is_last(s2, i, m2.accounts[a].id) ==> m2.accounts[a].balance
            == s2[i].balance_after
        &&& !has_trx(s2, (#[trigger] m2.accounts[a]).id) ==> m2.accounts[a].balance == 0
    } by {
        let aid = m.accounts[a].id;
        assert(m2.accounts[a].id == aid);
        lemma_row_index(m.accounts, a);
        assert forall|i: int| #[trigger] is_last(s2, i, aid) implies m2.accounts[a].balance
            == s2[i].balance_after by {
            assert(s2[i].accountid == s[i].accountid);
            assert forall|q: int| i < q < n implies #[trigger] s[q].accountid != aid by {
                assert(s2[q].accountid == s[q].accountid);
            }
            assert(is_last(s, i, aid));
            if aid == acc && i < k {
                assert(s[k].accountid == acc);
            }
        }
        if !has_trx(s2, aid) {
            assert forall|q: int| 0 <= q < n implies #[trigger] s[q].accountid != aid by {
                assert(s2[q].accountid == s[q].accountid);
            }
            if aid == acc {
                assert(s[k].accountid == acc);
            }
        }
    }
}

/// Deleting keeps a consistent ledger consistent.
pub proof fn lemma_delete_consistent(m: LedgerModel, id: i32)
    requires
        m.wf(),
        consistent(m),
        has_row(m.trxs, id),
        delete_fits(m, id),
    ensures
        consistent(delete_spec(m, id)),
{
    let s = m.trxs;
    let k = row_index(s, id);
    let e = s[k];
    let acc = e.accountid;
    let a = delete_amount(e);
    let s1 = shift_following_spec(s, acc, id, a);
    let m2 = delete_spec(m, id);
    let s2 = m2.trxs;
    let n = s.len() as int;
    assert(s2 == s1.remove(k));
    assert(s2.len() == n - 1);
    assert(ids_ascending(s));
    assert forall|x: int| 0 <= x < n implies (#[trigger] s[x].id > id <==> x > k) by {
        if x < k {
            assert(s[x].row_id() < s[k].row_id());
        } else if x > k {
            assert(s[k].row_id() < s[x].row_id());
        }
    }
    assert forall|x: int| 0 <= x < n implies {
        &&& #[trigger] s1[x].accountid == s[x].accountid
        &&& s1[x].balance_before == s[x].balance_before + if s[x].accountid == acc && x > k { a } else { 0 }
        &&& s1[x].balance_after == s[x].balance_after + if s[x].accountid == acc && x > k { a } else { 0 }
        &&& s1[x].amount() == s[x].amount()
    } by {
        assert(s[x].id > id <==> x > k);
    }
    assert forall|x: int| 0 <= x < n - 1 implies #[trigger] s2[x] == s1[if x < k { x } else { x + 1 }] by {}
    assert(snapshots_ok(s));
    assert(s[k].balance_after == s[k].balance_before + s[k].amount());
    // snapshots
    assert forall|i: int| 0 <= i < s2.len() implies #[trigger] s2[i].balance_after == s2[i].balance_before
        + s2[i].amount() by {
        let oi = if i < k { i } else { i + 1 };
        assert(s2[i] == s1[oi]);
        assert(s1[oi].accountid == s[oi].accountid);
    }
    // chain
    assert forall|j: int, i: int| #[trigger] is_predecessor(s2, j, i) implies s2[i].balance_before
        == s2[j].balance_after by {
        let oj = if j < k { j } else { j + 1 };
        let oi = if i < k { i } else { i + 1 };
        assert(s2[i] == s1[oi]);
        assert(s2[j] == s1[oj]);
        assert(s1[oi].accountid == s[oi].accountid);
        assert(s1[oj].accountid == s[oj].accountid);
        let c = s[oi].accountid;
        assert forall|q: int| oj < q < oi && q != k implies #[trigger] s[q].accountid != c by {
            let q2 = if q < k { q } else { q - 1 };
            assert(s2[q2] == s1[q]);
            assert(s1[q].accountid == s[q].accountid);
        }
        if c != acc || oi < k || oj > k {
            assert(is_predecessor(s, oj, oi));
        } else {
            assert(is_predecessor(s, oj, k));
            assert(is_predecessor(s, k, oi));
        }
    }
    assert forall|i: int| #[trigger] is_first(s2, i) implies s2[i].balance_before == 0 by {
        let oi = if i < k { i } else { i + 1 };
        assert(s2[i] == s1[oi]);
        assert(s1[oi].accountid == s[oi].accountid);
        let c = s[oi].accountid;
        assert forall|q: int| -1 < q < oi && q != k implies #[trigger] s[q].accountid != c by {
            let q2 = if q < k { q } else { q - 1 };
            assert(s2[q2] == s1[q]);
            assert(s1[q].accountid == s[q].accountid);
        }
        if c != acc || oi < k {
            assert(is_first(s, oi));
        } else {
            assert(is_first(s, k));
            assert(is_predecessor(s, k, oi));
        }
    }
    // balances
    assert forall|ai: int| 0 <= ai < m2.accounts.len() implies {
        &&& forall|i: int| #[trigger] is_last(s2, i, m2.accounts[ai].id) ==> m2.accounts[ai].balance
            == s2[i].balance_after
        &&& !has_trx(s2, (#[trigger] m2.accounts[ai]).id) ==> m2.accounts[ai].balance == 0
    } by {
        let aid = m.accounts[ai].id;
        assert(m2.accounts[ai].id == aid);
        lemma_row_index(m.accounts, ai);
        assert forall|i: int| #[trigger] is_last(s2, i, aid) implies m2.accounts[ai].balance
            == s2[i].balance_after by {
            let oi = if i < k { i } else { i + 1 };
            assert(s2[i] == s1[oi]);
            assert(s1[oi].accountid == s[oi].accountid);
            assert forall|q: int| oi < q < n && q != k implies #[trigger] s[q].accountid != aid by {
                let q2 = if q < k { q } else { q - 1 };
                assert(s2[q2] == s1[q]);
                assert(s1[q].accountid == s[q].accountid);
            }
            if aid != acc || oi > k {
                assert(is_last(s, oi, aid));
            } else {
                assert(is_last(s, k, acc));
                assert(is_predecessor(s, oi, k));
            }
        }
        if !has_trx(s2, aid) {
            assert forall|q: int| 0 <= q < n && q != k implies #[trigger] s[q].accountid != aid by {
                let q2 = if q < k { q } else { q - 1 };
                assert(s2[q2] == s1[q]);
                assert(s1[q].accountid == s[q].accountid);
            }
            if aid == acc {
                assert(is_first(s, k));
                assert(is_last(s, k, acc));
            } else {
                assert(s[k].accountid == acc);
            }
        }
    }
}

/// Consistency reads only the transactions and each account's identifier and
/// balance: a ledger that agrees on those stays consistent.
pub proof fn lemma_consistent_frame(m: LedgerModel, m2: LedgerModel)
    requires
        consistent(m),
        m2.trxs == m.trxs,
        m2.accounts.len() == m.accounts.len(),
        forall|i: int| 0 <= i < m.accounts.len() ==> #[trigger] m2.accounts[i].id == m.accounts[i].id
            && m2.accounts[i].balance == m.accounts[i].balance,
    ensures
        consistent(m2),
{
    assert forall|a: int| 0 <= a < m2.accounts.len() implies {
        &&& forall|i: int| #[trigger] is_last(m2.trxs, i, m2.accounts[a].id) ==> m2.accounts[a].balance
            == m2.trxs[i].balance_after
        &&& !has_trx(m2.trxs, (#[trigger] m2.accounts[a]).id) ==> m2.accounts[a].balance == 0
    } by {
        assert(m2.accounts[a].id == m.accounts[a].id);
    }
}

/// Opening an account with a fresh identifier and a zero balance keeps a
/// well-formed, consistent ledger consistent.
pub proof fn lemma_open_account_consistent(m: LedgerModel, a: Account)
    requires
        m.wf(),
        consistent(m),
        a.id == m.next_account_id,
        a.balance == 0,
    ensures
        consistent(LedgerModel { accounts: m.accounts.push(a), ..m }),
{
    let m2 = LedgerModel { accounts: m.accounts.push(a), ..m };
    let n = m.accounts.len() as int;
    assert forall|k: int| 0 <= k < m.trxs.len() implies #[trigger] m.trxs[k].accountid != a.id by {
        let t = m.trxs[k];
        assert(has_row(m.accounts, t.accountid));
        let ai = row_index(m.accounts, t.accountid);
        assert(m.accounts[ai].row_id() < m.next_account_id);
    }
    assert forall|x: int| 0 <= x < m2.accounts.len() implies {
        &&& forall|i: int| #[trigger] is_last(m2.trxs, i, m2.accounts[x].id) ==> m2.accounts[x].balance
            == m2.trxs[i].balance_after
        &&& !has_trx(m2.trxs, (#[trigger] m2.accounts[x]).id) ==> m2.accounts[x].balance == 0
    } by {
        if x < n {
            assert(m2.accounts[x] == m.accounts[x]);
        } else {
            assert(m2.accounts[x] == a);
        }
    }
}

/// Closing an account that no transaction refers to keeps a consistent ledger consistent.
pub proof fn lemma_close_account_consistent(m: LedgerModel, k: int)
    requires
        consistent(m),
        0 <= k < m.accounts.len(),
    ensures
        consistent(LedgerModel { accounts: m.accounts.remove(k), ..m }),
{
    let m2 = LedgerModel { accounts: m.accounts.remove(k), ..m };
    assert forall|x: int| 0 <= x < m2.accounts.len() implies {
        &&& forall|i: int| #[trigger] is_last(m2.trxs, i, m2.accounts[x].id) ==> m2.accounts[x].balance
            == m2.trxs[i].balance_after
        &&& !has_trx(m2.trxs, (#[trigger] m2.accounts[x]).id) ==> m2.accounts[x].balance == 0
    } by {
        let ox = if x < k { x } else { x + 1 };
        assert(m2.accounts[x] == m.accounts[ox]);
    }
}

} // verus!
