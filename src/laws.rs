use vstd::prelude::*;
use crate::models::{Account, BudgetPeriod, NewTrx, Row, UpdateTrx, in_i64};
use crate::tables::{ids_ascending, has_row, row_index, row_of, lemma_row_index, lemma_same_ids, lemma_push_row};
use crate::accounts::{balance_of, apply_delta_spec};
use crate::budgets::{is_current_period, spent_fits, apply_spent_spec};
use crate::cascade::{following_fits, shift_following_spec};
use crate::consistency::{consistent, is_predecessor, is_first};
use crate::ledger::{
    LedgerModel, amounts_ok, add_fits, add_spec, posted, delete_fits, delete_spec, update_delta_spec, update_fits,
    update_spec,
};

verus! {

/// Moving the balance of account `id` by `x` and then by `-x` gives the accounts back.
proof fn lemma_delta_round_trip(s: Seq<Account>, id: i32, x: int)
    requires
        ids_ascending(s),
        has_row(s, id),
        in_i64(balance_of(s, id) + x),
    ensures
        apply_delta_spec(apply_delta_spec(s, id, x), id, -x) == s,
{
    let k = row_index(s, id);
    assert forall|i: int| 0 <= i < s.len() && s[i].id == id implies i == k by {
        lemma_row_index(s, i);
    }
    assert(apply_delta_spec(apply_delta_spec(s, id, x), id, -x) =~= s);
}

/// Moving `spent` of the current period of `cat` by `x` keeps which period is current.
proof fn lemma_spent_keeps_current(s: Seq<BudgetPeriod>, cat: i32, x: int)
    ensures
        forall|i: int| is_current_period(apply_spent_spec(s, cat, x), i, cat) <==> is_current_period(s, i, cat),
{
    let s2 = apply_spent_spec(s, cat, x);
    assert forall|i: int| is_current_period(s2, i, cat) <==> is_current_period(s, i, cat) by {
        if 0 <= i < s.len() {
            assert(s2[i].id == s[i].id && s2[i].categoryid == s[i].categoryid);
            if is_current_period(s, i, cat) {
                assert forall|j: int| 0 <= j < s.len() && #[trigger] s2[j].categoryid == cat implies s2[j].id
                    <= s2[i].id by {
                    assert(s2[j].id == s[j].id && s2[j].categoryid == s[j].categoryid);
                }
            }
            if is_current_period(s2, i, cat) {
                assert forall|j: int| 0 <= j < s.len() && #[trigger] s[j].categoryid == cat implies s[j].id
                    <= s[i].id by {
                    assert(s2[j].id == s[j].id && s2[j].categoryid == s[j].categoryid);
                }
            }
        }
    }
}

/// Moving `spent` of the current period of `cat` by `x` and then by `-x` gives the periods back.
proof fn lemma_spent_round_trip(s: Seq<BudgetPeriod>, cat: i32, x: int)
    requires
        spent_fits(s, cat, x),
    ensures
        spent_fits(apply_spent_spec(s, cat, x), cat, -x),
        apply_spent_spec(apply_spent_spec(s, cat, x), cat, -x) == s,
{
    lemma_spent_keeps_current(s, cat, x);
    assert(apply_spent_spec(apply_spent_spec(s, cat, x), cat, -x) =~= s);
}

/// Round trip: posting a transaction and then deleting it restores every
/// account balance, every budget period (so the current period's `spent`) and
/// the transactions exactly.
pub proof fn lemma_add_delete_round_trip(m: LedgerModel, t: NewTrx)
    requires
        m.wf(),
        amounts_ok(t.credit, t.debit),
        has_row(m.accounts, t.accountid),
        has_row(m.categories, t.categoryid),
        add_fits(m, t),
    ensures
        has_row(add_spec(m, t).trxs, m.next_trx_id),
        delete_fits(add_spec(m, t), m.next_trx_id),
        delete_spec(add_spec(m, t), m.next_trx_id).accounts == m.accounts,
        delete_spec(add_spec(m, t), m.next_trx_id).budgets == m.budgets,
        delete_spec(add_spec(m, t), m.next_trx_id).trxs == m.trxs,
{
    let id = m.next_trx_id;
    let acc = t.accountid;
    let cat = t.categoryid;
    let amount = t.credit - t.debit;
    let m2 = add_spec(m, t);
    let s = m.trxs;
    let n = s.len() as int;
    lemma_push_row(s, id, posted(m, t));
    lemma_row_index(m2.trxs, n);
    assert(m2.trxs[n] == posted(m, t));
    assert(row_of(m2.trxs, id) == posted(m, t));
    // no transaction follows the new one
    assert forall|i: int| 0 <= i < m2.trxs.len() implies #[trigger] m2.trxs[i].id <= id by {
        if i < n {
            assert(m2.trxs[i] == s[i]);
        }
    }
    assert(following_fits(m2.trxs, acc, id, -amount));
    assert(shift_following_spec(m2.trxs, acc, id, -amount) =~= m2.trxs);
    assert(m2.trxs.remove(n) =~= s);
    // the account
    let ai = row_index(m.accounts, acc);
    lemma_row_index(m.accounts, ai);
    lemma_same_ids(m.accounts, m2.accounts);
    lemma_row_index(m2.accounts, ai);
    assert(balance_of(m2.accounts, acc) == balance_of(m.accounts, acc) + amount);
    lemma_delta_round_trip(m.accounts, acc, amount);
    // the budget
    lemma_spent_round_trip(m.budgets, cat, amount);
}

/// An update that gives the existing credit and debit again changes no amount:
/// its delta is zero and every balance, snapshot and budget figure stays.
pub proof fn lemma_identical_update(m: LedgerModel, id: i32, u: UpdateTrx)
    requires
        has_row(m.trxs, id),
        u.credit == Some(row_of(m.trxs, id).credit),
        u.debit == Some(row_of(m.trxs, id).debit),
    ensures
        update_delta_spec(row_of(m.trxs, id), u) == 0,
        update_fits(m, id, u),
        update_spec(m, id, u).accounts == m.accounts,
        update_spec(m, id, u).budgets == m.budgets,
        update_spec(m, id, u).trxs.len() == m.trxs.len(),
        forall|i: int| 0 <= i < m.trxs.len() ==> {
            &&& #[trigger] update_spec(m, id, u).trxs[i].balance_before == m.trxs[i].balance_before
            &&& update_spec(m, id, u).trxs[i].balance_after == m.trxs[i].balance_after
        },
{
}

/// Snapshot chain, by identifier: in a consistent ledger, when `t1` and `t2`
/// are transactions of one account with `t1.id < t2.id` and none of that
/// account lies between them, `t2` starts where `t1` ended; the transaction
/// with the smallest identifier of an account starts at zero.
pub proof fn lemma_snapshot_chain(m: LedgerModel, i: int, j: int)
    requires
        m.wf(),
        consistent(m),
        0 <= i < m.trxs.len(),
        0 <= j < m.trxs.len(),
    ensures
        ({
            let t1 = m.trxs[i];
            let t2 = m.trxs[j];
            t1.accountid == t2.accountid && t1.id < t2.id && (forall|k: int|
                0 <= k < m.trxs.len() && #[trigger] m.trxs[k].accountid == t2.accountid ==> !(t1.id < m.trxs[k].id
                    < t2.id)) ==> t2.balance_before == t1.balance_after
        }),
        (forall|k: int|
            0 <= k < m.trxs.len() && #[trigger] m.trxs[k].accountid == m.trxs[j].accountid ==> m.trxs[j].id
                <= m.trxs[k].id) ==> m.trxs[j].balance_before == 0,
{
    let s = m.trxs;
    assert(ids_ascending(s));
    let t1 = s[i];
    let t2 = s[j];
    if t1.accountid == t2.accountid && t1.id < t2.id && (forall|k: int|
        0 <= k < s.len() && #[trigger] s[k].accountid == t2.accountid ==> !(t1.id < s[k].id < t2.id)) {
        if j <= i {
            if j < i {
                assert(s[j].row_id() < s[i].row_id());
            }
        }
        assert forall|k: int| i < k < j implies #[trigger] s[k].accountid != t2.accountid by {
            assert(s[i].row_id() < s[k].row_id());
            assert(s[k].row_id() < s[j].row_id());
        }
        assert(is_predecessor(s, i, j));
    }
    if forall|k: int| 0 <= k < s.len() && #[trigger] s[k].accountid == s[j].accountid ==> s[j].id <= s[k].id {
        assert forall|k: int| -1 < k < j implies #[trigger] s[k].accountid != s[j].accountid by {
            assert(s[k].row_id() < s[j].row_id());
        }
        assert(is_first(s, j));
    }
}

} // verus!
