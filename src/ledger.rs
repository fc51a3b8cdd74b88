use vstd::prelude::*;
use crate::models::{
    Account, AddCatType, AddTrx, AddTrxCat, AddTrxCatBudget, BudgetPeriod, BudgetRollup, CatType, Category, LedgerError,
    NewAccount, NewTrx, NewTrxCatBudget, Row, Transaction, UpdateAccount, UpdateCatType, UpdateTrx, UpdateTrxCat,
    UpdateTrxCatBudget, in_i64,
};
use crate::tables::{
    table_wf, has_row, row_index, row_of, find_row, lemma_row_index, lemma_same_ids, lemma_push_row, lemma_remove_row,
    lemma_remove_keeps_rows,
};
use crate::accounts::{balance_of, apply_delta_spec, current_balance, apply_delta};
use crate::budgets::{
    spent_fits, apply_spent_spec, check_spent_fits, apply_spent_delta, current_period_spec, current_period, rollup,
    rollup_total, PeriodField,
};
use crate::consistency::{
    consistent, lemma_add_consistent, lemma_update_consistent, lemma_delete_consistent, lemma_consistent_frame,
    lemma_open_account_consistent, lemma_close_account_consistent, has_trx,
};
use crate::listing::{newest_first, insert_newest_first};
use crate::cascade::{
    following_fits, self_fits, shift_following_spec, shift_self_spec, check_following_fits, check_self_fits,
    shift_following, shift_self,
};

verus! {

/// The ledger as a mathematical value: its five tables, each in ascending
/// identifier order, and the next identifier of each.
pub struct LedgerModel {
    pub accounts: Seq<Account>,
    pub cat_types: Seq<CatType>,
    pub categories: Seq<Category>,
    pub budgets: Seq<BudgetPeriod>,
    pub trxs: Seq<Transaction>,
    pub next_account_id: i32,
    pub next_cat_type_id: i32,
    pub next_category_id: i32,
    pub next_budget_id: i32,
    pub next_trx_id: i32,
}

/// Credit and debit are both non-negative.
pub open spec fn amounts_ok(credit: i64, debit: i64) -> bool {
    credit >= 0 && debit >= 0
}

impl LedgerModel {
    /// Structural well-formedness: tables in identifier order, valid amounts,
    /// and every transaction refers to an existing account and category.
    pub open spec fn wf(self) -> bool {
        &&& table_wf(self.accounts, self.next_account_id)
        &&& table_wf(self.cat_types, self.next_cat_type_id)
        &&& table_wf(self.categories, self.next_category_id)
        &&& table_wf(self.budgets, self.next_budget_id)
        &&& table_wf(self.trxs, self.next_trx_id)
        &&& forall|i: int| 0 <= i < self.trxs.len() ==> {
            let t = #[trigger] self.trxs[i];
            &&& amounts_ok(t.credit, t.debit)
            &&& has_row(self.accounts, t.accountid)
            &&& has_row(self.categories, t.categoryid)
        }
    }
}

// ------------------------------------------------------------------ adding

/// The row that posting `t` inserts: the account's balance is its snapshot before.
pub open spec fn posted(m: LedgerModel, t: NewTrx) -> Transaction {
    let b = balance_of(m.accounts, t.accountid);
    Transaction {
        id: m.next_trx_id,
        credit: t.credit,
        debit: t.debit,
        description: t.description,
        balance_before: b as i64,
        balance_after: (b + t.credit - t.debit) as i64,
        datetime: t.datetime,
        accountid: t.accountid,
        categoryid: t.categoryid,
    }
}

/// Posting `t` fits the store: no figure leaves `i64` and an identifier is left.
pub open spec fn add_fits(m: LedgerModel, t: NewTrx) -> bool {
    let amount = t.credit - t.debit;
    &&& in_i64(balance_of(m.accounts, t.accountid) + amount)
    &&& spent_fits(m.budgets, t.categoryid, amount)
    &&& m.next_trx_id < i32::MAX
}

/// The ledger after posting `t`: the row appended, the account balance and the
/// category's current spent moved by credit minus debit.
pub open spec fn add_spec(m: LedgerModel, t: NewTrx) -> LedgerModel {
    let amount = t.credit - t.debit;
    LedgerModel {
        trxs: m.trxs.push(posted(m, t)),
        accounts: apply_delta_spec(m.accounts, t.accountid, amount),
        budgets: apply_spent_spec(m.budgets, t.categoryid, amount),
        next_trx_id: (m.next_trx_id + 1) as i32,
        ..m
    }
}

/// Builds the row to insert for `trx` on an account whose balance is `balance`:
/// `balance_before` is that balance and `balance_after` adds credit minus
/// debit. None when `balance_after` leaves the range of `i64`.
pub fn build_add_trx(trx: NewTrx, balance: i64) -> (r: Option<AddTrx>)
    ensures
        r is None <==> !in_i64(balance + trx.credit - trx.debit),
        r matches Some(a) ==> a == (AddTrx {
            credit: trx.credit,
            debit: trx.debit,
            description: trx.description,
            balance_before: balance,
            balance_after: (balance + trx.credit - trx.debit) as i64,
            datetime: trx.datetime,
            accountid: trx.accountid,
            categoryid: trx.categoryid,
        }),
{
    let after = balance as i128 + (trx.credit as i128 - trx.debit as i128);
    if after < i64::MIN as i128 || after > i64::MAX as i128 {
        return None;
    }
    Some(AddTrx {
        credit: trx.credit,
        debit: trx.debit,
        description: trx.description,
        balance_before: balance,
        balance_after: after as i64,
        datetime: trx.datetime,
        accountid: trx.accountid,
        categoryid: trx.categoryid,
    })
}

// ---------------------------------------------------------------- updating

/// Every amount that `u` gives is non-negative.
pub open spec fn update_amounts_ok(u: UpdateTrx) -> bool {
    &&& (u.credit matches Some(c) ==> c >= 0)
    &&& (u.debit matches Some(d) ==> d >= 0)
}

/// The category that `u` moves the transaction to, if any, exists.
pub open spec fn update_category_ok(m: LedgerModel, u: UpdateTrx) -> bool {
    u.categoryid matches Some(c) ==> has_row(m.categories, c)
}

/// Change of the net amount of `e` under `u`: new minus existing credit-minus-debit
/// when `u` gives both credit and debit, else zero.
pub open spec fn update_delta_spec(e: Transaction, u: UpdateTrx) -> int {
    match (u.credit, u.debit) {
        (Some(c), Some(d)) => (c - d) - (e.credit - e.debit),
        _ => 0,
    }
}

/// The change of net amount that `u` makes to `existing`: new minus existing
/// credit-minus-debit when `u` gives both credit and debit, else zero.
pub fn update_delta(existing: &Transaction, u: &UpdateTrx) -> (r: i128)
    ensures
        r == update_delta_spec(*existing, *u),
{
    match (u.credit, u.debit) {
        (Some(c), Some(d)) => (c as i128 - d as i128) - (existing.credit as i128 - existing.debit as i128),
        _ => 0,
    }
}

/// `t` with the fields that `u` gives; balance columns are not touched.
pub open spec fn with_fields(t: Transaction, u: UpdateTrx) -> Transaction {
    Transaction {
        credit: match u.credit {
            Some(c) => c,
            None => t.credit,
        },
        debit: match u.debit {
            Some(d) => d,
            None => t.debit,
        },
        description: match u.description {
            Some(d) => Some(d),
            None => t.description,
        },
        datetime: match u.datetime {
            Some(d) => d,
            None => t.datetime,
        },
        categoryid: match u.categoryid {
            Some(c) => c,
            None => t.categoryid,
        },
        ..t
    }
}

pub open spec fn apply_fields_spec(s: Seq<Transaction>, id: i32, u: UpdateTrx) -> Seq<Transaction> {
    Seq::new(s.len(), |i: int| if s[i].id == id { with_fields(s[i], u) } else { s[i] })
}

/// Applying `u` to transaction `id` fits the store.
pub open spec fn update_fits(m: LedgerModel, id: i32, u: UpdateTrx) -> bool {
    let e = row_of(m.trxs, id);
    let d = update_delta_spec(e, u);
    &&& in_i64(d)
    &&& d != 0 ==> {
        &&& self_fits(m.trxs, id, e.accountid, d)
        &&& following_fits(m.trxs, e.accountid, id, d)
        &&& in_i64(balance_of(m.accounts, e.accountid) + d)
        &&& spent_fits(m.budgets, e.categoryid, d)
    }
}

/// The ledger after applying `u` to transaction `id`: when the net amount
/// changes by a non-zero delta, its `balance_after`, both snapshot figures of
/// every later transaction on its account, the account balance and the current
/// spent of its (former) category move by delta; then the given fields are stored.
pub open spec fn update_spec(m: LedgerModel, id: i32, u: UpdateTrx) -> LedgerModel {
    let e = row_of(m.trxs, id);
    let d = update_delta_spec(e, u);
    let moved = if d != 0 {
        shift_following_spec(shift_self_spec(m.trxs, id, e.accountid, d), e.accountid, id, d)
    } else {
        m.trxs
    };
    LedgerModel {
        trxs: apply_fields_spec(moved, id, u),
        accounts: if d != 0 { apply_delta_spec(m.accounts, e.accountid, d) } else { m.accounts },
        budgets: if d != 0 { apply_spent_spec(m.budgets, e.categoryid, d) } else { m.budgets },
        ..m
    }
}

// ---------------------------------------------------------------- deleting

/// What deleting `e` adds to the balances: debit minus credit, reversing it.
pub open spec fn delete_amount(e: Transaction) -> int {
    e.debit - e.credit
}

/// What deleting `e` adds to the balances, given non-negative credit and debit.
pub fn delete_delta(e: &Transaction) -> (r: i64)
    requires
        amounts_ok(e.credit, e.debit),
    ensures
        r == delete_amount(*e),
{
    e.debit - e.credit
}

/// Deleting transaction `id` fits the store.
pub open spec fn delete_fits(m: LedgerModel, id: i32) -> bool {
    let e = row_of(m.trxs, id);
    let a = delete_amount(e);
    &&& following_fits(m.trxs, e.accountid, id, a)
    &&& in_i64(balance_of(m.accounts, e.accountid) + a)
    &&& spent_fits(m.budgets, e.categoryid, a)
}

/// The ledger after deleting transaction `id`: later transactions on its
/// account, the account balance and its category's current spent move by debit
/// minus credit, and the row goes.
pub open spec fn delete_spec(m: LedgerModel, id: i32) -> LedgerModel {
    let e = row_of(m.trxs, id);
    let a = delete_amount(e);
    LedgerModel {
        trxs: shift_following_spec(m.trxs, e.accountid, id, a).remove(row_index(m.trxs, id)),
        accounts: apply_delta_spec(m.accounts, e.accountid, a),
        budgets: apply_spent_spec(m.budgets, e.categoryid, a),
        ..m
    }
}

// ------------------------------------------------------ accounts and the rest

/// The account that opening `a` creates: the next identifier, a zero balance.
pub open spec fn opened_account(m: LedgerModel, a: NewAccount) -> Account {
    Account {
        id: m.next_account_id,
        name: a.name,
        description: a.description,
        star: a.star,
        account_type: a.account_type,
        balance: 0,
    }
}

/// `a` with the descriptive fields that `u` gives; the balance stays.
pub open spec fn account_with_fields(a: Account, u: UpdateAccount) -> Account {
    Account {
        name: match u.name {
            Some(v) => v,
            None => a.name,
        },
        description: match u.description {
            Some(v) => Some(v),
            None => a.description,
        },
        star: match u.star {
            Some(v) => v,
            None => a.star,
        },
        account_type: match u.account_type {
            Some(v) => v,
            None => a.account_type,
        },
        ..a
    }
}

pub open spec fn cat_type_with_fields(c: CatType, u: UpdateCatType) -> CatType {
    CatType {
        cat_type: match u.cat_type {
            Some(v) => v,
            None => c.cat_type,
        },
        description: match u.description {
            Some(v) => Some(v),
            None => c.description,
        },
        icon: match u.icon {
            Some(v) => v,
            None => c.icon,
        },
        ..c
    }
}

pub open spec fn category_with_fields(c: Category, u: UpdateTrxCat) -> Category {
    Category {
        name: match u.name {
            Some(v) => v,
            None => c.name,
        },
        description: match u.description {
            Some(v) => Some(v),
            None => c.description,
        },
        ..c
    }
}

/// `p` with the fields that `u` gives, except `spent`, which the ledger alone moves.
pub open spec fn period_with_fields(p: BudgetPeriod, u: UpdateTrxCatBudget) -> BudgetPeriod {
    BudgetPeriod {
        periode: match u.periode {
            Some(v) => v,
            None => p.periode,
        },
        allocated: match u.allocated {
            Some(v) => v,
            None => p.allocated,
        },
        available: match u.available {
            Some(v) => v,
            None => p.available,
        },
        categoryid: match u.categoryid {
            Some(v) => v,
            None => p.categoryid,
        },
        ..p
    }
}

/// The period that a new category's budget opens.
pub open spec fn opened_period(id: i32, b: AddTrxCatBudget, cat: i32) -> BudgetPeriod {
    BudgetPeriod {
        id,
        periode: b.periode,
        allocated: b.allocated,
        spent: b.spent,
        available: b.available,
        categoryid: cat,
    }
}

/// `t` passes the listing filter: the given account and category, if any.
pub open spec fn trx_matches(t: Transaction, accountid: Option<i32>, categoryid: Option<i32>) -> bool {
    &&& (accountid matches Some(a) ==> t.accountid == a)
    &&& (categoryid matches Some(c) ==> t.categoryid == c)
}

pub open spec fn trx_filter(accountid: Option<i32>, categoryid: Option<i32>) -> spec_fn(Transaction) -> bool {
    |t: Transaction| trx_matches(t, accountid, categoryid)
}

/// Some category belongs to category type `id`.
pub open spec fn type_in_use(cats: Seq<Category>, id: i32) -> bool {
    exists|i: int| 0 <= i < cats.len() && #[trigger] cats[i].typeid == id
}

/// Some transaction is posted in category `id`.
pub open spec fn category_in_use(s: Seq<Transaction>, id: i32) -> bool {
    exists|i: int| 0 <= i < s.len() && #[trigger] s[i].categoryid == id
}

pub open spec fn not_of_category(cat: i32) -> spec_fn(BudgetPeriod) -> bool {
    |p: BudgetPeriod| p.categoryid != cat
}

/// Tells whether a transaction refers to account `id`.
pub fn account_in_use(trxs: &Vec<Transaction>, id: i32) -> (r: bool)
    ensures
        r == has_trx(trxs@, id),
{
    let mut k: usize = 0;
    while k < trxs.len()
        invariant
            k <= trxs.len(),
            forall|j: int| 0 <= j < k ==> #[trigger] trxs@[j].accountid != id,
        decreases trxs.len() - k,
    {
        if trxs[k].accountid == id {
            return true;
        }
        k += 1;
    }
    false
}

/// Tells whether a category belongs to type `id`.
pub fn check_type_in_use(cats: &Vec<Category>, id: i32) -> (r: bool)
    ensures
        r == type_in_use(cats@, id),
{
    let mut k: usize = 0;
    while k < cats.len()
        invariant
            k <= cats.len(),
            forall|j: int| 0 <= j < k ==> #[trigger] cats@[j].typeid != id,
        decreases cats.len() - k,
    {
        if cats[k].typeid == id {
            return true;
        }
        k += 1;
    }
    false
}

/// Tells whether a transaction is posted in category `id`.
pub fn check_category_in_use(trxs: &Vec<Transaction>, id: i32) -> (r: bool)
    ensures
        r == category_in_use(trxs@, id),
{
    let mut k: usize = 0;
    while k < trxs.len()
        invariant
            k <= trxs.len(),
            forall|j: int| 0 <= j < k ==> #[trigger] trxs@[j].categoryid != id,
        decreases trxs.len() - k,
    {
        if trxs[k].categoryid == id {
            return true;
        }
        k += 1;
    }
    false
}

/// Holds every table of the ledger and runs the operations that keep account
/// balances, transaction snapshots and budget spending consistent.
pub struct Ledger {
    accounts: Vec<Account>,
    cat_types: Vec<CatType>,
    categories: Vec<Category>,
    budgets: Vec<BudgetPeriod>,
    trxs: Vec<Transaction>,
    next_account_id: i32,
    next_cat_type_id: i32,
    next_category_id: i32,
    next_budget_id: i32,
    next_trx_id: i32,
}

impl View for Ledger {
    type V = LedgerModel;

    closed spec fn view(&self) -> LedgerModel {
        LedgerModel {
            accounts: self.accounts@,
            cat_types: self.cat_types@,
            categories: self.categories@,
            budgets: self.budgets@,
            trxs: self.trxs@,
            next_account_id: self.next_account_id,
            next_cat_type_id: self.next_cat_type_id,
            next_category_id: self.next_category_id,
            next_budget_id: self.next_budget_id,
            next_trx_id: self.next_trx_id,
        }
    }
}

impl Ledger {
    pub open spec fn wf(&self) -> bool {
        self@.wf()
    }

    /// An empty ledger.
    pub fn new() -> (r: Ledger)
        ensures
            r.wf(),
            r@.accounts.len() == 0,
            r@.cat_types.len() == 0,
            r@.categories.len() == 0,
            r@.budgets.len() == 0,
            r@.trxs.len() == 0,
            consistent(r@),
    {
        Ledger {
            accounts: Vec::new(),
            cat_types: Vec::new(),
            categories: Vec::new(),
            budgets: Vec::new(),
            trxs: Vec::new(),
            next_account_id: 1,
            next_cat_type_id: 1,
            next_category_id: 1,
            next_budget_id: 1,
            next_trx_id: 1,
        }
    }

    /// Posts a transaction: its snapshot starts at the account's balance, the
    /// account balance and the category's current budget spent move by credit
    /// minus debit. Returns the inserted row. On any error nothing changes.
    pub fn add_transaction(&mut self, trx: NewTrx) -> (r: Result<Transaction, LedgerError>)
        requires
            old(self).wf(),
        ensures
            final(self).wf(),
            r == Err::<Transaction, LedgerError>(LedgerError::InvalidAmount) <==> !amounts_ok(trx.credit, trx.debit),
            r == Err::<Transaction, LedgerError>(LedgerError::NotFound) <==> amounts_ok(trx.credit, trx.debit) && (
            !has_row(old(self)@.accounts, trx.accountid) || !has_row(old(self)@.categories, trx.categoryid)),
            r == Err::<Transaction, LedgerError>(LedgerError::StorageFailure) <==> amounts_ok(trx.credit, trx.debit)
                && has_row(old(self)@.accounts, trx.accountid) && has_row(old(self)@.categories, trx.categoryid)
                && !add_fits(old(self)@, trx),
            r is Err ==> final(self)@ == old(self)@,
            r matches Ok(t) ==> t == posted(old(self)@, trx) && final(self)@ == add_spec(old(self)@, trx),
            consistent(old(self)@) ==> consistent(final(self)@),
    {
        if trx.credit < 0 || trx.debit < 0 {
            return Err(LedgerError::InvalidAmount);
        }
        let balance = match current_balance(&self.accounts, trx.accountid) {
            Ok(b) => b,
            Err(e) => return Err(e),
        };
        if find_row(&self.categories, trx.categoryid).is_none() {
            return Err(LedgerError::NotFound);
        }
        let amount: i64 = trx.credit - trx.debit;
        if !check_spent_fits(&self.budgets, trx.categoryid, amount as i128) || self.next_trx_id == i32::MAX {
            return Err(LedgerError::StorageFailure);
        }
        let acc = trx.accountid;
        let cat = trx.categoryid;
        let ghost m = self@;
        let ghost given = trx;
        let add = match build_add_trx(trx, balance) {
            Some(a) => a,
            None => return Err(LedgerError::StorageFailure),
        };
        let row = Transaction {
            id: self.next_trx_id,
            credit: add.credit,
            debit: add.debit,
            description: add.description,
            balance_before: add.balance_before,
            balance_after: add.balance_after,
            datetime: add.datetime,
            accountid: add.accountid,
            categoryid: add.categoryid,
        };
        assert(row == posted(m, given));
        let result = row.duplicate();
        proof {
            lemma_push_row(self.trxs@, self.next_trx_id, row);
        }
        self.trxs.push(row);
        self.next_trx_id = self.next_trx_id + 1;
        let a = apply_delta(&mut self.accounts, acc, amount);
        assert(a is Ok);
        let b = apply_spent_delta(&mut self.budgets, cat, amount);
        assert(b is Ok);
        proof {
            lemma_same_ids(m.accounts, self.accounts@);
            lemma_same_ids(m.budgets, self.budgets@);
            assert(self@ == add_spec(m, given));
            if consistent(m) {
                lemma_add_consistent(m, given);
            }
        }
        Ok(result)
    }

    /// Edits transaction `id`. When `trx` gives both credit and debit and the net
    /// amount changes, the change is cascaded to the transaction's own
    /// `balance_after`, to every later transaction on its account, to the account
    /// balance and to its category's current budget spent. Then the given fields
    /// are stored. Returns the stored row. On any error nothing changes.
    pub fn update_transaction(&mut self, id: i32, trx: UpdateTrx) -> (r: Result<Transaction, LedgerError>)
        requires
            old(self).wf(),
        ensures
            final(self).wf(),
            r == Err::<Transaction, LedgerError>(LedgerError::InvalidAmount) <==> !update_amounts_ok(trx),
            r == Err::<Transaction, LedgerError>(LedgerError::NotFound) <==> update_amounts_ok(trx) && (!has_row(
                old(self)@.trxs,
                id,
            ) || !update_category_ok(old(self)@, trx)),
            r == Err::<Transaction, LedgerError>(LedgerError::StorageFailure) <==> update_amounts_ok(trx) && has_row(
                old(self)@.trxs,
                id,
            ) && update_category_ok(old(self)@, trx) && !update_fits(old(self)@, id, trx),
            r is Err ==> final(self)@ == old(self)@,
            r matches Ok(t) ==> final(self)@ == update_spec(old(self)@, id, trx) && t == row_of(final(self)@.trxs, id),
            consistent(old(self)@) && (trx.credit is Some <==> trx.debit is Some) ==> consistent(final(self)@),
    {
        match trx.credit {
            Some(c) => if c < 0 {
                return Err(LedgerError::InvalidAmount);
            },
            None => {},
        }
        match trx.debit {
            Some(d) => if d < 0 {
                return Err(LedgerError::InvalidAmount);
            },
            None => {},
        }
        let i = match find_row(&self.trxs, id) {
            Some(i) => i,
            None => return Err(LedgerError::NotFound),
        };
        match trx.categoryid {
            Some(c) => if find_row(&self.categories, c).is_none() {
                return Err(LedgerError::NotFound);
            },
            None => {},
        }
        let ghost m = self@;
        let ghost given = trx;
        let acc = self.trxs[i].accountid;
        let cat = self.trxs[i].categoryid;
        proof {
            assert(self.trxs@[i as int] == row_of(m.trxs, id));
        }
        let delta = update_delta(&self.trxs[i], &trx);
        if delta != 0 {
            if delta < i64::MIN as i128 || delta > i64::MAX as i128 {
                return Err(LedgerError::StorageFailure);
            }
            let balance = match current_balance(&self.accounts, acc) {
                Ok(b) => b,
                Err(e) => return Err(e),
            };
            let after = balance as i128 + delta;
            if !check_self_fits(&self.trxs, id, acc, delta) || !check_following_fits(&self.trxs, acc, id, delta)
                || after < i64::MIN as i128 || after > i64::MAX as i128 || !check_spent_fits(
                &self.budgets,
                cat,
                delta,
            ) {
                return Err(LedgerError::StorageFailure);
            }
            let d = delta as i64;
            let r1 = shift_self(&mut self.trxs, id, acc, d);
            assert(r1 is Ok);
            proof {
                let s1 = shift_self_spec(m.trxs, id, acc, d as int);
                assert forall|k: int| 0 <= k < s1.len() && #[trigger] crate::cascade::is_following(s1[k], acc, id)
                    implies s1[k] == m.trxs[k] by {}
            }
            let r2 = shift_following(&mut self.trxs, acc, id, d);
            assert(r2 is Ok);
            let r3 = apply_delta(&mut self.accounts, acc, d);
            assert(r3 is Ok);
            let r4 = apply_spent_delta(&mut self.budgets, cat, d);
            assert(r4 is Ok);
        }
        let ghost moved = self.trxs@;
        proof {
            lemma_same_ids(m.trxs, moved);
            lemma_same_ids(m.accounts, self.accounts@);
            lemma_same_ids(m.budgets, self.budgets@);
            lemma_row_index(moved, i as int);
        }
        match trx.credit {
            Some(c) => {
                self.trxs[i].credit = c;
            },
            None => {},
        }
        match trx.debit {
            Some(d) => {
                self.trxs[i].debit = d;
            },
            None => {},
        }
        match trx.description {
            Some(d) => {
                self.trxs[i].description = Some(d);
            },
            None => {},
        }
        match trx.datetime {
            Some(d) => {
                self.trxs[i].datetime = d;
            },
            None => {},
        }
        match trx.categoryid {
            Some(c) => {
                self.trxs[i].categoryid = c;
            },
            None => {},
        }
        proof {
            assert(self.trxs@ =~= apply_fields_spec(moved, id, given));
            lemma_same_ids(moved, self.trxs@);
            lemma_row_index(self.trxs@, i as int);
            assert(self@ == update_spec(m, id, given));
            if consistent(m) && (given.credit is Some <==> given.debit is Some) {
                lemma_update_consistent(m, id, given);
            }
            assert forall|k: int| 0 <= k < self.trxs@.len() implies {
                let t = #[trigger] self.trxs@[k];
                &&& amounts_ok(t.credit, t.debit)
                &&& has_row(self.accounts@, t.accountid)
                &&& has_row(self.categories@, t.categoryid)
            } by {
                assert(moved[k].accountid == m.trxs[k].accountid);
                assert(moved[k].categoryid == m.trxs[k].categoryid);
                assert(moved[k].credit == m.trxs[k].credit);
                assert(moved[k].debit == m.trxs[k].debit);
            }
        }
        Ok(self.trxs[i].duplicate())
    }

    /// Deletes transaction `id`, reversing its effect: every later transaction on
    /// its account, the account balance and its category's current budget spent
    /// move by debit minus credit. Returns the row as it stood before. On any
    /// error nothing changes.
    pub fn delete_transaction(&mut self, id: i32) -> (r: Result<Transaction, LedgerError>)
        requires
            old(self).wf(),
        ensures
            final(self).wf(),
            r == Err::<Transaction, LedgerError>(LedgerError::NotFound) <==> !has_row(old(self)@.trxs, id),
            r == Err::<Transaction, LedgerError>(LedgerError::StorageFailure) <==> has_row(old(self)@.trxs, id)
                && !delete_fits(old(self)@, id),
            r != Err::<Transaction, LedgerError>(LedgerError::InvalidAmount),
            r is Err ==> final(self)@ == old(self)@,
            r matches Ok(t) ==> t == row_of(old(self)@.trxs, id) && final(self)@ == delete_spec(old(self)@, id),
            consistent(old(self)@) ==> consistent(final(self)@),
    {
        let i = match find_row(&self.trxs, id) {
            Some(i) => i,
            None => return Err(LedgerError::NotFound),
        };
        let ghost m = self@;
        let acc = self.trxs[i].accountid;
        let cat = self.trxs[i].categoryid;
        proof {
            assert(self.trxs@[i as int] == row_of(m.trxs, id));
        }
        let amount = delete_delta(&self.trxs[i]);
        let balance = match current_balance(&self.accounts, acc) {
            Ok(b) => b,
            Err(e) => return Err(e),
        };
        let after = balance as i128 + amount as i128;
        if !check_following_fits(&self.trxs, acc, id, amount as i128) || after < i64::MIN as i128 || after
            > i64::MAX as i128 || !check_spent_fits(&self.budgets, cat, amount as i128) {
            return Err(LedgerError::StorageFailure);
        }
        let r1 = shift_following(&mut self.trxs, acc, id, amount);
        assert(r1 is Ok);
        let r2 = apply_delta(&mut self.accounts, acc, amount);
        assert(r2 is Ok);
        let r3 = apply_spent_delta(&mut self.budgets, cat, amount);
        assert(r3 is Ok);
        let ghost moved = self.trxs@;
        proof {
            lemma_same_ids(m.trxs, moved);
            lemma_same_ids(m.accounts, self.accounts@);
            lemma_same_ids(m.budgets, self.budgets@);
            assert(moved[i as int] == m.trxs[i as int]);
            lemma_remove_row(moved, self.next_trx_id, i as int);
        }
        let removed = self.trxs.remove(i);
        proof {
            assert(self@ == delete_spec(m, id));
            if consistent(m) {
                lemma_delete_consistent(m, id);
            }
            assert forall|k: int| 0 <= k < self.trxs@.len() implies {
                let t = #[trigger] self.trxs@[k];
                &&& amounts_ok(t.credit, t.debit)
                &&& has_row(self.accounts@, t.accountid)
                &&& has_row(self.categories@, t.categoryid)
            } by {
                let j = if k < i { k } else { k + 1 };
                assert(self.trxs@[k] == moved[j]);
                assert(moved[j].accountid == m.trxs[j].accountid);
                assert(moved[j].categoryid == m.trxs[j].categoryid);
            }
        }
        Ok(removed)
    }

    /// Opens an account. Its balance is kept by the ledger alone and starts at
    /// zero, so a payload with another opening balance is refused.
    pub fn add_account(&mut self, account: NewAccount) -> (r: Result<Account, LedgerError>)
        requires
            old(self).wf(),
        ensures
            final(self).wf(),
            r == Err::<Account, LedgerError>(LedgerError::InvalidAmount) <==> account.balance != 0,
            r == Err::<Account, LedgerError>(LedgerError::StorageFailure) <==> account.balance == 0
                && old(self)@.next_account_id == i32::MAX,
            r != Err::<Account, LedgerError>(LedgerError::NotFound),
            r is Err ==> final(self)@ == old(self)@,
            r matches Ok(a) ==> a == opened_account(old(self)@, account) && final(self)@ == (LedgerModel {
                accounts: old(self)@.accounts.push(a),
                next_account_id: (old(self)@.next_account_id + 1) as i32,
                ..old(self)@
            }),
            consistent(old(self)@) ==> consistent(final(self)@),
    {
        if account.balance != 0 {
            return Err(LedgerError::InvalidAmount);
        }
        if self.next_account_id == i32::MAX {
            return Err(LedgerError::StorageFailure);
        }
        let ghost m = self@;
        let a = Account {
            id: self.next_account_id,
            name: account.name,
            description: account.description,
            star: account.star,
            account_type: account.account_type,
            balance: 0,
        };
        let result = a.duplicate();
        proof {
            lemma_push_row(self.accounts@, self.next_account_id, a);
            if consistent(m) {
                lemma_open_account_consistent(m, a);
            }
        }
        self.accounts.push(a);
        self.next_account_id = self.next_account_id + 1;
        proof {
            let t = self.trxs@;
            assert forall|i: int| 0 <= i < t.len() implies has_row(self.accounts@, (#[trigger] t[i]).accountid) by {
                assert(has_row(m.accounts, t[i].accountid));
            }
            assert(consistent(m) ==> consistent(LedgerModel { accounts: m.accounts.push(a), ..m }));
            assert(self@ == LedgerModel { accounts: m.accounts.push(a), next_account_id: (m.next_account_id + 1) as i32, ..m });
        }
        Ok(result)
    }

    /// Edits the descriptive fields of account `id`. A client never writes the
    /// balance: a payload that gives one is refused.
    pub fn update_account(&mut self, id: i32, account: UpdateAccount) -> (r: Result<Account, LedgerError>)
        requires
            old(self).wf(),
        ensures
            final(self).wf(),
            r == Err::<Account, LedgerError>(LedgerError::InvalidAmount) <==> account.balance is Some,
            r == Err::<Account, LedgerError>(LedgerError::NotFound) <==> account.balance is None && !has_row(
                old(self)@.accounts,
                id,
            ),
            r != Err::<Account, LedgerError>(LedgerError::StorageFailure),
            r is Err ==> final(self)@ == old(self)@,
            r matches Ok(a) ==> a == account_with_fields(row_of(old(self)@.accounts, id), account) && final(self)@ == (
            LedgerModel { accounts: old(self)@.accounts.update(row_index(old(self)@.accounts, id), a), ..old(self)@ }),
            consistent(old(self)@) ==> consistent(final(self)@),
    {
        if account.balance.is_some() {
            return Err(LedgerError::InvalidAmount);
        }
        let i = match find_row(&self.accounts, id) {
            Some(i) => i,
            None => return Err(LedgerError::NotFound),
        };
        let ghost m = self@;
        let ghost given = account;
        match account.name {
            Some(v) => {
                self.accounts[i].name = v;
            },
            None => {},
        }
        match account.description {
            Some(v) => {
                self.accounts[i].description = Some(v);
            },
            None => {},
        }
        match account.star {
            Some(v) => {
                self.accounts[i].star = v;
            },
            None => {},
        }
        match account.account_type {
            Some(v) => {
                self.accounts[i].account_type = v;
            },
            None => {},
        }
        proof {
            assert(self.accounts@ =~= m.accounts.update(i as int, account_with_fields(m.accounts[i as int], given)));
            lemma_same_ids(m.accounts, self.accounts@);
            if consistent(m) {
                lemma_consistent_frame(m, self@);
            }
        }
        Ok(self.accounts[i].duplicate())
    }

    /// Creates a category type.
    pub fn add_cat_type(&mut self, cat_type: AddCatType) -> (r: Result<CatType, LedgerError>)
        requires
            old(self).wf(),
        ensures
            final(self).wf(),
            r is Err <==> old(self)@.next_cat_type_id == i32::MAX,
            r matches Err(e) ==> e == LedgerError::StorageFailure,
            r is Err ==> final(self)@ == old(self)@,
            r matches Ok(c) ==> c == (CatType {
                id: old(self)@.next_cat_type_id,
                cat_type: cat_type.cat_type,
                description: cat_type.description,
                icon: cat_type.icon,
            }) && final(self)@ == (LedgerModel {
                cat_types: old(self)@.cat_types.push(c),
                next_cat_type_id: (old(self)@.next_cat_type_id + 1) as i32,
                ..old(self)@
            }),
            consistent(old(self)@) ==> consistent(final(self)@),
    {
        if self.next_cat_type_id == i32::MAX {
            return Err(LedgerError::StorageFailure);
        }
        let c = CatType {
            id: self.next_cat_type_id,
            cat_type: cat_type.cat_type,
            description: cat_type.description,
            icon: cat_type.icon,
        };
        let result = c.duplicate();
        proof {
            lemma_push_row(self.cat_types@, self.next_cat_type_id, c);
        }
        self.cat_types.push(c);
        self.next_cat_type_id = self.next_cat_type_id + 1;
        Ok(result)
    }

    /// Edits category type `id`.
    pub fn update_cat_type(&mut self, id: i32, cat_type: UpdateCatType) -> (r: Result<CatType, LedgerError>)
        requires
            old(self).wf(),
        ensures
            final(self).wf(),
            r is Err <==> !has_row(old(self)@.cat_types, id),
            r matches Err(e) ==> e == LedgerError::NotFound,
            r is Err ==> final(self)@ == old(self)@,
            r matches Ok(c) ==> c == cat_type_with_fields(row_of(old(self)@.cat_types, id), cat_type) && final(self)@ == (
            LedgerModel { cat_types: old(self)@.cat_types.update(row_index(old(self)@.cat_types, id), c), ..old(self)@ }),
            consistent(old(self)@) ==> consistent(final(self)@),
    {
        let i = match find_row(&self.cat_types, id) {
            Some(i) => i,
            None => return Err(LedgerError::NotFound),
        };
        let ghost m = self@;
        let ghost given = cat_type;
        match cat_type.cat_type {
            Some(v) => {
                self.cat_types[i].cat_type = v;
            },
            None => {},
        }
        match cat_type.description {
            Some(v) => {
                self.cat_types[i].description = Some(v);
            },
            None => {},
        }
        match cat_type.icon {
            Some(v) => {
                self.cat_types[i].icon = v;
            },
            None => {},
        }
        proof {
            assert(self.cat_types@ =~= m.cat_types.update(i as int, cat_type_with_fields(m.cat_types[i as int], given)));
            lemma_same_ids(m.cat_types, self.cat_types@);
        }
        Ok(self.cat_types[i].duplicate())
    }

    /// Creates a category of an existing type and, when the payload carries a
    /// budget, its first budget period. Returns both.
    pub fn add_category(&mut self, category: AddTrxCat) -> (r: Result<(Category, Option<BudgetPeriod>), LedgerError>)
        requires
            old(self).wf(),
        ensures
            final(self).wf(),
            r is Err <==> !has_row(old(self)@.cat_types, category.typeid) || old(self)@.next_category_id == i32::MAX || (
            category.budget is Some && old(self)@.next_budget_id == i32::MAX),
            r matches Err(e) ==> (e == LedgerError::NotFound <==> !has_row(old(self)@.cat_types, category.typeid)),
            r matches Err(e) ==> e != LedgerError::InvalidAmount,
            r is Err ==> final(self)@ == old(self)@,
            r matches Ok((c, p)) ==> {
                &&& c == (Category {
                    id: old(self)@.next_category_id,
                    name: category.name,
                    description: category.description,
                    typeid: category.typeid,
                })
                &&& final(self)@.categories == old(self)@.categories.push(c)
                &&& final(self)@.next_category_id == old(self)@.next_category_id + 1
                &&& match category.budget {
                    Some(b) => {
                        &&& p == Some(opened_period(old(self)@.next_budget_id, b, c.id))
                        &&& final(self)@.budgets == old(self)@.budgets.push(p.unwrap())
                        &&& final(self)@.next_budget_id == old(self)@.next_budget_id + 1
                    },
                    None => {
                        &&& p is None
                        &&& final(self)@.budgets == old(self)@.budgets
                        &&& final(self)@.next_budget_id == old(self)@.next_budget_id
                    },
                }
                &&& final(self)@.accounts == old(self)@.accounts
                &&& final(self)@.cat_types == old(self)@.cat_types
                &&& final(self)@.trxs == old(self)@.trxs
                &&& final(self)@.next_account_id == old(self)@.next_account_id
                &&& final(self)@.next_cat_type_id == old(self)@.next_cat_type_id
                &&& final(self)@.next_trx_id == old(self)@.next_trx_id
            },
            consistent(old(self)@) ==> consistent(final(self)@),
    {
        if find_row(&self.cat_types, category.typeid).is_none() {
            return Err(LedgerError::NotFound);
        }
        if self.next_category_id == i32::MAX || (category.budget.is_some() && self.next_budget_id == i32::MAX) {
            return Err(LedgerError::StorageFailure);
        }
        let ghost m = self@;
        let c = Category {
            id: self.next_category_id,
            name: category.name,
            description: category.description,
            typeid: category.typeid,
        };
        let cat_id = c.id;
        let result = c.duplicate();
        proof {
            lemma_push_row(self.categories@, self.next_category_id, c);
        }
        self.categories.push(c);
        self.next_category_id = self.next_category_id + 1;
        let period = match category.budget {
            Some(b) => {
                let p = BudgetPeriod {
                    id: self.next_budget_id,
                    periode: b.periode,
                    allocated: b.allocated,
                    spent: b.spent,
                    available: b.available,
                    categoryid: cat_id,
                };
                let copy = p.duplicate();
                proof {
                    lemma_push_row(self.budgets@, self.next_budget_id, p);
                }
                self.budgets.push(p);
                self.next_budget_id = self.next_budget_id + 1;
                Some(copy)
            },
            None => None,
        };
        proof {
            let t = self.trxs@;
            assert forall|i: int| 0 <= i < t.len() implies has_row(self.categories@, (#[trigger] t[i]).categoryid) by {
                assert(has_row(m.categories, t[i].categoryid));
            }
        }
        Ok((result, period))
    }

    /// Edits category `id`.
    pub fn update_category(&mut self, id: i32, category: UpdateTrxCat) -> (r: Result<Category, LedgerError>)
        requires
            old(self).wf(),
        ensures
            final(self).wf(),
            r is Err <==> !has_row(old(self)@.categories, id),
            r matches Err(e) ==> e == LedgerError::NotFound,
            r is Err ==> final(self)@ == old(self)@,
            r matches Ok(c) ==> c == category_with_fields(row_of(old(self)@.categories, id), category) && final(self)@
                == (LedgerModel {
                categories: old(self)@.categories.update(row_index(old(self)@.categories, id), c),
                ..old(self)@
            }),
            consistent(old(self)@) ==> consistent(final(self)@),
    {
        let i = match find_row(&self.categories, id) {
            Some(i) => i,
            None => return Err(LedgerError::NotFound),
        };
        let ghost m = self@;
        let ghost given = category;
        match category.name {
            Some(v) => {
                self.categories[i].name = v;
            },
            None => {},
        }
        match category.description {
            Some(v) => {
                self.categories[i].description = Some(v);
            },
            None => {},
        }
        proof {
            assert(self.categories@ =~= m.categories.update(i as int, category_with_fields(m.categories[i as int], given)));
            lemma_same_ids(m.categories, self.categories@);
        }
        Ok(self.categories[i].duplicate())
    }

    /// Opens a budget period for an existing category; it becomes the
    /// category's current period.
    pub fn add_budget_period(&mut self, budget: NewTrxCatBudget) -> (r: Result<BudgetPeriod, LedgerError>)
        requires
            old(self).wf(),
        ensures
            final(self).wf(),
            r == Err::<BudgetPeriod, LedgerError>(LedgerError::NotFound) <==> !has_row(old(self)@.categories, budget.categoryid),
            r == Err::<BudgetPeriod, LedgerError>(LedgerError::StorageFailure) <==> has_row(old(self)@.categories, budget.categoryid)
                && old(self)@.next_budget_id == i32::MAX,
            r != Err::<BudgetPeriod, LedgerError>(LedgerError::InvalidAmount),
            r is Err ==> final(self)@ == old(self)@,
            r matches Ok(p) ==> p == (BudgetPeriod {
                id: old(self)@.next_budget_id,
                periode: budget.periode,
                allocated: budget.allocated,
                spent: budget.spent,
                available: budget.available,
                categoryid: budget.categoryid,
            }) && final(self)@ == (LedgerModel {
                budgets: old(self)@.budgets.push(p),
                next_budget_id: (old(self)@.next_budget_id + 1) as i32,
                ..old(self)@
            }),
            consistent(old(self)@) ==> consistent(final(self)@),
    {
        if find_row(&self.categories, budget.categoryid).is_none() {
            return Err(LedgerError::NotFound);
        }
        if self.next_budget_id == i32::MAX {
            return Err(LedgerError::StorageFailure);
        }
        let p = BudgetPeriod {
            id: self.next_budget_id,
            periode: budget.periode,
            allocated: budget.allocated,
            spent: budget.spent,
            available: budget.available,
            categoryid: budget.categoryid,
        };
        let result = p.duplicate();
        proof {
            lemma_push_row(self.budgets@, self.next_budget_id, p);
        }
        self.budgets.push(p);
        self.next_budget_id = self.next_budget_id + 1;
        Ok(result)
    }

    /// Edits budget period `id`: label, allocation, available figure and
    /// category. Its `spent` is moved by ledger operations alone, so a value
    /// given for it is not applied.
    pub fn update_budget_period(&mut self, id: i32, budget: UpdateTrxCatBudget) -> (r: Result<BudgetPeriod, LedgerError>)
        requires
            old(self).wf(),
        ensures
            final(self).wf(),
            r is Err <==> !has_row(old(self)@.budgets, id) || (budget.categoryid matches Some(c) && !has_row(
                old(self)@.categories,
                c,
            )),
            r matches Err(e) ==> e == LedgerError::NotFound,
            r is Err ==> final(self)@ == old(self)@,
            r matches Ok(p) ==> p == period_with_fields(row_of(old(self)@.budgets, id), budget) && final(self)@ == (
            LedgerModel { budgets: old(self)@.budgets.update(row_index(old(self)@.budgets, id), p), ..old(self)@ }),
            consistent(old(self)@) ==> consistent(final(self)@),
    {
        let i = match find_row(&self.budgets, id) {
            Some(i) => i,
            None => return Err(LedgerError::NotFound),
        };
        match budget.categoryid {
            Some(c) => if find_row(&self.categories, c).is_none() {
                return Err(LedgerError::NotFound);
            },
            None => {},
        }
        let ghost m = self@;
        let ghost given = budget;
        match budget.periode {
            Some(v) => {
                self.budgets[i].periode = v;
            },
            None => {},
        }
        match budget.allocated {
            Some(v) => {
                self.budgets[i].allocated = v;
            },
            None => {},
        }
        match budget.available {
            Some(v) => {
                self.budgets[i].available = v;
            },
            None => {},
        }
        match budget.categoryid {
            Some(v) => {
                self.budgets[i].categoryid = v;
            },
            None => {},
        }
        proof {
            assert(self.budgets@ =~= m.budgets.update(i as int, period_with_fields(m.budgets[i as int], given)));
            lemma_same_ids(m.budgets, self.budgets@);
        }
        Ok(self.budgets[i].duplicate())
    }

    // ---------------------------------------------------------------- reads

    /// The stored balance of account `id`.
    pub fn current_balance(&self, id: i32) -> (r: Result<i64, LedgerError>)
        requires
            self.wf(),
        ensures
            r is Err <==> !has_row(self@.accounts, id),
            r matches Err(e) ==> e == LedgerError::NotFound,
            r matches Ok(b) ==> b == balance_of(self@.accounts, id),
    {
        current_balance(&self.accounts, id)
    }

    /// The current budget period of category `cat`: its period with the
    /// greatest identifier, or none.
    pub fn current_budget_period(&self, cat: i32) -> (r: Option<BudgetPeriod>)
        requires
            self.wf(),
        ensures
            r == current_period_spec(self@.budgets, cat),
    {
        current_period(&self.budgets, cat)
    }

    /// Allocated, spent and available summed over the current periods of the
    /// categories of type `typeid`.
    pub fn budget_rollup(&self, typeid: i32) -> (r: BudgetRollup)
        requires
            self.wf(),
        ensures
            r.allocated == rollup_total(self@.categories, self@.budgets, typeid, PeriodField::Allocated),
            r.spent == rollup_total(self@.categories, self@.budgets, typeid, PeriodField::Spent),
            r.available == rollup_total(self@.categories, self@.budgets, typeid, PeriodField::Available),
    {
        rollup(&self.categories, &self.budgets, typeid)
    }

    /// Account `id`.
    pub fn account(&self, id: i32) -> (r: Result<Account, LedgerError>)
        requires
            self.wf(),
        ensures
            r is Err <==> !has_row(self@.accounts, id),
            r matches Err(e) ==> e == LedgerError::NotFound,
            r matches Ok(a) ==> a == row_of(self@.accounts, id),
    {
        match find_row(&self.accounts, id) {
            Some(i) => Ok(self.accounts[i].duplicate()),
            None => Err(LedgerError::NotFound),
        }
    }

    /// Category type `id`.
    pub fn cat_type(&self, id: i32) -> (r: Result<CatType, LedgerError>)
        requires
            self.wf(),
        ensures
            r is Err <==> !has_row(self@.cat_types, id),
            r matches Err(e) ==> e == LedgerError::NotFound,
            r matches Ok(c) ==> c == row_of(self@.cat_types, id),
    {
        match find_row(&self.cat_types, id) {
            Some(i) => Ok(self.cat_types[i].duplicate()),
            None => Err(LedgerError::NotFound),
        }
    }

    /// Category `id`.
    pub fn category(&self, id: i32) -> (r: Result<Category, LedgerError>)
        requires
            self.wf(),
        ensures
            r is Err <==> !has_row(self@.categories, id),
            r matches Err(e) ==> e == LedgerError::NotFound,
            r matches Ok(c) ==> c == row_of(self@.categories, id),
    {
        match find_row(&self.categories, id) {
            Some(i) => Ok(self.categories[i].duplicate()),
            None => Err(LedgerError::NotFound),
        }
    }

    /// Budget period `id`.
    pub fn budget_period(&self, id: i32) -> (r: Result<BudgetPeriod, LedgerError>)
        requires
            self.wf(),
        ensures
            r is Err <==> !has_row(self@.budgets, id),
            r matches Err(e) ==> e == LedgerError::NotFound,
            r matches Ok(p) ==> p == row_of(self@.budgets, id),
    {
        match find_row(&self.budgets, id) {
            Some(i) => Ok(self.budgets[i].duplicate()),
            None => Err(LedgerError::NotFound),
        }
    }

    /// Transaction `id`.
    pub fn transaction(&self, id: i32) -> (r: Result<Transaction, LedgerError>)
        requires
            self.wf(),
        ensures
            r is Err <==> !has_row(self@.trxs, id),
            r matches Err(e) ==> e == LedgerError::NotFound,
            r matches Ok(t) ==> t == row_of(self@.trxs, id),
    {
        match find_row(&self.trxs, id) {
            Some(i) => Ok(self.trxs[i].duplicate()),
            None => Err(LedgerError::NotFound),
        }
    }

    /// The transactions of the given account and category (each filter
    /// optional), newest first: later `datetime` first, equal ones in the
    /// order they were recorded.
    pub fn transactions(&self, accountid: Option<i32>, categoryid: Option<i32>) -> (r: Vec<Transaction>)
        requires
            self.wf(),
        ensures
            r@.to_multiset() == self@.trxs.filter(trx_filter(accountid, categoryid)).to_multiset(),
            newest_first(r@),
    {
        let mut r: Vec<Transaction> = Vec::new();
        let mut i: usize = 0;
        proof {
            reveal(Seq::filter);
            assert(self.trxs@.take(0).filter(trx_filter(accountid, categoryid)) =~= r@);
        }
        while i < self.trxs.len()
            invariant
                i <= self.trxs.len(),
                self.wf(),
                newest_first(r@),
                r@.to_multiset() == self.trxs@.take(i as int).filter(trx_filter(accountid, categoryid)).to_multiset(),
                forall|k: int, q: int|
                    0 <= k < r@.len() && i <= q < self.trxs@.len() ==> #[trigger] r@[k].id < #[trigger] self.trxs@[q].id,
            decreases self.trxs.len() - i,
        {
            let t = &self.trxs[i];
            let keep = match accountid {
                Some(a) => t.accountid == a,
                None => true,
            } && match categoryid {
                Some(c) => t.categoryid == c,
                None => true,
            };
            proof {
                let s = self.trxs@.take(i as int + 1);
                assert(s.drop_last() =~= self.trxs@.take(i as int));
                assert(s.last() == self.trxs@[i as int]);
                reveal(Seq::filter);
                assert forall|q: int| i < q < self.trxs@.len() implies self.trxs@[i as int].id < #[trigger] self.trxs@[q].id by {
                    assert(self.trxs@[i as int].row_id() < self.trxs@[q].row_id());
                }
            }
            if keep {
                let ghost before = r@;
                insert_newest_first(&mut r, t.duplicate());
                proof {
                    let f = self.trxs@.take(i as int).filter(trx_filter(accountid, categoryid));
                    vstd::seq_lib::to_multiset_build(f, self.trxs@[i as int]);
                    assert forall|k: int, q: int| 0 <= k < r@.len() && i + 1 <= q < self.trxs@.len() implies #[trigger] r@[k].id
                        < #[trigger] self.trxs@[q].id by {
                        assert(r@[k].id <= self.trxs@[i as int].id);
                    }
                }
            }
            i += 1;
        }
        proof {
            assert(self.trxs@.take(self.trxs@.len() as int) =~= self.trxs@);
        }
        r
    }

    /// Every account, in identifier order.
    pub fn accounts(&self) -> (r: &Vec<Account>)
        ensures
            r@ == self@.accounts,
    {
        &self.accounts
    }

    /// Every category type, in identifier order.
    pub fn cat_types(&self) -> (r: &Vec<CatType>)
        ensures
            r@ == self@.cat_types,
    {
        &self.cat_types
    }

    /// Every category, in identifier order.
    pub fn categories(&self) -> (r: &Vec<Category>)
        ensures
            r@ == self@.categories,
    {
        &self.categories
    }

    /// Every budget period, in identifier order.
    pub fn budget_periods(&self) -> (r: &Vec<BudgetPeriod>)
        ensures
            r@ == self@.budgets,
    {
        &self.budgets
    }

    /// Closes account `id`. An account that a transaction refers to cannot go.
    pub fn delete_account(&mut self, id: i32) -> (r: Result<Account, LedgerError>)
        requires
            old(self).wf(),
        ensures
            final(self).wf(),
            r == Err::<Account, LedgerError>(LedgerError::NotFound) <==> !has_row(old(self)@.accounts, id),
            r == Err::<Account, LedgerError>(LedgerError::StorageFailure) <==> has_row(old(self)@.accounts, id)
                && has_trx(old(self)@.trxs, id),
            r != Err::<Account, LedgerError>(LedgerError::InvalidAmount),
            r is Err ==> final(self)@ == old(self)@,
            r matches Ok(a) ==> a == row_of(old(self)@.accounts, id) && final(self)@ == (LedgerModel {
                accounts: old(self)@.accounts.remove(row_index(old(self)@.accounts, id)),
                ..old(self)@
            }),
            consistent(old(self)@) ==> consistent(final(self)@),
    {
        let i = match find_row(&self.accounts, id) {
            Some(i) => i,
            None => return Err(LedgerError::NotFound),
        };
        if account_in_use(&self.trxs, id) {
            return Err(LedgerError::StorageFailure);
        }
        let ghost m = self@;
        proof {
            lemma_remove_row(m.accounts, m.next_account_id, i as int);
            lemma_remove_keeps_rows(m.accounts, i as int);
            if consistent(m) {
                lemma_close_account_consistent(m, i as int);
            }
        }
        let a = self.accounts.remove(i);
        proof {
            let t = self.trxs@;
            assert forall|j: int| 0 <= j < t.len() implies has_row(self.accounts@, (#[trigger] t[j]).accountid) by {
                assert(has_row(m.accounts, t[j].accountid));
                assert(t[j].accountid != id);
            }
        }
        Ok(a)
    }

    /// Deletes category type `id`. A type that a category belongs to cannot go.
    pub fn delete_cat_type(&mut self, id: i32) -> (r: Result<CatType, LedgerError>)
        requires
            old(self).wf(),
        ensures
            final(self).wf(),
            r == Err::<CatType, LedgerError>(LedgerError::NotFound) <==> !has_row(old(self)@.cat_types, id),
            r == Err::<CatType, LedgerError>(LedgerError::StorageFailure) <==> has_row(old(self)@.cat_types, id)
                && type_in_use(old(self)@.categories, id),
            r != Err::<CatType, LedgerError>(LedgerError::InvalidAmount),
            r is Err ==> final(self)@ == old(self)@,
            r matches Ok(c) ==> c == row_of(old(self)@.cat_types, id) && final(self)@ == (LedgerModel {
                cat_types: old(self)@.cat_types.remove(row_index(old(self)@.cat_types, id)),
                ..old(self)@
            }),
            consistent(old(self)@) ==> consistent(final(self)@),
    {
        let i = match find_row(&self.cat_types, id) {
            Some(i) => i,
            None => return Err(LedgerError::NotFound),
        };
        if check_type_in_use(&self.categories, id) {
            return Err(LedgerError::StorageFailure);
        }
        proof {
            lemma_remove_row(self.cat_types@, self.next_cat_type_id, i as int);
        }
        let c = self.cat_types.remove(i);
        Ok(c)
    }

    /// Deletes category `id` together with its budget periods. A category that
    /// a transaction is posted in cannot go.
    pub fn delete_category(&mut self, id: i32) -> (r: Result<Category, LedgerError>)
        requires
            old(self).wf(),
        ensures
            final(self).wf(),
            r == Err::<Category, LedgerError>(LedgerError::NotFound) <==> !has_row(old(self)@.categories, id),
            r == Err::<Category, LedgerError>(LedgerError::StorageFailure) <==> has_row(old(self)@.categories, id)
                && category_in_use(old(self)@.trxs, id),
            r != Err::<Category, LedgerError>(LedgerError::InvalidAmount),
            r is Err ==> final(self)@ == old(self)@,
            r matches Ok(c) ==> c == row_of(old(self)@.categories, id) && final(self)@ == (LedgerModel {
                categories: old(self)@.categories.remove(row_index(old(self)@.categories, id)),
                budgets: old(self)@.budgets.filter(not_of_category(id)),
                ..old(self)@
            }),
            consistent(old(self)@) ==> consistent(final(self)@),
    {
        let i = match find_row(&self.categories, id) {
            Some(i) => i,
            None => return Err(LedgerError::NotFound),
        };
        if check_category_in_use(&self.trxs, id) {
            return Err(LedgerError::StorageFailure);
        }
        let ghost m = self@;
        let mut kept: Vec<BudgetPeriod> = Vec::new();
        let mut j: usize = 0;
        while j < self.budgets.len()
            invariant
                j <= self.budgets.len(),
                self@ == m,
                table_wf(m.budgets, m.next_budget_id),
                kept@ == m.budgets.take(j as int).filter(not_of_category(id)),
                table_wf(kept@, m.next_budget_id),
                forall|q: int| 0 <= q < kept@.len() ==> exists|p: int| 0 <= p < j && #[trigger] kept@[q] == m.budgets[p],
            decreases self.budgets.len() - j,
        {
            proof {
                let s = m.budgets.take(j as int + 1);
                assert(s.drop_last() =~= m.budgets.take(j as int));
                assert(s.last() == m.budgets[j as int]);
                reveal(Seq::filter);
            }
            if self.budgets[j].categoryid != id {
                let p = self.budgets[j].duplicate();
                proof {
                    let k2 = kept@.push(p);
                    assert forall|a: int, b: int| 0 <= a < b < k2.len() implies k2[a].id < k2[b].id by {
                        if b == kept@.len() {
                            let pa = choose|pa: int| 0 <= pa < j && #[trigger] kept@[a] == m.budgets[pa];
                            assert(m.budgets[pa].row_id() < m.budgets[j as int].row_id());
                        } else {
                            assert(k2[a] == kept@[a] && k2[b] == kept@[b]);
                            assert(kept@[a].row_id() < kept@[b].row_id());
                        }
                    }
                    assert forall|a: int| 0 <= a < k2.len() implies 0 < #[trigger] k2[a].id < m.next_budget_id by {
                        if a < kept@.len() {
                            assert(k2[a] == kept@[a]);
                            assert(kept@[a].row_id() < m.next_budget_id);
                        } else {
                            assert(m.budgets[j as int].row_id() < m.next_budget_id);
                        }
                    }
                    assert forall|q: int| 0 <= q < k2.len() implies exists|pp: int| 0 <= pp < j + 1 && #[trigger] k2[q]
                        == m.budgets[pp] by {
                        if q < kept@.len() {
                            assert(k2[q] == kept@[q]);
                            let pa = choose|pa: int| 0 <= pa < j && #[trigger] kept@[q] == m.budgets[pa];
                            assert(k2[q] == m.budgets[pa]);
                        } else {
                            assert(k2[q] == m.budgets[j as int]);
                        }
                    }
                }
                kept.push(p);
            }
            j += 1;
        }
        proof {
            assert(m.budgets.take(m.budgets.len() as int) =~= m.budgets);
            lemma_remove_row(m.categories, m.next_category_id, i as int);
            lemma_remove_keeps_rows(m.categories, i as int);
        }
        self.budgets = kept;
        let c = self.categories.remove(i);
        proof {
            let t = self.trxs@;
            assert forall|q: int| 0 <= q < t.len() implies has_row(self.categories@, (#[trigger] t[q]).categoryid) by {
                assert(has_row(m.categories, t[q].categoryid));
                assert(t[q].categoryid != id);
            }
        }
        Ok(c)
    }

    /// Deletes budget period `id`; the category's current period falls back to
    /// its previous one, if any.
    pub fn delete_budget_period(&mut self, id: i32) -> (r: Result<BudgetPeriod, LedgerError>)
        requires
            old(self).wf(),
        ensures
            final(self).wf(),
            r is Err <==> !has_row(old(self)@.budgets, id),
            r matches Err(e) ==> e == LedgerError::NotFound,
            r is Err ==> final(self)@ == old(self)@,
            r matches Ok(p) ==> p == row_of(old(self)@.budgets, id) && final(self)@ == (LedgerModel {
                budgets: old(self)@.budgets.remove(row_index(old(self)@.budgets, id)),
                ..old(self)@
            }),
            consistent(old(self)@) ==> consistent(final(self)@),
    {
        let i = match find_row(&self.budgets, id) {
            Some(i) => i,
            None => return Err(LedgerError::NotFound),
        };
        proof {
            lemma_remove_row(self.budgets@, self.next_budget_id, i as int);
        }
        let p = self.budgets.remove(i);
        Ok(p)
    }
}

} // verus!
