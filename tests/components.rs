use finance_ledger::accounts::{apply_delta, current_balance};
use finance_ledger::budgets::{apply_spent_delta, current_period, rollup};
use finance_ledger::cascade::{shift_following, shift_self};
use finance_ledger::ledger::{build_add_trx, delete_delta, update_delta};
use finance_ledger::models::{Account, BudgetPeriod, Category, LedgerError, NewTrx, Transaction, UpdateTrx};

fn acc(id: i32, balance: i64) -> Account {
    Account {
        id,
        name: format!("a{}", id),
        description: None,
        star: false,
        account_type: "cash".to_string(),
        balance,
    }
}

fn period(id: i32, cat: i32, allocated: i64, spent: i64) -> BudgetPeriod {
    BudgetPeriod {
        id,
        periode: format!("p{}", id),
        allocated,
        spent,
        available: allocated - spent,
        categoryid: cat,
    }
}

fn trx(id: i32, acc: i32, before: i64, after: i64) -> Transaction {
    Transaction {
        id,
        credit: if after > before { after - before } else { 0 },
        debit: if after < before { before - after } else { 0 },
        description: None,
        balance_before: before,
        balance_after: after,
        datetime: String::new(),
        accountid: acc,
        categoryid: 1,
    }
}

#[test]
fn apply_delta_moves_one_account() {
    let mut v = vec![acc(1, 10), acc(2, 20)];
    assert_eq!(apply_delta(&mut v, 2, -25), Ok(()));
    assert_eq!(v[0].balance, 10);
    assert_eq!(v[1].balance, -5);
    assert_eq!(current_balance(&v, 2), Ok(-5));
    assert_eq!(apply_delta(&mut v, 3, 1), Err(LedgerError::NotFound));
    assert_eq!(apply_delta(&mut v, 1, i64::MAX), Err(LedgerError::StorageFailure));
    assert_eq!(v[0].balance, 10);
    assert_eq!(current_balance(&v, 3), Err(LedgerError::NotFound));
}

#[test]
fn apply_spent_delta_without_period_is_a_no_op() {
    let mut v = vec![period(1, 1, 100, 0)];
    let before = v.clone();
    assert_eq!(apply_spent_delta(&mut v, 2, 55), Ok(()));
    assert_eq!(v, before);
    let mut empty: Vec<BudgetPeriod> = Vec::new();
    assert_eq!(apply_spent_delta(&mut empty, 1, 55), Ok(()));
    assert!(empty.is_empty());
}

#[test]
fn apply_spent_delta_moves_the_latest_period() {
    let mut v = vec![period(1, 1, 100, 0), period(2, 2, 50, 0), period(3, 1, 200, 10)];
    assert_eq!(apply_spent_delta(&mut v, 1, 15), Ok(()));
    assert_eq!(v[0].spent, 0);
    assert_eq!(v[2].spent, 25);
    assert_eq!(v[2].available, 190);
    assert_eq!(current_period(&v, 1).unwrap().id, 3);
    assert_eq!(current_period(&v, 2).unwrap().id, 2);
    assert!(current_period(&v, 9).is_none());
    assert_eq!(apply_spent_delta(&mut v, 1, i64::MAX), Err(LedgerError::StorageFailure));
    assert_eq!(v[2].spent, 25);
}

#[test]
fn rollup_counts_each_category_once() {
    let cats = vec![
        Category { id: 1, name: "x".to_string(), description: None, typeid: 7 },
        Category { id: 2, name: "y".to_string(), description: None, typeid: 7 },
        Category { id: 3, name: "z".to_string(), description: None, typeid: 8 },
        Category { id: 4, name: "w".to_string(), description: None, typeid: 7 },
    ];
    let v = vec![period(1, 1, 100, 10), period(2, 3, 999, 9), period(3, 1, 40, 4), period(4, 2, 60, -6)];
    let r = rollup(&cats, &v, 7);
    assert_eq!(r.allocated, 100);
    assert_eq!(r.spent, -2);
    assert_eq!(r.available, 102);
    let r = rollup(&cats, &v, 8);
    assert_eq!((r.allocated, r.spent, r.available), (999, 9, 990));
}

#[test]
fn shift_following_moves_later_rows_of_the_account() {
    let mut v = vec![trx(1, 1, 0, 10), trx(2, 2, 0, 5), trx(3, 1, 10, 30), trx(4, 1, 30, 25)];
    assert_eq!(shift_following(&mut v, 1, 1, 7), Ok(2));
    assert_eq!((v[0].balance_before, v[0].balance_after), (0, 10));
    assert_eq!((v[1].balance_before, v[1].balance_after), (0, 5));
    assert_eq!((v[2].balance_before, v[2].balance_after), (17, 37));
    assert_eq!((v[3].balance_before, v[3].balance_after), (37, 32));
    assert_eq!(shift_following(&mut v, 1, 4, 7), Ok(0));
    assert_eq!(shift_following(&mut v, 1, 0, i64::MAX), Err(LedgerError::StorageFailure));
    assert_eq!(v[0].balance_after, 10);
}

#[test]
fn shift_self_moves_only_balance_after() {
    let mut v = vec![trx(1, 1, 0, 10), trx(2, 1, 10, 30)];
    assert_eq!(shift_self(&mut v, 2, 1, -4), Ok(()));
    assert_eq!((v[1].balance_before, v[1].balance_after), (10, 26));
    assert_eq!((v[0].balance_before, v[0].balance_after), (0, 10));
    assert_eq!(shift_self(&mut v, 2, 9, 100), Ok(()));
    assert_eq!(v[1].balance_after, 26);
    assert_eq!(shift_self(&mut v, 1, 1, i64::MAX), Err(LedgerError::StorageFailure));
}

#[test]
fn build_add_trx_computes_the_snapshot() {
    let t = NewTrx {
        credit: 200,
        debit: 50,
        description: Some("pay".to_string()),
        datetime: "2024-03-01".to_string(),
        accountid: 3,
        categoryid: 4,
    };
    let a = build_add_trx(t.clone(), 1000).unwrap();
    assert_eq!(a.balance_before, 1000);
    assert_eq!(a.balance_after, 1150);
    assert_eq!(a.description, Some("pay".to_string()));
    assert_eq!((a.accountid, a.categoryid), (3, 4));
    assert!(build_add_trx(NewTrx { credit: 100, debit: 0, ..t }, i64::MAX).is_none());
}

#[test]
fn update_delta_needs_both_amounts() {
    let e = trx(7, 1, 1000, 1200);
    let both = UpdateTrx { credit: Some(250), debit: Some(0), ..Default::default() };
    assert_eq!(update_delta(&e, &both), 50);
    let same = UpdateTrx { credit: Some(200), debit: Some(0), ..Default::default() };
    assert_eq!(update_delta(&e, &same), 0);
    let credit_only = UpdateTrx { credit: Some(900), ..Default::default() };
    assert_eq!(update_delta(&e, &credit_only), 0);
    let debit_only = UpdateTrx { debit: Some(900), ..Default::default() };
    assert_eq!(update_delta(&e, &debit_only), 0);
    let swing = UpdateTrx { credit: Some(0), debit: Some(i64::MAX), ..Default::default() };
    assert_eq!(update_delta(&e, &swing), -(i64::MAX as i128) - 200);
}

#[test]
fn delete_delta_reverses_the_amount() {
    assert_eq!(delete_delta(&trx(7, 1, 1000, 1250)), -250);
    assert_eq!(delete_delta(&trx(8, 1, 1250, 1200)), 50);
}
