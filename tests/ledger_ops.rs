use finance_ledger::ledger::Ledger;
use finance_ledger::models::{
    AddCatType, AddTrxCat, AddTrxCatBudget, LedgerError, NewAccount, NewTrx, NewTrxCatBudget, Transaction,
    UpdateAccount, UpdateTrx, UpdateTrxCatBudget,
};

fn account(name: &str) -> NewAccount {
    NewAccount {
        name: name.to_string(),
        description: None,
        star: false,
        account_type: "bank".to_string(),
        balance: 0,
    }
}

fn post(l: &mut Ledger, acc: i32, cat: i32, credit: i64, debit: i64) -> Transaction {
    l.add_transaction(NewTrx {
        credit,
        debit,
        description: None,
        datetime: "2024-01-01 00:00:00".to_string(),
        accountid: acc,
        categoryid: cat,
    })
    .unwrap()
}

fn amounts(credit: i64, debit: i64) -> UpdateTrx {
    UpdateTrx { credit: Some(credit), debit: Some(debit), ..Default::default() }
}

struct Fixture {
    ledger: Ledger,
    a: i32,
    other: i32,
    c: i32,
    d: i32,
}

/// Account A at balance 1000 after five transactions on another account,
/// category C with a current period of 500 allocated and nothing spent, and an
/// unbudgeted category D.
fn fixture() -> Fixture {
    let mut l = Ledger::new();
    let a = l.add_account(account("A")).unwrap().id;
    let other = l.add_account(account("B")).unwrap().id;
    let t = l
        .add_cat_type(AddCatType { cat_type: "expense".to_string(), description: None, icon: "x".to_string() })
        .unwrap()
        .id;
    let (c, _) = l
        .add_category(AddTrxCat {
            name: "C".to_string(),
            description: None,
            typeid: t,
            budget: Some(AddTrxCatBudget { periode: "2024-01".to_string(), allocated: 500, spent: 0, available: 500 }),
        })
        .unwrap();
    let (d, _) = l
        .add_category(AddTrxCat { name: "D".to_string(), description: None, typeid: t, budget: None })
        .unwrap();
    for _ in 0..5 {
        post(&mut l, other, d.id, 10, 0);
    }
    let first = post(&mut l, a, d.id, 1000, 0);
    assert_eq!(first.id, 6);
    assert_eq!(l.current_balance(a), Ok(1000));
    Fixture { ledger: l, a, other, c: c.id, d: d.id }
}

#[test]
fn add_posts_snapshot_and_moves_balances() {
    let mut f = fixture();
    let t = post(&mut f.ledger, f.a, f.c, 200, 0);
    assert_eq!(t.id, 7);
    assert_eq!(t.balance_before, 1000);
    assert_eq!(t.balance_after, 1200);
    assert_eq!(f.ledger.current_balance(f.a), Ok(1200));
    assert_eq!(f.ledger.current_budget_period(f.c).unwrap().spent, 200);
}

fn with_two_transactions() -> Fixture {
    let mut f = fixture();
    post(&mut f.ledger, f.a, f.c, 200, 0);
    let later = post(&mut f.ledger, f.a, f.d, 0, 50);
    assert_eq!(later.id, 8);
    assert_eq!(later.balance_before, 1200);
    assert_eq!(later.balance_after, 1150);
    f
}

#[test]
fn update_cascades_to_later_transactions() {
    let mut f = with_two_transactions();
    let t = f.ledger.update_transaction(7, amounts(250, 0)).unwrap();
    assert_eq!(t.credit, 250);
    assert_eq!(t.balance_before, 1000);
    assert_eq!(t.balance_after, 1250);
    let later = f.ledger.transaction(8).unwrap();
    assert_eq!(later.balance_before, 1250);
    assert_eq!(later.balance_after, 1200);
    // the account balance follows its last transaction: 1150 moved by the delta of 50
    assert_eq!(f.ledger.current_balance(f.a), Ok(1200));
    assert_eq!(f.ledger.current_budget_period(f.c).unwrap().spent, 250);
}

#[test]
fn delete_reverses_and_cascades() {
    let mut f = with_two_transactions();
    f.ledger.update_transaction(7, amounts(250, 0)).unwrap();
    let balance = f.ledger.current_balance(f.a).unwrap();
    let gone = f.ledger.delete_transaction(7).unwrap();
    assert_eq!(gone.id, 7);
    assert_eq!(gone.credit, 250);
    assert_eq!(gone.balance_after, 1250);
    let later = f.ledger.transaction(8).unwrap();
    assert_eq!(later.balance_before, 1000);
    assert_eq!(later.balance_after, 950);
    assert_eq!(f.ledger.current_balance(f.a), Ok(balance - 250));
    assert_eq!(f.ledger.current_balance(f.a), Ok(950));
    assert_eq!(f.ledger.current_budget_period(f.c).unwrap().spent, 0);
    assert_eq!(f.ledger.transaction(7), Err(LedgerError::NotFound));
}

#[test]
fn add_then_delete_restores_balance_and_spent() {
    let mut f = with_two_transactions();
    let before_balance = f.ledger.current_balance(f.a).unwrap();
    let before_spent = f.ledger.current_budget_period(f.c).unwrap().spent;
    let before_trxs = f.ledger.transactions(None, None);
    let t = post(&mut f.ledger, f.a, f.c, 321, 21);
    assert_eq!(f.ledger.current_balance(f.a), Ok(before_balance + 300));
    f.ledger.delete_transaction(t.id).unwrap();
    assert_eq!(f.ledger.current_balance(f.a), Ok(before_balance));
    assert_eq!(f.ledger.current_budget_period(f.c).unwrap().spent, before_spent);
    assert_eq!(f.ledger.transactions(None, None), before_trxs);
}

#[test]
fn identical_update_changes_no_balance() {
    let mut f = with_two_transactions();
    let before = f.ledger.transactions(None, None);
    let t = f.ledger.update_transaction(7, amounts(200, 0)).unwrap();
    assert_eq!(t.balance_after, 1200);
    assert_eq!(f.ledger.transactions(None, None), before);
    assert_eq!(f.ledger.current_balance(f.a), Ok(1150));
    assert_eq!(f.ledger.current_budget_period(f.c).unwrap().spent, 200);
}

#[test]
fn update_with_credit_alone_stores_it_without_cascade() {
    let mut f = with_two_transactions();
    let t = f
        .ledger
        .update_transaction(7, UpdateTrx { credit: Some(900), ..Default::default() })
        .unwrap();
    assert_eq!(t.credit, 900);
    assert_eq!(t.balance_after, 1200);
    assert_eq!(f.ledger.transaction(8).unwrap().balance_before, 1200);
    assert_eq!(f.ledger.current_balance(f.a), Ok(1150));
    assert_eq!(f.ledger.current_budget_period(f.c).unwrap().spent, 200);
}

#[test]
fn update_stores_description_datetime_and_category() {
    let mut f = with_two_transactions();
    let t = f
        .ledger
        .update_transaction(
            8,
            UpdateTrx {
                description: Some("rent".to_string()),
                datetime: Some("2023-12-31 10:00:00".to_string()),
                categoryid: Some(f.c),
                ..Default::default()
            },
        )
        .unwrap();
    assert_eq!(t.description, Some("rent".to_string()));
    assert_eq!(t.datetime, "2023-12-31 10:00:00");
    assert_eq!(t.categoryid, f.c);
    assert_eq!(t.balance_after, 1150);
}

#[test]
fn balance_is_sum_of_net_amounts() {
    let mut f = with_two_transactions();
    post(&mut f.ledger, f.a, f.d, 75, 5);
    f.ledger.update_transaction(8, amounts(0, 80)).unwrap();
    f.ledger.delete_transaction(6).unwrap();
    let trxs = f.ledger.transactions(Some(f.a), None);
    let net: i64 = trxs.iter().map(|t| t.credit - t.debit).sum();
    assert_eq!(f.ledger.current_balance(f.a), Ok(net));
    assert_eq!(net, 200 - 80 + 70);
}

#[test]
fn snapshots_chain_along_identifier_order() {
    let mut f = with_two_transactions();
    post(&mut f.ledger, f.a, f.c, 40, 0);
    f.ledger.update_transaction(7, amounts(10, 30)).unwrap();
    f.ledger.delete_transaction(8).unwrap();
    for acc in [f.a, f.other] {
        let trxs = f.ledger.transactions(Some(acc), None);
        assert_eq!(trxs[0].balance_before, 0);
        for w in trxs.windows(2) {
            assert!(w[0].id < w[1].id);
            assert_eq!(w[1].balance_before, w[0].balance_after);
        }
        for t in &trxs {
            assert_eq!(t.balance_after, t.balance_before + t.credit - t.debit);
        }
        assert_eq!(f.ledger.current_balance(acc), Ok(trxs.last().unwrap().balance_after));
    }
}

#[test]
fn unbudgeted_category_takes_postings_without_error() {
    let mut f = fixture();
    let t = post(&mut f.ledger, f.a, f.d, 10, 0);
    assert_eq!(t.balance_after, 1010);
    assert!(f.ledger.current_budget_period(f.d).is_none());
}

#[test]
fn add_rejects_negative_amounts() {
    let mut f = fixture();
    let r = f.ledger.add_transaction(NewTrx { credit: -1, accountid: f.a, categoryid: f.c, ..Default::default() });
    assert_eq!(r, Err(LedgerError::InvalidAmount));
    assert_eq!(f.ledger.current_balance(f.a), Ok(1000));
}

#[test]
fn add_rejects_missing_account_and_category() {
    let mut f = fixture();
    let r = f.ledger.add_transaction(NewTrx { credit: 1, accountid: 99, categoryid: f.c, ..Default::default() });
    assert_eq!(r, Err(LedgerError::NotFound));
    let r = f.ledger.add_transaction(NewTrx { credit: 1, accountid: f.a, categoryid: 99, ..Default::default() });
    assert_eq!(r, Err(LedgerError::NotFound));
    assert_eq!(f.ledger.transactions(None, None).len(), 6);
}

#[test]
fn add_refuses_a_balance_out_of_range() {
    let mut f = fixture();
    let r = f.ledger.add_transaction(NewTrx {
        credit: i64::MAX,
        accountid: f.a,
        categoryid: f.d,
        ..Default::default()
    });
    assert_eq!(r, Err(LedgerError::StorageFailure));
    assert_eq!(f.ledger.current_balance(f.a), Ok(1000));
    assert_eq!(f.ledger.transactions(None, None).len(), 6);
}

#[test]
fn update_errors() {
    let mut f = with_two_transactions();
    assert_eq!(f.ledger.update_transaction(99, amounts(1, 0)), Err(LedgerError::NotFound));
    assert_eq!(f.ledger.update_transaction(7, amounts(-1, 0)), Err(LedgerError::InvalidAmount));
    assert_eq!(
        f.ledger.update_transaction(7, UpdateTrx { categoryid: Some(99), ..Default::default() }),
        Err(LedgerError::NotFound)
    );
    assert_eq!(f.ledger.update_transaction(7, amounts(i64::MAX, 0)), Err(LedgerError::StorageFailure));
    assert_eq!(f.ledger.transaction(7).unwrap().credit, 200);
    assert_eq!(f.ledger.current_balance(f.a), Ok(1150));
}

#[test]
fn delete_errors() {
    let mut f = with_two_transactions();
    assert_eq!(f.ledger.delete_transaction(99), Err(LedgerError::NotFound));
    assert_eq!(f.ledger.transactions(None, None).len(), 8);
}

#[test]
fn accounts_start_at_zero_and_refuse_balance_writes() {
    let mut l = Ledger::new();
    assert_eq!(
        l.add_account(NewAccount { balance: 5, ..account("X") }),
        Err(LedgerError::InvalidAmount)
    );
    let a = l.add_account(account("X")).unwrap();
    assert_eq!(a.id, 1);
    assert_eq!(a.balance, 0);
    assert_eq!(
        l.update_account(a.id, UpdateAccount { balance: Some(7), ..Default::default() }),
        Err(LedgerError::InvalidAmount)
    );
    assert_eq!(l.update_account(9, UpdateAccount::default()), Err(LedgerError::NotFound));
    let b = l
        .update_account(a.id, UpdateAccount { name: Some("Y".to_string()), star: Some(true), ..Default::default() })
        .unwrap();
    assert_eq!(b.name, "Y");
    assert!(b.star);
    assert_eq!(b.balance, 0);
    assert_eq!(l.accounts().len(), 1);
}

#[test]
fn current_period_is_the_greatest_identifier() {
    let mut f = fixture();
    let p = f
        .ledger
        .add_budget_period(NewTrxCatBudget {
            periode: "2024-02".to_string(),
            allocated: 300,
            spent: 0,
            available: 300,
            categoryid: f.c,
        })
        .unwrap();
    assert_eq!(f.ledger.current_budget_period(f.c).unwrap().id, p.id);
    post(&mut f.ledger, f.a, f.c, 0, 40);
    assert_eq!(f.ledger.current_budget_period(f.c).unwrap().spent, -40);
    assert_eq!(f.ledger.budget_period(1).unwrap().spent, 0);
    assert_eq!(
        f.ledger.add_budget_period(NewTrxCatBudget { categoryid: 99, ..Default::default() }),
        Err(LedgerError::NotFound)
    );
}

#[test]
fn budget_update_leaves_spent_alone() {
    let mut f = fixture();
    post(&mut f.ledger, f.a, f.c, 30, 0);
    let p = f
        .ledger
        .update_budget_period(
            1,
            UpdateTrxCatBudget { allocated: Some(900), spent: Some(0), available: Some(870), ..Default::default() },
        )
        .unwrap();
    assert_eq!(p.allocated, 900);
    assert_eq!(p.available, 870);
    assert_eq!(p.spent, 30);
    assert_eq!(
        f.ledger.update_budget_period(1, UpdateTrxCatBudget { categoryid: Some(99), ..Default::default() }),
        Err(LedgerError::NotFound)
    );
}

#[test]
fn rollup_sums_current_periods_of_a_type() {
    let mut f = fixture();
    let t = f.ledger.category(f.c).unwrap().typeid;
    let (e, _) = f
        .ledger
        .add_category(AddTrxCat {
            name: "E".to_string(),
            description: None,
            typeid: t,
            budget: Some(AddTrxCatBudget { periode: "2024-01".to_string(), allocated: 100, spent: 5, available: 95 }),
        })
        .unwrap();
    f.ledger
        .add_budget_period(NewTrxCatBudget {
            periode: "2024-02".to_string(),
            allocated: 700,
            spent: 0,
            available: 700,
            categoryid: f.c,
        })
        .unwrap();
    post(&mut f.ledger, f.a, e.id, 20, 0);
    let r = f.ledger.budget_rollup(t);
    assert_eq!(r.allocated, 800);
    assert_eq!(r.spent, 25);
    assert_eq!(r.available, 795);
    let none = f.ledger.budget_rollup(42);
    assert_eq!((none.allocated, none.spent, none.available), (0, 0, 0));
}

#[test]
fn category_needs_an_existing_type() {
    let mut l = Ledger::new();
    let r = l.add_category(AddTrxCat { name: "C".to_string(), description: None, typeid: 3, budget: None });
    assert_eq!(r, Err(LedgerError::NotFound));
    assert!(l.categories().is_empty());
}

#[test]
fn listing_filters_by_account_and_category() {
    let f = with_two_transactions();
    let ids: Vec<i32> = f.ledger.transactions(Some(f.a), None).iter().map(|t| t.id).collect();
    assert_eq!(ids, vec![6, 7, 8]);
    let ids: Vec<i32> = f.ledger.transactions(Some(f.a), Some(f.d)).iter().map(|t| t.id).collect();
    assert_eq!(ids, vec![6, 8]);
    let ids: Vec<i32> = f.ledger.transactions(None, Some(f.c)).iter().map(|t| t.id).collect();
    assert_eq!(ids, vec![7]);
    assert_eq!(f.ledger.transactions(Some(f.other), None).len(), 5);
}

#[test]
fn deleting_rows_that_others_refer_to_is_refused() {
    let mut f = with_two_transactions();
    assert_eq!(f.ledger.delete_account(f.a), Err(LedgerError::StorageFailure));
    assert_eq!(f.ledger.delete_category(f.c), Err(LedgerError::StorageFailure));
    let t = f.ledger.category(f.c).unwrap().typeid;
    assert_eq!(f.ledger.delete_cat_type(t), Err(LedgerError::StorageFailure));
    assert_eq!(f.ledger.delete_account(99), Err(LedgerError::NotFound));
    assert_eq!(f.ledger.delete_category(99), Err(LedgerError::NotFound));
    assert_eq!(f.ledger.delete_cat_type(99), Err(LedgerError::NotFound));
    assert_eq!(f.ledger.delete_budget_period(99), Err(LedgerError::NotFound));
    assert_eq!(f.ledger.accounts().len(), 2);
}

#[test]
fn deleting_unused_rows() {
    let mut l = Ledger::new();
    let a = l.add_account(account("A")).unwrap();
    assert_eq!(l.delete_account(a.id).unwrap().name, "A");
    assert_eq!(l.account(a.id), Err(LedgerError::NotFound));
    let t = l
        .add_cat_type(AddCatType { cat_type: "income".to_string(), description: None, icon: "i".to_string() })
        .unwrap();
    let (c, p) = l
        .add_category(AddTrxCat {
            name: "C".to_string(),
            description: None,
            typeid: t.id,
            budget: Some(AddTrxCatBudget { periode: "2024-01".to_string(), allocated: 10, spent: 0, available: 10 }),
        })
        .unwrap();
    let p = p.unwrap();
    assert_eq!(p.categoryid, c.id);
    let q = l
        .add_budget_period(NewTrxCatBudget {
            periode: "2024-02".to_string(),
            allocated: 20,
            spent: 0,
            available: 20,
            categoryid: c.id,
        })
        .unwrap();
    assert_eq!(l.delete_budget_period(q.id).unwrap().allocated, 20);
    assert_eq!(l.current_budget_period(c.id).unwrap().id, p.id);
    assert_eq!(l.delete_category(c.id).unwrap().name, "C");
    assert!(l.budget_periods().is_empty());
    assert_eq!(l.delete_cat_type(t.id).unwrap().cat_type, "income");
    assert!(l.cat_types().is_empty());
}

#[test]
fn listing_puts_latest_datetime_first() {
    let mut f = fixture();
    let mut at = |when: &str| {
        f.ledger
            .add_transaction(NewTrx {
                credit: 1,
                debit: 0,
                description: None,
                datetime: when.to_string(),
                accountid: f.a,
                categoryid: f.c,
            })
            .unwrap()
            .id
    };
    let x = at("2024-03-05 09:00:00");
    let y = at("2023-11-30 23:59:59");
    let z = at("2024-03-05 09:00:00");
    let w = at("2024-12-01 00:00:00");
    let ids: Vec<i32> = f.ledger.transactions(None, Some(f.c)).iter().map(|t| t.id).collect();
    assert_eq!(ids, vec![w, x, z, y]);
    let all = f.ledger.transactions(Some(f.a), None);
    assert_eq!(all.len(), 5);
    let ids: Vec<i32> = all.iter().map(|t| t.id).collect();
    assert_eq!(ids, vec![w, x, z, 6, y]);
}
