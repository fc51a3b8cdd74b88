use vstd::prelude::*;
use crate::models::{BudgetPeriod, BudgetRollup, Category, LedgerError, Row, in_i64};
use crate::tables::ids_ascending;

verus! {

/// Row `i` is the current period of category `cat`: it belongs to `cat` and no
/// period of `cat` has a greater identifier.
pub open spec fn is_current_period(s: Seq<BudgetPeriod>, i: int, cat: i32) -> bool {
    &&& 0 <= i < s.len()
    &&& s[i].categoryid == cat
    &&& forall|j: int| 0 <= j < s.len() && #[trigger] s[j].categoryid == cat ==> s[j].id <= s[i].id
}

pub open spec fn has_current_period(s: Seq<BudgetPeriod>, cat: i32) -> bool {
    exists|i: int| is_current_period(s, i, cat)
}

/// The current period of category `cat`, if it has any period.
pub open spec fn current_period_spec(s: Seq<BudgetPeriod>, cat: i32) -> Option<BudgetPeriod> {
    if has_current_period(s, cat) {
        Some(s[choose|i: int| is_current_period(s, i, cat)])
    } else {
        None
    }
}

/// The periods after `amount` is added to `spent` of the current period of `cat`.
pub open spec fn apply_spent_spec(s: Seq<BudgetPeriod>, cat: i32, amount: int) -> Seq<BudgetPeriod> {
    Seq::new(
        s.len(),
        |i: int| if is_current_period(s, i, cat) { s[i].with_spent(s[i].spent + amount) } else { s[i] },
    )
}

/// Adding `amount` to the spent figure of the current period of `cat` stays in range.
pub open spec fn spent_fits(s: Seq<BudgetPeriod>, cat: i32, amount: int) -> bool {
    forall|i: int| is_current_period(s, i, cat) ==> in_i64(s[i].spent + amount)
}

/// With ascending identifiers, the current period is the last period of the category.
pub proof fn lemma_current_is_last(s: Seq<BudgetPeriod>, i: int, cat: i32)
    requires
        ids_ascending(s),
        0 <= i < s.len(),
        s[i].categoryid == cat,
        forall|j: int| i < j < s.len() ==> s[j].categoryid != cat,
    ensures
        is_current_period(s, i, cat),
        forall|k: int| is_current_period(s, k, cat) ==> k == i,
        current_period_spec(s, cat) == Some(s[i]),
{
    assert forall|j: int| 0 <= j < s.len() && #[trigger] s[j].categoryid == cat implies s[j].id <= s[i].id by {
        if j > i {
        } else if j < i {
            assert(s[j].row_id() < s[i].row_id());
        }
    }
    assert forall|k: int| is_current_period(s, k, cat) implies k == i by {
        if k < i {
            assert(s[k].row_id() < s[i].row_id());
        }
    }
}

/// A category without periods has no current period.
pub proof fn lemma_no_period(s: Seq<BudgetPeriod>, cat: i32)
    requires
        forall|j: int| 0 <= j < s.len() ==> s[j].categoryid != cat,
    ensures
        !has_current_period(s, cat),
        current_period_spec(s, cat) is None,
        apply_spent_spec(s, cat, 0) == s,
{
    assert(apply_spent_spec(s, cat, 0) =~= s);
}

/// Position of the current period of `cat`: the last period of the category.
pub fn find_current_period(budgets: &Vec<BudgetPeriod>, cat: i32) -> (r: Option<usize>)
    requires
        ids_ascending(budgets@),
    ensures
        r is None <==> !has_current_period(budgets@, cat),
        r is None ==> forall|j: int| 0 <= j < budgets@.len() ==> budgets@[j].categoryid != cat,
        r matches Some(i) ==> is_current_period(budgets@, i as int, cat)
            && current_period_spec(budgets@, cat) == Some(budgets@[i as int])
            && forall|k: int| is_current_period(budgets@, k, cat) ==> k == i,
{
    let mut i: usize = budgets.len();
    while i > 0
        invariant
            i <= budgets.len(),
            ids_ascending(budgets@),
            forall|j: int| i <= j < budgets@.len() ==> #[trigger] budgets@[j].categoryid != cat,
        decreases i,
    {
        if budgets[i - 1].categoryid == cat {
            proof {
                lemma_current_is_last(budgets@, i - 1, cat);
            }
            return Some(i - 1);
        }
        i -= 1;
    }
    proof {
        if has_current_period(budgets@, cat) {
            let k = choose|k: int| is_current_period(budgets@, k, cat);
            assert(budgets@[k].categoryid != cat);
        }
    }
    None
}

/// Tells whether adding `amount` to the spent figure of the current period of `cat` stays in range.
pub fn check_spent_fits(budgets: &Vec<BudgetPeriod>, cat: i32, amount: i128) -> (r: bool)
    requires
        ids_ascending(budgets@),
        -0x4_0000_0000_0000_0000 <= amount <= 0x4_0000_0000_0000_0000,
    ensures
        r == spent_fits(budgets@, cat, amount as int),
{
    match find_current_period(budgets, cat) {
        None => true,
        Some(i) => {
            let v = budgets[i].spent as i128 + amount;
            v >= i64::MIN as i128 && v <= i64::MAX as i128
        },
    }
}

/// The current budget period of category `cat`: the one with the greatest
/// identifier, or none when the category has never had a period.
pub fn current_period(budgets: &Vec<BudgetPeriod>, cat: i32) -> (r: Option<BudgetPeriod>)
    requires
        ids_ascending(budgets@),
    ensures
        r == current_period_spec(budgets@, cat),
{
    match find_current_period(budgets, cat) {
        Some(i) => Some(budgets[i].duplicate()),
        None => None,
    }
}

/// Adds `amount` to `spent` of the current period of `cat`. A category without
/// a period is left alone and this is no error.
pub fn apply_spent_delta(budgets: &mut Vec<BudgetPeriod>, cat: i32, amount: i64) -> (r: Result<(), LedgerError>)
    requires
        ids_ascending(old(budgets)@),
    ensures
        r is Err <==> !spent_fits(old(budgets)@, cat, amount as int),
        r matches Err(e) ==> e == LedgerError::StorageFailure,
        r is Err ==> final(budgets)@ == old(budgets)@,
        r is Ok ==> final(budgets)@ == apply_spent_spec(old(budgets)@, cat, amount as int),
        !has_current_period(old(budgets)@, cat) ==> r is Ok && final(budgets)@ == old(budgets)@,
{
    match find_current_period(budgets, cat) {
        None => {
            proof {
                lemma_no_period(budgets@, cat);
                assert(apply_spent_spec(budgets@, cat, amount as int) =~= budgets@);
            }
            Ok(())
        },
        Some(i) => {
            let s = budgets[i].spent;
            match s.checked_add(amount) {
                None => Err(LedgerError::StorageFailure),
                Some(ns) => {
                    let ghost before = budgets@;
                    budgets[i].spent = ns;
                    proof {
                        assert(budgets@ =~= apply_spent_spec(before, cat, amount as int));
                    }
                    Ok(())
                },
            }
        },
    }
}

/// Which figure of a budget period a roll-up sums.
pub enum PeriodField {
    Allocated,
    Spent,
    Available,
}

pub open spec fn field_value(p: BudgetPeriod, f: PeriodField) -> int {
    match f {
        PeriodField::Allocated => p.allocated as int,
        PeriodField::Spent => p.spent as int,
        PeriodField::Available => p.available as int,
    }
}

/// What category `c` adds to the roll-up of type `typeid`: its current period's
/// figure, or zero when it has no period or belongs to another type.
pub open spec fn contribution(c: Category, budgets: Seq<BudgetPeriod>, typeid: i32, f: PeriodField) -> int {
    if c.typeid == typeid {
        match current_period_spec(budgets, c.id) {
            Some(p) => field_value(p, f),
            None => 0,
        }
    } else {
        0
    }
}

/// Sum of one figure of the current periods over the categories of type `typeid`.
pub open spec fn rollup_total(cats: Seq<Category>, budgets: Seq<BudgetPeriod>, typeid: i32, f: PeriodField) -> int
    decreases cats.len(),
{
    if cats.len() == 0 {
        0
    } else {
        rollup_total(cats.drop_last(), budgets, typeid, f) + contribution(cats.last(), budgets, typeid, f)
    }
}

/// Sums allocated, spent and available of the current period of every
/// category of type `typeid`; categories without a period add zero.
pub fn rollup(cats: &Vec<Category>, budgets: &Vec<BudgetPeriod>, typeid: i32) -> (r: BudgetRollup)
    requires
        ids_ascending(budgets@),
    ensures
        r.allocated == rollup_total(cats@, budgets@, typeid, PeriodField::Allocated),
        r.spent == rollup_total(cats@, budgets@, typeid, PeriodField::Spent),
        r.available == rollup_total(cats@, budgets@, typeid, PeriodField::Available),
{
    let mut allocated: i128 = 0;
    let mut spent: i128 = 0;
    let mut available: i128 = 0;
    let mut i: usize = 0;
    while i < cats.len()
        invariant
            i <= cats.len(),
            ids_ascending(budgets@),
            allocated == rollup_total(cats@.take(i as int), budgets@, typeid, PeriodField::Allocated),
            spent == rollup_total(cats@.take(i as int), budgets@, typeid, PeriodField::Spent),
            available == rollup_total(cats@.take(i as int), budgets@, typeid, PeriodField::Available),
            -(i as int) * 0x8000_0000_0000_0000 <= allocated <= (i as int) * 0x8000_0000_0000_0000,
            -(i as int) * 0x8000_0000_0000_0000 <= spent <= (i as int) * 0x8000_0000_0000_0000,
            -(i as int) * 0x8000_0000_0000_0000 <= available <= (i as int) * 0x8000_0000_0000_0000,
        decreases cats.len() - i,
    {
        let c = &cats[i];
        proof {
            assert(cats@.take(i as int + 1).drop_last() =~= cats@.take(i as int));
            assert(cats@.take(i as int + 1).last() == cats@[i as int]);
        }
        if c.typeid == typeid {
            match find_current_period(budgets, c.id) {
                Some(k) => {
                    allocated = allocated + budgets[k].allocated as i128;
                    spent = spent + budgets[k].spent as i128;
                    available = available + budgets[k].available as i128;
                },
                None => {},
            }
        }
        i += 1;
    }
    proof {
        assert(cats@.take(cats@.len() as int) =~= cats@);
    }
    BudgetRollup { allocated, spent, available }
}

} // verus!
