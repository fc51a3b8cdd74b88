use vstd::prelude::*;

verus! {

/// Failure kinds of the ledger operations.
#[derive(Debug, Clone, Copy, PartialEq, Eq, Structural)]
pub enum LedgerError {
    /// A referenced account, category, budget period, category type or
    /// transaction does not exist.
    NotFound,
    /// A payload holds an amount that the ledger does not take
    /// (a negative credit or debit, or a client-supplied balance).
    InvalidAmount,
    /// The store cannot hold the result: a stored amount would leave the
    /// range of `i64`, or no identifier is left.
    StorageFailure,
}

/// A stored row with a stable identifier.
pub trait Row {
    spec fn row_id(&self) -> i32;

    fn id(&self) -> (r: i32)
        ensures
            r == self.row_id(),
    ;
}

/// Copies an optional text field.
pub fn copy_text(s: &Option<String>) -> (r: Option<String>)
    ensures
        r == *s,
{
    match s {
        Some(v) => Some(v.clone()),
        None => None,
    }
}

/// True when `x` fits in an `i64`.
pub open spec fn in_i64(x: int) -> bool {
    i64::MIN <= x <= i64::MAX
}

// ---------------------------------------------------------------- accounts

/// An account with its running balance, in the smallest currency unit.
#[derive(Debug, Clone, PartialEq, Eq)]
pub struct Account {
    pub id: i32,
    pub name: String,
    pub description: Option<String>,
    pub star: bool,
    pub account_type: String,
    pub balance: i64,
}

impl Row for Account {
    open spec fn row_id(&self) -> i32 {
        self.id
    }

    fn id(&self) -> (r: i32) {
        self.id
    }
}

impl Account {
    pub open spec fn with_balance(self, balance: int) -> Account {
        Account { balance: balance as i64, ..self }
    }

    /// A field-by-field copy.
    pub fn duplicate(&self) -> (r: Account)
        ensures
            r == *self,
    {
        Account {
            id: self.id,
            name: self.name.clone(),
            description: copy_text(&self.description),
            star: self.star,
            account_type: self.account_type.clone(),
            balance: self.balance,
        }
    }
}

/// Payload that opens an account.
#[derive(Debug, Default, Clone, PartialEq, Eq)]
pub struct NewAccount {
    pub name: String,
    pub description: Option<String>,
    pub star: bool,
    pub account_type: String,
    pub balance: i64,
}

/// Payload that edits an account; absent fields stay as they are.
#[derive(Debug, Default, Clone, PartialEq, Eq)]
pub struct UpdateAccount {
    pub name: Option<String>,
    pub description: Option<String>,
    pub star: Option<bool>,
    pub account_type: Option<String>,
    pub balance: Option<i64>,
}

// ---------------------------------------------------------- category types

/// A category type, which groups categories for the budget roll-up.
#[derive(Debug, Clone, PartialEq, Eq)]
pub struct CatType {
    pub id: i32,
    pub cat_type: String,
    pub description: Option<String>,
    pub icon: String,
}

impl Row for CatType {
    open spec fn row_id(&self) -> i32 {
        self.id
    }

    fn id(&self) -> (r: i32) {
        self.id
    }
}

impl CatType {
    /// A field-by-field copy.
    pub fn duplicate(&self) -> (r: CatType)
        ensures
            r == *self,
    {
        CatType {
            id: self.id,
            cat_type: self.cat_type.clone(),
            description: copy_text(&self.description),
            icon: self.icon.clone(),
        }
    }
}

/// Payload that creates a category type.
#[derive(Debug, Default, Clone, PartialEq, Eq)]
pub struct AddCatType {
    pub cat_type: String,
    pub description: Option<String>,
    pub icon: String,
}

/// Payload that edits a category type; absent fields stay as they are.
#[derive(Debug, Default, Clone, PartialEq, Eq)]
pub struct UpdateCatType {
    pub cat_type: Option<String>,
    pub description: Option<String>,
    pub icon: Option<String>,
}

// -------------------------------------------------------------- categories

/// A transaction category, optionally belonging to a category type.
#[derive(Debug, Clone, PartialEq, Eq)]
pub struct Category {
    pub id: i32,
    pub name: String,
    pub description: Option<String>,
    pub typeid: i32,
}

impl Row for Category {
    open spec fn row_id(&self) -> i32 {
        self.id
    }

    fn id(&self) -> (r: i32) {
        self.id
    }
}

impl Category {
    /// A field-by-field copy.
    pub fn duplicate(&self) -> (r: Category)
        ensures
            r == *self,
    {
        Category {
            id: self.id,
            name: self.name.clone(),
            description: copy_text(&self.description),
            typeid: self.typeid,
        }
    }
}

/// Payload that creates a category, with an optional first budget period.
#[derive(Debug, Default, Clone, PartialEq, Eq)]
pub struct AddTrxCat {
    pub name: String,
    pub description: Option<String>,
    pub typeid: i32,
    pub budget: Option<AddTrxCatBudget>,
}

/// Payload that edits a category; absent fields stay as they are.
#[derive(Debug, Default, Clone, PartialEq, Eq)]
pub struct UpdateTrxCat {
    pub name: Option<String>,
    pub description: Option<String>,
}

// ---------------------------------------------------------- budget periods

/// One budget period of a category. Postings move `spent` alone; `available`
/// is stored as given and changes only when the period itself is edited.
#[derive(Debug, Clone, PartialEq, Eq)]
pub struct BudgetPeriod {
    pub id: i32,
    pub periode: String,
    pub allocated: i64,
    pub spent: i64,
    pub available: i64,
    pub categoryid: i32,
}

impl Row for BudgetPeriod {
    open spec fn row_id(&self) -> i32 {
        self.id
    }

    fn id(&self) -> (r: i32) {
        self.id
    }
}

impl BudgetPeriod {
    pub open spec fn with_spent(self, spent: int) -> BudgetPeriod {
        BudgetPeriod { spent: spent as i64, ..self }
    }

    /// A field-by-field copy.
    pub fn duplicate(&self) -> (r: BudgetPeriod)
        ensures
            r == *self,
    {
        BudgetPeriod {
            id: self.id,
            periode: self.periode.clone(),
            allocated: self.allocated,
            spent: self.spent,
            available: self.available,
            categoryid: self.categoryid,
        }
    }
}

/// The figures of a budget period as given with a new category.
#[derive(Debug, Default, Clone, PartialEq, Eq)]
pub struct AddTrxCatBudget {
    pub periode: String,
    pub allocated: i64,
    pub spent: i64,
    pub available: i64,
}

/// Payload that opens a budget period for an existing category.
#[derive(Debug, Default, Clone, PartialEq, Eq)]
pub struct NewTrxCatBudget {
    pub periode: String,
    pub allocated: i64,
    pub spent: i64,
    pub available: i64,
    pub categoryid: i32,
}

/// Payload that edits a budget period; absent fields stay as they are.
/// `spent` is kept by the ledger alone, so a value given here is not applied.
#[derive(Debug, Default, Clone, PartialEq, Eq)]
pub struct UpdateTrxCatBudget {
    pub periode: Option<String>,
    pub allocated: Option<i64>,
    pub spent: Option<i64>,
    pub available: Option<i64>,
    pub categoryid: Option<i32>,
}

/// Sums of the current budget periods of the categories of one type.
#[derive(Debug, Clone, Copy, PartialEq, Eq)]
pub struct BudgetRollup {
    pub allocated: i128,
    pub spent: i128,
    pub available: i128,
}

// ------------------------------------------------------------ transactions

/// A posted transaction with its balance snapshot.
#[derive(Debug, Clone, PartialEq, Eq)]
pub struct Transaction {
    pub id: i32,
    pub credit: i64,
    pub debit: i64,
    pub description: Option<String>,
    pub balance_before: i64,
    pub balance_after: i64,
    pub datetime: String,
    pub accountid: i32,
    pub categoryid: i32,
}

impl Row for Transaction {
    open spec fn row_id(&self) -> i32 {
        self.id
    }

    fn id(&self) -> (r: i32) {
        self.id
    }
}

impl Transaction {
    /// Net effect on the account: credit minus debit.
    pub open spec fn amount(self) -> int {
        self.credit - self.debit
    }

    pub open spec fn with_balance_after(self, after: int) -> Transaction {
        Transaction { balance_after: after as i64, ..self }
    }

    pub open spec fn with_balances(self, before: int, after: int) -> Transaction {
        Transaction { balance_before: before as i64, balance_after: after as i64, ..self }
    }

    /// A field-by-field copy.
    pub fn duplicate(&self) -> (r: Transaction)
        ensures
            r == *self,
    {
        Transaction {
            id: self.id,
            credit: self.credit,
            debit: self.debit,
            description: copy_text(&self.description),
            balance_before: self.balance_before,
            balance_after: self.balance_after,
            datetime: self.datetime.clone(),
            accountid: self.accountid,
            categoryid: self.categoryid,
        }
    }
}

/// Payload that posts a transaction.
#[derive(Debug, Default, Clone, PartialEq, Eq)]
pub struct NewTrx {
    pub credit: i64,
    pub debit: i64,
    pub description: Option<String>,
    pub datetime: String,
    pub accountid: i32,
    pub categoryid: i32,
}

/// A transaction row ready to be inserted, with its computed snapshot.
#[derive(Debug, Default, Clone, PartialEq, Eq)]
pub struct AddTrx {
    pub credit: i64,
    pub debit: i64,
    pub description: Option<String>,
    pub balance_before: i64,
    pub balance_after: i64,
    pub datetime: String,
    pub accountid: i32,
    pub categoryid: i32,
}

/// Payload that edits a transaction; absent fields stay as they are.
#[derive(Debug, Default, Clone, PartialEq, Eq)]
pub struct UpdateTrx {
    pub credit: Option<i64>,
    pub debit: Option<i64>,
    pub description: Option<String>,
    pub datetime: Option<String>,
    pub categoryid: Option<i32>,
}

} // verus!
