//! The two entity types of the store and their mathematical values.

use vstd::prelude::*;

verus! {

/// One dated outflow of money.
///
/// The amount is held in whole cents (`2550` stands for 25.50), so sums over
/// expenses are exact. The date is an ISO-8601 `YYYY-MM-DD` string; it is not
/// validated at write time, the aggregation functions deal with malformed
/// dates explicitly.
pub struct Expense {
    pub id: i32,
    pub date: String,
    pub amount_cents: u64,
    pub category: String,
    pub description: String,
    pub payment_method: String,
}

/// The mathematical value of an `Expense`.
pub ghost struct ExpenseModel {
    pub id: int,
    pub date: Seq<char>,
    pub amount_cents: int,
    pub category: Seq<char>,
    pub description: Seq<char>,
    pub payment_method: Seq<char>,
}

impl View for Expense {
    type V = ExpenseModel;

    open spec fn view(&self) -> ExpenseModel {
        ExpenseModel {
            id: self.id as int,
            date: self.date@,
            amount_cents: self.amount_cents as int,
            category: self.category@,
            description: self.description@,
            payment_method: self.payment_method@,
        }
    }
}

/// The mathematical values of a sequence of expenses.
pub open spec fn expense_models(v: Seq<Expense>) -> Seq<ExpenseModel> {
    v.map_values(|e: Expense| e@)
}

/// One authenticatable identity. The plaintext password is never stored;
/// only the one-way hash is.
pub struct User {
    pub id: i32,
    pub username: String,
    pub password_hash: String,
}

/// The mathematical value of a `User`.
pub ghost struct UserModel {
    pub id: int,
    pub username: Seq<char>,
    pub password_hash: Seq<char>,
}

impl View for User {
    type V = UserModel;

    open spec fn view(&self) -> UserModel {
        UserModel {
            id: self.id as int,
            username: self.username@,
            password_hash: self.password_hash@,
        }
    }
}

} // verus!
