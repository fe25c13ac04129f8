//! The application session: the form fields, the loaded expense snapshot,
//! the login state, and the flows that tie them to the store.
//!
//! Every write goes to the store and is followed by a fresh load; the
//! cached list is never edited in place to simulate a write.

use vstd::prelude::*;
use crate::aggregate::Totals;
use crate::aggregate::calculate_category_totals;
use crate::aggregate::category_totals_map;
use crate::aggregate::total_amount;
use crate::amounts::amount_parsed;
use crate::amounts::lemma_amount_unique;
use crate::amounts::parse_amount;
use crate::model::Expense;
use crate::model::ExpenseModel;
use crate::model::User;
use crate::model::expense_models;
use crate::password::is_password_valid;
use crate::password::password_ok;
use crate::store::ExpenseStore;
use crate::store::MyError;
use crate::store::bcrypt_verifies;
use crate::store::expense_appended;
use crate::store::user_added;

verus! {

/// The session state around the store: form fields as the user typed
/// them, the last loaded expense list, and who is logged in.
pub struct MyApp {
    pub expense_name: String,
    pub expense_amount: String,
    pub payment_method: String,
    pub category: String,
    pub expenses: Vec<Expense>,
    pub expense_date: String,
    pub warning_message: Option<String>,
    pub current_user_id: Option<i32>,
    pub username: String,
    pub password: String,
    pub is_logged_in: bool,
    pub current_user: Option<User>,
    pub new_username: String,
    pub new_password: String,
    pub showing_signup: bool,
    pub show_monthly_trends: bool,
    pub show_yearly_comparison: bool,
    pub show_monthly_spending: bool,
}

/// The expense list holds what a reload of the store produced: the
/// store's rows in some order, or nothing when the load failed.
pub open spec fn loaded_from(list: Seq<Expense>, rows: Seq<ExpenseModel>) -> bool {
    expense_models(list).to_multiset() == rows.to_multiset() || list.len() == 0
}

pub open spec fn msg_invalid_login() -> Seq<char> {
    "Invalid username or password"@
}

pub open spec fn msg_empty_fields() -> Seq<char> {
    "Username and password cannot be empty"@
}

pub open spec fn msg_username_exists() -> Seq<char> {
    "Username already exists"@
}

pub open spec fn msg_unique_check_failed() -> Seq<char> {
    "Failed to check username uniqueness"@
}

pub open spec fn msg_weak_password() -> Seq<char> {
    "Password must be at least 5 characters long, include a number and a symbol"@
}

pub open spec fn msg_registered() -> Seq<char> {
    "User successfully registered!"@
}

pub open spec fn msg_register_failed_storage() -> Seq<char> {
    "Failed to register: storage error"@
}

pub open spec fn msg_register_failed_hashing() -> Seq<char> {
    "Failed to register: hashing error"@
}

/// The fields a login attempt never touches.
pub open spec fn untouched_by_login(pre: MyApp, post: MyApp) -> bool {
    &&& post.expense_name == pre.expense_name
    &&& post.expense_amount == pre.expense_amount
    &&& post.payment_method == pre.payment_method
    &&& post.category == pre.category
    &&& post.expense_date == pre.expense_date
    &&& post.current_user_id == pre.current_user_id
    &&& post.username == pre.username
    &&& post.password == pre.password
    &&& post.new_username == pre.new_username
    &&& post.new_password == pre.new_password
    &&& post.showing_signup == pre.showing_signup
    &&& post.show_monthly_trends == pre.show_monthly_trends
    &&& post.show_yearly_comparison == pre.show_yearly_comparison
    &&& post.show_monthly_spending == pre.show_monthly_spending
}

/// A signup attempt writes nothing of the session but its outcome
/// message.
pub open spec fn untouched_by_signup(pre: MyApp, post: MyApp) -> bool {
    &&& untouched_by_login(pre, post)
    &&& post.expenses == pre.expenses
    &&& post.is_logged_in == pre.is_logged_in
    &&& post.current_user == pre.current_user
}

/// The fields an expense mutation never touches.
pub open spec fn untouched_by_expense_op(pre: MyApp, post: MyApp) -> bool {
    &&& post.expense_date == pre.expense_date
    &&& post.warning_message == pre.warning_message
    &&& post.current_user_id == pre.current_user_id
    &&& post.username == pre.username
    &&& post.password == pre.password
    &&& post.is_logged_in == pre.is_logged_in
    &&& post.current_user == pre.current_user
    &&& post.new_username == pre.new_username
    &&& post.new_password == pre.new_password
    &&& post.showing_signup == pre.showing_signup
    &&& post.show_monthly_trends == pre.show_monthly_trends
    &&& post.show_yearly_comparison == pre.show_yearly_comparison
    &&& post.show_monthly_spending == pre.show_monthly_spending
}

/// The amount the form's text stands for: its parsed value in cents, or
/// zero when it parses to nothing representable.
pub open spec fn form_amount(s: Seq<char>) -> int {
    if exists|c: int| 0 <= c <= u64::MAX as int && amount_parsed(s, c) {
        choose|c: int| 0 <= c <= u64::MAX as int && amount_parsed(s, c)
    } else {
        0
    }
}

/// The expense the form fields describe; the id is a placeholder the
/// store overwrites.
pub open spec fn entered_expense(pre: MyApp) -> ExpenseModel {
    ExpenseModel {
        id: 0,
        date: pre.expense_date@,
        amount_cents: form_amount(pre.expense_amount@),
        category: pre.category@,
        description: pre.expense_name@,
        payment_method: pre.payment_method@,
    }
}

impl MyApp {
    /// A fresh session: every field blank, nobody logged in, and the
    /// expense list loaded from the store.
    pub fn new(store: &ExpenseStore) -> (app: MyApp)
        ensures
            app.expense_name@ == Seq::<char>::empty(),
            app.expense_amount@ == Seq::<char>::empty(),
            app.payment_method@ == Seq::<char>::empty(),
            app.category@ == Seq::<char>::empty(),
            app.expense_date@ == Seq::<char>::empty(),
            app.warning_message is None,
            app.current_user_id is None,
            app.username@ == Seq::<char>::empty(),
            app.password@ == Seq::<char>::empty(),
            !app.is_logged_in,
            app.current_user is None,
            app.new_username@ == Seq::<char>::empty(),
            app.new_password@ == Seq::<char>::empty(),
            !app.showing_signup,
            !app.show_monthly_trends,
            !app.show_yearly_comparison,
            !app.show_monthly_spending,
            loaded_from(app.expenses@, store@.expenses),
    {
        let mut app = MyApp {
            expense_name: String::new(),
            expense_amount: String::new(),
            payment_method: String::new(),
            category: String::new(),
            expenses: Vec::new(),
            expense_date: String::new(),
            warning_message: None,
            current_user_id: None,
            username: String::new(),
            password: String::new(),
            is_logged_in: false,
            current_user: None,
            new_username: String::new(),
            new_password: String::new(),
            showing_signup: false,
            show_monthly_trends: false,
            show_yearly_comparison: false,
            show_monthly_spending: false,
        };
        app.load_expenses(store);
        app
    }

    /// Replaces the cached list with a fresh load; a failed load leaves
    /// an empty list rather than stale rows.
    fn load_expenses(&mut self, store: &ExpenseStore)
        ensures
            loaded_from(final(self).expenses@, store@.expenses),
            untouched_by_login(*old(self), *final(self)),
            final(self).warning_message == old(self).warning_message,
            final(self).is_logged_in == old(self).is_logged_in,
            final(self).current_user == old(self).current_user,
    {
        self.expenses = match store.get_expenses() {
            Ok(v) => v,
            Err(_) => Vec::new(),
        };
    }

    /// Tries the credentials against the store. On a match the session is
    /// logged in as that user and the expenses are reloaded; on anything
    /// else — unknown name, wrong password, or a store failure — only the
    /// warning changes, one message for all causes.
    pub fn process_login(&mut self, store: &ExpenseStore, username: &str, password: &str)
        ensures
            untouched_by_login(*old(self), *final(self)),
            ({
                // the session logged the user in
                &&& final(self).is_logged_in
                &&& final(self).warning_message is None
                &&& (final(self).current_user matches Some(u) && {
                    &&& store@.users.contains_key(username@)
                    &&& u@ == store@.users[username@]
                    &&& u.username@ == username@
                    &&& bcrypt_verifies(password@, u.password_hash@)
                })
                &&& loaded_from(final(self).expenses@, store@.expenses)
            } || {
                // or it turned the attempt away
                &&& final(self).warning_message matches Some(m) && m@ == msg_invalid_login()
                &&& final(self).is_logged_in == old(self).is_logged_in
                &&& final(self).current_user == old(self).current_user
                &&& final(self).expenses == old(self).expenses
            }),
            // an unknown name and a wrong password are turned away alike
            !(store@.users.contains_key(username@) && bcrypt_verifies(
                password@,
                store@.users[username@].password_hash,
            )) ==> (final(self).warning_message matches Some(m) && m@ == msg_invalid_login()),
    {
        self.warning_message = None;
        match store.authenticate_user(username, password) {
            Ok(Some(user)) => {
                self.is_logged_in = true;
                self.current_user = Some(user);
                self.load_expenses(store);
            },
            _ => {
                self.warning_message = Some("Invalid username or password".to_owned());
            },
        }
    }

    /// Ends the session: nobody logged in, the login form cleared, and
    /// the signup pane showing.
    pub fn logout(&mut self)
        ensures
            !final(self).is_logged_in,
            final(self).current_user is None,
            final(self).username@ == Seq::<char>::empty(),
            final(self).password@ == Seq::<char>::empty(),
            final(self).current_user_id is None,
            final(self).showing_signup,
            final(self).expense_name == old(self).expense_name,
            final(self).expense_amount == old(self).expense_amount,
            final(self).payment_method == old(self).payment_method,
            final(self).category == old(self).category,
            final(self).expense_date == old(self).expense_date,
            final(self).expenses == old(self).expenses,
            final(self).warning_message == old(self).warning_message,
            final(self).new_username == old(self).new_username,
            final(self).new_password == old(self).new_password,
            final(self).show_monthly_trends == old(self).show_monthly_trends,
            final(self).show_yearly_comparison == old(self).show_yearly_comparison,
            final(self).show_monthly_spending == old(self).show_monthly_spending,
    {
        self.is_logged_in = false;
        self.current_user = None;
        self.username = String::new();
        self.password = String::new();
        self.current_user_id = None;
        self.showing_signup = true;
    }

    /// Shows the signup pane.
    pub fn show_signup(&mut self)
        ensures
            *final(self) == (MyApp { showing_signup: true, ..*old(self) }),
    {
        self.showing_signup = true;
    }

    /// Shows the login pane.
    pub fn show_login(&mut self)
        ensures
            *final(self) == (MyApp { showing_signup: false, ..*old(self) }),
    {
        self.showing_signup = false;
    }

    /// Walks the signup checks in order — fields present, username free,
    /// password strong enough — and only then registers the user; the
    /// outcome message says which step decided.
    pub fn process_signup(&mut self, store: &mut ExpenseStore)
        ensures
            untouched_by_signup(*old(self), *final(self)),
            final(store)@.expenses == old(store)@.expenses,
            ({
                let name = old(self).new_username@;
                let pw = old(self).new_password@;
                {
                    ||| (final(self).warning_message matches Some(m) && m@ == msg_empty_fields()
                        && (name.len() == 0 || pw.len() == 0) && final(store)@.users == old(store)@.users)
                    ||| (final(self).warning_message matches Some(m) && m@
                        == msg_unique_check_failed() && name.len() > 0 && pw.len() > 0 && final(store)@.users == old(store)@.users)
                    ||| (final(self).warning_message matches Some(m) && m@ == msg_username_exists()
                        && name.len() > 0 && pw.len() > 0 && old(store)@.users.contains_key(name)
                        && final(store)@.users == old(store)@.users)
                    ||| (final(self).warning_message matches Some(m) && m@ == msg_weak_password()
                        && name.len() > 0 && pw.len() > 0 && !old(store)@.users.contains_key(name)
                        && !password_ok(pw) && final(store)@.users == old(store)@.users)
                    ||| (final(self).warning_message matches Some(m) && m@ == msg_registered()
                        && name.len() > 0 && pw.len() > 0 && password_ok(pw) && user_added(old(store)@.users, final(store)@.users, name, pw))
                    ||| ((final(self).warning_message matches Some(m) && (m@
                        == msg_register_failed_storage() || m@ == msg_register_failed_hashing()))
                        && name.len() > 0 && pw.len() > 0 && !old(store)@.users.contains_key(name)
                        && password_ok(pw) && final(store)@.users == old(store)@.users)
                }
            }),
            // empty fields are turned away outright, before the store is asked
            (old(self).new_username@.len() == 0 || old(self).new_password@.len() == 0) ==> (final(self).warning_message matches Some(m) && m@ == msg_empty_fields() && final(store)@ == old(store)@),
    {
        self.warning_message = None;
        if self.new_username.as_str().is_empty() || self.new_password.as_str().is_empty() {
            self.warning_message = Some("Username and password cannot be empty".to_owned());
            return ;
        }
        let unique = match store.is_username_unique(self.new_username.as_str()) {
            Ok(b) => b,
            Err(_) => {
                self.warning_message = Some("Failed to check username uniqueness".to_owned());
                return ;
            },
        };
        if !unique {
            self.warning_message = Some("Username already exists".to_owned());
            return ;
        }
        if !is_password_valid(self.new_password.as_str()) {
            self.warning_message = Some(
                "Password must be at least 5 characters long, include a number and a symbol".to_owned(),
            );
            return ;
        }
        let user = User {
            id: 0,
            username: self.new_username.clone(),
            password_hash: String::new(),
        };
        match store.add_user(&user, self.new_password.as_str()) {
            Ok(_) => {
                self.warning_message = Some("User successfully registered!".to_owned());
            },
            Err(MyError::SqliteError(_)) => {
                self.warning_message = Some("Failed to register: storage error".to_owned());
            },
            Err(MyError::BcryptError(_)) => {
                self.warning_message = Some("Failed to register: hashing error".to_owned());
            },
        }
    }

    /// Reads the form, stores the expense, reloads the list, and clears
    /// the form's text fields; a store failure is swallowed so one failed
    /// write cannot take the session down.
    pub fn add_expense_to_db(&mut self, store: &mut ExpenseStore)
        ensures
            untouched_by_expense_op(*old(self), *final(self)),
            final(self).expense_name@ == Seq::<char>::empty(),
            final(self).expense_amount@ == Seq::<char>::empty(),
            final(self).payment_method@ == Seq::<char>::empty(),
            final(self).category@ == Seq::<char>::empty(),
            final(store)@.users == old(store)@.users,
            expense_appended(
                old(store)@.expenses,
                final(store)@.expenses,
                entered_expense(*old(self)),
            ) || final(store)@.expenses == old(store)@.expenses,
            loaded_from(final(self).expenses@, final(store)@.expenses),
    {
        let amount = match parse_amount(self.expense_amount.as_str()) {
            Some(c) => {
                proof {
                    lemma_amount_unique(
                        self.expense_amount@,
                        c as int,
                        form_amount(self.expense_amount@),
                    );
                }
                c
            },
            None => 0,
        };
        let expense = Expense {
            id: 0,
            date: self.expense_date.clone(),
            amount_cents: amount,
            category: self.category.clone(),
            description: self.expense_name.clone(),
            payment_method: self.payment_method.clone(),
        };
        match store.add_expense(&expense) {
            Ok(_) => (),
            Err(_) => (),
        }
        self.load_expenses(store);
        self.expense_name = String::new();
        self.expense_amount = String::new();
        self.payment_method = String::new();
        self.category = String::new();
    }

    /// Asks the store to drop the row with this id and reloads the list;
    /// an id the store does not hold changes nothing and is no error.
    pub fn delete_expense_from_db(&mut self, store: &mut ExpenseStore, expense_id: i32)
        ensures
            untouched_by_expense_op(*old(self), *final(self)),
            final(self).expense_name == old(self).expense_name,
            final(self).expense_amount == old(self).expense_amount,
            final(self).payment_method == old(self).payment_method,
            final(self).category == old(self).category,
            final(store)@.users == old(store)@.users,
            final(store)@.expenses == old(store)@.expenses.filter(
                |e: ExpenseModel| e.id != expense_id as int,
            ) || final(store)@.expenses == old(store)@.expenses,
            loaded_from(final(self).expenses@, final(store)@.expenses),
    {
        match store.delete_expense(expense_id) {
            Ok(_) => (),
            Err(_) => (),
        }
        self.load_expenses(store);
    }

    /// Sums the loaded expenses by category.
    pub fn calculate_category_totals(&self) -> (r: Totals)
        ensures
            r.inv(),
            r@ == category_totals_map(expense_models(self.expenses@)),
            r.sum() == total_amount(expense_models(self.expenses@)),
    {
        calculate_category_totals(&self.expenses)
    }
}

} // verus!
