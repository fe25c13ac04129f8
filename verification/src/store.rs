//! The persistent record store: expense rows and user credentials in an
//! embedded SQLite database, reached through rusqlite.
//!
//! The store carries a ghost bookkeeping of the two tables — the expense
//! rows as a sequence, the users as a map keyed by username — and every
//! operation's contract says how the statement it runs moves that
//! bookkeeping. The store assumes it is the only writer of its database;
//! a second concurrent writer is outside its contracts.

use vstd::prelude::*;
use rusqlite::OptionalExtension;
use crate::model::Expense;
use crate::model::ExpenseModel;
use crate::model::User;
use crate::model::UserModel;
use crate::model::expense_models;

verus! {

#[verifier::external_type_specification]
#[verifier::external_body]
pub struct ExConnection(rusqlite::Connection);

#[verifier::external_type_specification]
#[verifier::external_body]
pub struct ExSqliteError(rusqlite::Error);

#[verifier::external_type_specification]
#[verifier::external_body]
pub struct ExBcryptError(bcrypt::BcryptError);

/// Signup can fail in two distinct domains that must not be conflated:
/// the store refused the row, or the hashing primitive failed.
#[derive(Debug)]
pub enum MyError {
    SqliteError(rusqlite::Error),
    BcryptError(bcrypt::BcryptError),
}

/// What `bcrypt::verify` answers for a password and a hash string; the
/// answer depends on the two arguments alone.
pub uninterp spec fn bcrypt_verifies(password: Seq<char>, hash: Seq<char>) -> bool;

/// Whether `bcrypt::verify` accepts the hash string at all (it parses as a
/// bcrypt hash with a cost in the accepted range); this too depends on the
/// hash alone.
pub uninterp spec fn bcrypt_well_formed(hash: Seq<char>) -> bool;

/// Relies on bcrypt::verify: it parses the hash, recomputes the digest
/// from the password and the hash's own salt and cost, and compares. It
/// errs exactly when the hash does not parse, never on the password.
#[verifier::external_body]
fn bcrypt_check(password: &str, hash: &str) -> (r: Result<bool, bcrypt::BcryptError>)
    ensures
        r is Ok <==> bcrypt_well_formed(hash@),
        r matches Ok(b) ==> b == bcrypt_verifies(password@, hash@),
{
    bcrypt::verify(password, hash)
}

/// Relies on bcrypt::hash at the default cost: it draws a random salt and
/// formats a hash that bcrypt::verify accepts and that verifies against
/// the same password. It fails only when the system's randomness source
/// does.
#[verifier::external_body]
fn bcrypt_hash(password: &str) -> (r: Result<String, bcrypt::BcryptError>)
    ensures
        r matches Ok(h) ==> bcrypt_well_formed(h@) && bcrypt_verifies(password@, h@),
{
    bcrypt::hash(password, bcrypt::DEFAULT_COST)
}

/// The mathematical contents of the store: the expense rows in table
/// order, and the users keyed by their unique username.
pub ghost struct StoreModel {
    pub expenses: Seq<ExpenseModel>,
    pub users: Map<Seq<char>, UserModel>,
}

/// A handle on the database, together with the ghost bookkeeping of what
/// its two tables hold.
pub struct ExpenseStore {
    conn: rusqlite::Connection,
    model: Ghost<StoreModel>,
}

impl View for ExpenseStore {
    type V = StoreModel;

    closed spec fn view(&self) -> StoreModel {
        self.model@
    }
}

/// `post` is `pre` with one new row holding the fields of `e` under a
/// store-assigned id larger than any id `pre` holds.
pub open spec fn expense_appended(pre: Seq<ExpenseModel>, post: Seq<ExpenseModel>, e: ExpenseModel) -> bool {
    exists|id: int|
        {
            &&& id > 0
            &&& (forall|a: int| 0 <= a < pre.len() ==> (#[trigger] pre[a]).id < id)
            &&& post == pre.push(
                ExpenseModel {
                    id: id,
                    date: e.date,
                    amount_cents: e.amount_cents,
                    category: e.category,
                    description: e.description,
                    payment_method: e.payment_method,
                },
            )
        }
}

/// `post` is `pre` with the user `username` newly present, stored under a
/// hash that verifies against `password`.
pub open spec fn user_added(
    pre: Map<Seq<char>, UserModel>,
    post: Map<Seq<char>, UserModel>,
    username: Seq<char>,
    password: Seq<char>,
) -> bool {
    &&& !pre.contains_key(username)
    &&& exists|id: int, hash: Seq<char>|
        {
            &&& id > 0
            &&& bcrypt_well_formed(hash)
            &&& bcrypt_verifies(password, hash)
            &&& post == pre.insert(
                username,
                UserModel { id: id, username: username, password_hash: hash },
            )
        }
}

impl ExpenseStore {
    /// Relies on rusqlite::Connection::open: opens, creating it if absent,
    /// the database file at the given path.
    #[verifier::external_body]
    fn open_connection(path: &str) -> (r: Result<rusqlite::Connection, rusqlite::Error>) {
        rusqlite::Connection::open(path)
    }

    /// Relies on rusqlite::Connection::open_in_memory: a connection to a
    /// fresh in-memory database that holds no tables and no rows.
    #[verifier::external_body]
    fn open_memory_connection() -> (r: Result<rusqlite::Connection, rusqlite::Error>) {
        rusqlite::Connection::open_in_memory()
    }

    /// Opens the store on a database file. The bookkeeping starts from
    /// whatever rows the file already holds, about which nothing is
    /// assumed.
    pub fn open(path: &str) -> (r: Result<ExpenseStore, rusqlite::Error>) {
        match Self::open_connection(path) {
            Ok(conn) => Ok(ExpenseStore { conn, model: Ghost(arbitrary()) }),
            Err(e) => Err(e),
        }
    }

    /// Opens a store on a fresh in-memory database: no expense rows and
    /// no users.
    pub fn open_in_memory() -> (r: Result<ExpenseStore, rusqlite::Error>)
        ensures
            r matches Ok(s) ==> s@.expenses == Seq::<ExpenseModel>::empty() && s@.users
                == Map::<Seq<char>, UserModel>::empty(),
    {
        match Self::open_memory_connection() {
            Ok(conn) => Ok(
                ExpenseStore {
                    conn,
                    model: Ghost(StoreModel { expenses: Seq::empty(), users: Map::empty() }),
                },
            ),
            Err(e) => Err(e),
        }
    }

    /// Creates the expense and user tables if they are absent; safe to run
    /// on every start. Relies on rusqlite::Connection::execute running
    /// CREATE TABLE IF NOT EXISTS, which never drops or alters existing
    /// rows.
    #[verifier::external_body]
    pub fn create_expense_table(&mut self) -> (r: Result<(), rusqlite::Error>)
        ensures
            final(self)@ == old(self)@,
    {
        self.conn.execute(
            "CREATE TABLE IF NOT EXISTS expenses (
                id INTEGER PRIMARY KEY AUTOINCREMENT,
                date TEXT NOT NULL,
                amount INTEGER NOT NULL,
                category TEXT NOT NULL,
                description TEXT,
                payment_method TEXT
                )",
            (),
        )?;
        self.conn.execute(
            "CREATE TABLE IF NOT EXISTS users (
                id INTEGER PRIMARY KEY AUTOINCREMENT,
                username TEXT NOT NULL UNIQUE,
                password_hash TEXT NOT NULL
                )",
            (),
        )?;
        Ok(())
    }

    /// Inserts one expense row; the store assigns the id, ignoring the
    /// id of the argument. Relies on rusqlite::Connection::execute running
    /// INSERT, and on the table's AUTOINCREMENT key: the new row's id is
    /// larger than every id the table has used. A failed statement changes
    /// no rows.
    #[verifier::external_body]
    pub fn add_expense(&mut self, expense: &Expense) -> (r: Result<(), rusqlite::Error>)
        ensures
            final(self)@.users == old(self)@.users,
            r is Ok ==> expense_appended(old(self)@.expenses, final(self)@.expenses, expense@),
            r is Err ==> final(self)@.expenses == old(self)@.expenses,
    {
        self.conn.execute(
            "INSERT INTO expenses (date, amount, category, description, payment_method) VALUES (?1, ?2, ?3, ?4, ?5)",
            (&expense.date, expense.amount_cents, &expense.category, &expense.description, &expense.payment_method),
        )?;
        Ok(())
    }

    /// Loads every expense row, fully materialized, in whatever order the
    /// store walks the table. Relies on rusqlite prepare and query_map
    /// over SELECT with no ORDER BY: the rows handed back are exactly the
    /// table's rows, in an order the store does not promise.
    #[verifier::external_body]
    pub fn get_expenses(&self) -> (r: Result<Vec<Expense>, rusqlite::Error>)
        ensures
            r matches Ok(v) ==> expense_models(v@).to_multiset() == self@.expenses.to_multiset(),
    {
        let mut stmt = self.conn.prepare(
            "SELECT id, date, amount, category, description, payment_method FROM expenses",
        )?;
        let rows = stmt.query_map((), |row| {
            Ok(Expense {
                id: row.get(0)?,
                date: row.get(1)?,
                amount_cents: row.get(2)?,
                category: row.get(3)?,
                description: row.get(4)?,
                payment_method: row.get(5)?,
            })
        })?;
        rows.collect()
    }

    /// Deletes the rows carrying the given id; an id the table does not
    /// hold deletes nothing and still succeeds. Relies on
    /// rusqlite::Connection::execute running DELETE ... WHERE. A failed
    /// statement changes no rows.
    #[verifier::external_body]
    pub fn delete_expense(&mut self, expense_id: i32) -> (r: Result<(), rusqlite::Error>)
        ensures
            final(self)@.users == old(self)@.users,
            r is Ok ==> final(self)@.expenses == old(self)@.expenses.filter(
                |e: ExpenseModel| e.id != expense_id as int,
            ),
            r is Err ==> final(self)@.expenses == old(self)@.expenses,
    {
        self.conn.execute("DELETE FROM expenses WHERE id = ?1", (expense_id,))?;
        Ok(())
    }

    /// Looks up the row with exactly the given username. Relies on
    /// rusqlite query_row over SELECT ... WHERE username = ?1 and on the
    /// column's UNIQUE constraint: the row handed back, if any, is the one
    /// the bookkeeping holds under that name.
    #[verifier::external_body]
    fn select_user_row(&self, username: &str) -> (r: Result<Option<User>, rusqlite::Error>)
        ensures
            r matches Ok(opt) ==> match opt {
                Some(u) => self@.users.contains_key(username@) && u@ == self@.users[username@]
                    && u.username@ == username@,
                None => !self@.users.contains_key(username@),
            },
    {
        let mut stmt = self.conn.prepare(
            "SELECT id, username, password_hash FROM users WHERE username = ?1",
        )?;
        let row = stmt.query_row((username,), |row| {
            Ok(User { id: row.get(0)?, username: row.get(1)?, password_hash: row.get(2)? })
        }).optional()?;
        Ok(row)
    }

    /// Inserts one user row; the store assigns the id. Relies on
    /// rusqlite::Connection::execute running INSERT and on the username
    /// column's UNIQUE constraint: a name the table already holds is
    /// refused and nothing changes; a failed statement changes no rows.
    #[verifier::external_body]
    fn insert_user_row(&mut self, username: &str, password_hash: &str) -> (r: Result<
        (),
        rusqlite::Error,
    >)
        ensures
            final(self)@.expenses == old(self)@.expenses,
            r is Ok ==> !old(self)@.users.contains_key(username@) && (exists|id: int|
                id > 0 && final(self)@.users == old(self)@.users.insert(
                    username@,
                    UserModel { id: id, username: username@, password_hash: password_hash@ },
                )),
            r is Err ==> final(self)@.users == old(self)@.users,
    {
        self.conn.execute(
            "INSERT INTO users (username, password_hash) VALUES (?1, ?2)",
            (username, password_hash),
        )?;
        Ok(())
    }

    /// Deletes the user row with the given username, if any. Relies on
    /// rusqlite::Connection::execute running DELETE ... WHERE. A failed
    /// statement changes no rows.
    #[verifier::external_body]
    pub fn delete_user(&mut self, username: &str) -> (r: Result<(), rusqlite::Error>)
        ensures
            final(self)@.expenses == old(self)@.expenses,
            r is Ok ==> final(self)@.users == old(self)@.users.remove(username@),
            r is Err ==> final(self)@.users == old(self)@.users,
    {
        self.conn.execute("DELETE FROM users WHERE username = ?1", (username,))?;
        Ok(())
    }

    /// True exactly when no stored user carries this username; the
    /// pre-check run before registration.
    pub fn is_username_unique(&self, username: &str) -> (r: Result<bool, rusqlite::Error>)
        ensures
            r matches Ok(b) ==> b == !self@.users.contains_key(username@),
    {
        match self.select_user_row(username) {
            Ok(Some(_)) => Ok(false),
            Ok(None) => Ok(true),
            Err(e) => Err(e),
        }
    }

    /// Hashes the password with the one-way adaptive algorithm and stores
    /// the user's name with the hash; the plaintext is never stored. Fails
    /// with the hashing variant when the primitive fails and the storage
    /// variant when the store refuses the row (a username the store
    /// already holds included); on failure nothing changes.
    pub fn add_user(&mut self, user: &User, password: &str) -> (r: Result<(), MyError>)
        ensures
            final(self)@.expenses == old(self)@.expenses,
            r is Ok ==> user_added(old(self)@.users, final(self)@.users, user.username@, password@),
            r is Err ==> final(self)@.users == old(self)@.users,
            old(self)@.users.contains_key(user.username@) ==> r is Err,
            r matches Err(MyError::BcryptError(_)) ==> final(self)@ == old(self)@,
    {
        let hash = match bcrypt_hash(password) {
            Ok(h) => h,
            Err(e) => {
                return Err(MyError::BcryptError(e));
            },
        };
        match self.insert_user_row(user.username.as_str(), hash.as_str()) {
            Ok(()) => {
                proof {
                    let id = choose|id: int|
                        id > 0 && self@.users == old(self)@.users.insert(
                            user.username@,
                            UserModel {
                                id: id,
                                username: user.username@,
                                password_hash: hash@,
                            },
                        );
                    assert(user_added(old(self)@.users, self@.users, user.username@, password@));
                }
                Ok(())
            },
            Err(e) => Err(MyError::SqliteError(e)),
        }
    }

    /// Looks the username up and verifies the password against the stored
    /// hash. Returns the identity only on an exact, successful match; an
    /// unknown username and a wrong password both come back as `None`,
    /// indistinguishable to the caller, and a verifier error counts as no
    /// match (authentication fails closed).
    pub fn authenticate_user(&self, username: &str, password: &str) -> (r: Result<
        Option<User>,
        rusqlite::Error,
    >)
        ensures
            r matches Ok(opt) ==> {
                &&& (opt is Some <==> (self@.users.contains_key(username@) && bcrypt_well_formed(
                    self@.users[username@].password_hash,
                ) && bcrypt_verifies(password@, self@.users[username@].password_hash)))
                &&& (opt matches Some(u) ==> u@ == self@.users[username@] && u.username@
                    == username@)
            },
    {
        let row = match self.select_user_row(username) {
            Ok(x) => x,
            Err(e) => {
                return Err(e);
            },
        };
        match row {
            None => Ok(None),
            Some(u) => {
                match bcrypt_check(password, u.password_hash.as_str()) {
                    Ok(true) => Ok(Some(u)),
                    Ok(false) => Ok(None),
                    Err(_) => Ok(None),
                }
            },
        }
    }
}

} // verus!
