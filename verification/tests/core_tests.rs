use expense_core::aggregate::calculate_category_totals;
use expense_core::aggregate::calculate_monthly_trends;
use expense_core::aggregate::calculate_yearly_comparison;
use expense_core::amounts::parse_amount;
use expense_core::dates::check_date;
use expense_core::model::Expense;
use expense_core::model::User;
use expense_core::password::is_password_valid;
use expense_core::session::MyApp;
use expense_core::store::ExpenseStore;
use expense_core::store::MyError;

fn store_with_schema() -> ExpenseStore {
    let mut store = ExpenseStore::open_in_memory().expect("in-memory store");
    store.create_expense_table().expect("schema");
    store
}

fn expense(date: &str, cents: u64, category: &str) -> Expense {
    Expense {
        id: 0,
        date: date.to_string(),
        amount_cents: cents,
        category: category.to_string(),
        description: "".to_string(),
        payment_method: "".to_string(),
    }
}

#[test]
fn category_totals_groups_by_exact_category() {
    let expenses = vec![
        expense("2023-01-01", 1000, "Food"),
        expense("2023-01-02", 500, "Food"),
        expense("2023-01-03", 2000, "Travel"),
    ];
    let totals = calculate_category_totals(&expenses);
    assert_eq!(totals.get("Food"), Some(1500));
    assert_eq!(totals.get("Travel"), Some(2000));
    assert_eq!(totals.get("Housing and Utilities"), None);
    assert_eq!(totals.len(), 2);
}

#[test]
fn category_totals_is_order_independent() {
    let forward = vec![
        expense("2023-01-01", 1000, "Food"),
        expense("2023-01-02", 500, "Food"),
        expense("2023-01-03", 2000, "Travel"),
    ];
    let backward = vec![
        expense("2023-01-03", 2000, "Travel"),
        expense("2023-01-02", 500, "Food"),
        expense("2023-01-01", 1000, "Food"),
    ];
    let a = calculate_category_totals(&forward);
    let b = calculate_category_totals(&backward);
    assert_eq!(a.get("Food"), b.get("Food"));
    assert_eq!(a.get("Travel"), b.get("Travel"));
    assert_eq!(a.len(), b.len());
}

#[test]
fn monthly_totals_groups_by_year_month() {
    let expenses = vec![
        expense("2023-01-05", 1000, "Food"),
        expense("2023-01-20", 500, "Food"),
    ];
    let totals = calculate_monthly_trends(&expenses);
    assert_eq!(totals.get("2023-01"), Some(1500));
    assert_eq!(totals.len(), 1);
}

#[test]
fn monthly_totals_skips_short_dates() {
    let expenses = vec![
        expense("2023-01-05", 1000, "Food"),
        expense("2023", 500, "Food"),
    ];
    let totals = calculate_monthly_trends(&expenses);
    assert_eq!(totals.get("2023-01"), Some(1000));
    assert_eq!(totals.len(), 1);
}

#[test]
fn yearly_totals_groups_by_year() {
    let expenses = vec![
        expense("2022-06-01", 1000, "Food"),
        expense("2023-01-01", 500, "Food"),
    ];
    let totals = calculate_yearly_comparison(&expenses).expect("all dates well-formed");
    assert_eq!(totals.get("2022"), Some(1000));
    assert_eq!(totals.get("2023"), Some(500));
    assert_eq!(totals.len(), 2);
}

#[test]
fn yearly_totals_names_the_bad_record() {
    let expenses = vec![
        expense("2022-06-01", 1000, "Food"),
        expense("junk", 500, "Food"),
        expense("2023-01-01", 250, "Food"),
    ];
    let err = calculate_yearly_comparison(&expenses).unwrap_err();
    assert_eq!(err.index, 1);
    assert_eq!(err.date, "junk");
}

#[test]
fn totals_entries_can_be_walked() {
    let expenses = vec![
        expense("2023-01-01", 1000, "Food"),
        expense("2023-01-03", 2000, "Travel"),
    ];
    let totals = calculate_category_totals(&expenses);
    let mut seen = Vec::new();
    for j in 0..totals.entry_count() {
        let (label, cents) = totals.pair_at(j);
        seen.push((label, cents));
    }
    seen.sort();
    assert_eq!(
        seen,
        vec![("Food".to_string(), 1000u128), ("Travel".to_string(), 2000u128)]
    );
}

#[test]
fn adding_then_reloading_preserves_the_total() {
    let mut store = store_with_schema();
    store.add_expense(&expense("2023-01-01", 1000, "Food")).unwrap();
    store.add_expense(&expense("2023-02-01", 500, "Food")).unwrap();
    store.add_expense(&expense("2023-03-01", 2000, "Travel")).unwrap();

    let listed = store.get_expenses().unwrap();
    let direct: u128 = listed.iter().map(|e| e.amount_cents as u128).sum();
    let totals = calculate_category_totals(&listed);
    assert_eq!(totals.total_cents(), direct);
    assert_eq!(totals.total_cents(), 3500);
}

#[test]
fn add_assigns_fresh_ids_and_grows_list_by_one() {
    let mut store = store_with_schema();
    store.add_expense(&expense("2023-01-01", 1000, "Food")).unwrap();
    let before = store.get_expenses().unwrap();

    store.add_expense(&expense("2023-01-02", 500, "Travel")).unwrap();
    let after = store.get_expenses().unwrap();

    assert_eq!(after.len(), before.len() + 1);
    let new_row = after.iter().find(|e| e.category == "Travel").unwrap();
    assert_eq!(new_row.date, "2023-01-02");
    assert_eq!(new_row.amount_cents, 500);
    assert!(before.iter().all(|e| e.id != new_row.id));
}

#[test]
fn delete_removes_the_id_and_is_idempotent() {
    let mut store = store_with_schema();
    store.add_expense(&expense("2023-01-01", 1000, "Food")).unwrap();
    store.add_expense(&expense("2023-01-02", 500, "Travel")).unwrap();
    let listed = store.get_expenses().unwrap();
    let doomed = listed[0].id;

    store.delete_expense(doomed).unwrap();
    let remaining = store.get_expenses().unwrap();
    assert_eq!(remaining.len(), 1);
    assert!(remaining.iter().all(|e| e.id != doomed));

    store.delete_expense(doomed).expect("second delete of the same id succeeds");
    assert_eq!(store.get_expenses().unwrap().len(), 1);
}

#[test]
fn add_expense_without_schema_fails() {
    let mut store = ExpenseStore::open_in_memory().expect("in-memory store");
    assert!(store.add_expense(&expense("2023-01-01", 1000, "Food")).is_err());
}

#[test]
fn authenticate_after_signup() {
    let mut store = store_with_schema();
    let user = User {
        id: 0,
        username: "alice".to_string(),
        password_hash: String::new(),
    };
    store.add_user(&user, "sesame42!").unwrap();

    let granted = store.authenticate_user("alice", "sesame42!").unwrap();
    let identity = granted.expect("correct password authenticates");
    assert_eq!(identity.username, "alice");

    let wrong_password = store.authenticate_user("alice", "wrong42!").unwrap();
    let unknown_user = store.authenticate_user("bob", "sesame42!").unwrap();
    assert!(wrong_password.is_none());
    assert!(unknown_user.is_none());
}

#[test]
fn duplicate_username_is_a_storage_error() {
    let mut store = store_with_schema();
    let user = User {
        id: 0,
        username: "carol".to_string(),
        password_hash: String::new(),
    };
    store.add_user(&user, "sesame42!").unwrap();
    let second = store.add_user(&user, "other42!");
    assert!(matches!(second, Err(MyError::SqliteError(_))));
}

#[test]
fn username_uniqueness_flips_on_signup() {
    let mut store = store_with_schema();
    assert!(store.is_username_unique("dave").unwrap());
    let user = User {
        id: 0,
        username: "dave".to_string(),
        password_hash: String::new(),
    };
    store.add_user(&user, "sesame42!").unwrap();
    assert!(!store.is_username_unique("dave").unwrap());
    assert!(store.is_username_unique("erin").unwrap());
}

#[test]
fn login_flow_sets_and_clears_session_state() {
    let mut store = store_with_schema();
    let mut app = MyApp::new(&store);
    app.new_username = "frank".to_string();
    app.new_password = "sesame42!".to_string();
    app.process_signup(&mut store);
    assert_eq!(app.warning_message, Some("User successfully registered!".to_string()));

    app.process_login(&store, "frank", "badpass1!");
    assert!(!app.is_logged_in);
    assert_eq!(app.warning_message, Some("Invalid username or password".to_string()));

    app.process_login(&store, "frank", "sesame42!");
    assert!(app.is_logged_in);
    assert!(app.warning_message.is_none());
    assert_eq!(app.current_user.as_ref().unwrap().username, "frank");

    app.logout();
    assert!(!app.is_logged_in);
    assert!(app.current_user.is_none());
    assert!(app.showing_signup);
}

#[test]
fn signup_rejects_empty_and_duplicate_names() {
    let mut store = store_with_schema();
    let mut app = MyApp::new(&store);

    app.process_signup(&mut store);
    assert_eq!(
        app.warning_message,
        Some("Username and password cannot be empty".to_string())
    );

    app.new_username = "grace".to_string();
    app.new_password = "sesame42!".to_string();
    app.process_signup(&mut store);
    assert_eq!(app.warning_message, Some("User successfully registered!".to_string()));

    app.process_signup(&mut store);
    assert_eq!(app.warning_message, Some("Username already exists".to_string()));
}

#[test]
fn password_policy_cases() {
    assert!(is_password_valid("abc1!"));
    assert!(is_password_valid("newpass123!"));
    assert!(!is_password_valid("newpass"));
    assert!(!is_password_valid("abcde!"));
    assert!(!is_password_valid("abc12"));
    assert!(!is_password_valid("a1!"));
}

#[test]
fn amounts_parse_to_cents() {
    assert_eq!(parse_amount("12"), Some(1200));
    assert_eq!(parse_amount("3.50"), Some(350));
    assert_eq!(parse_amount("12.5"), Some(1250));
    assert_eq!(parse_amount("0.99"), Some(99));
    assert_eq!(parse_amount("100.0"), Some(10000));
    assert_eq!(parse_amount(""), None);
    assert_eq!(parse_amount("abc"), None);
    assert_eq!(parse_amount(".5"), None);
    assert_eq!(parse_amount("1."), None);
    assert_eq!(parse_amount("1.234"), None);
    assert_eq!(parse_amount("12,50"), None);
    assert_eq!(parse_amount("99999999999999999999999999"), None);
}

#[test]
fn date_grammar_cases() {
    assert!(check_date("2023-01-05"));
    assert!(check_date("2024-02-29"));
    assert!(check_date("2000-02-29"));
    assert!(!check_date("1900-02-29"));
    assert!(!check_date("2023-02-29"));
    assert!(!check_date("2023-13-01"));
    assert!(!check_date("2023-00-10"));
    assert!(!check_date("2023-01-32"));
    assert!(!check_date("2023-01-00"));
    assert!(!check_date("2023-1-01"));
    assert!(!check_date("20230105"));
    assert!(!check_date(""));
}
