use expense_core::session::MyApp;
use expense_core::store::ExpenseStore;

fn setup_test_store() -> ExpenseStore {
    let mut store = ExpenseStore::open_in_memory().expect("in-memory store");
    store.create_expense_table().expect("schema");
    store
}

#[test]
fn test_add_expense_to_db() {
    let mut store = setup_test_store();
    let mut app = MyApp::new(&store);

    app.expense_name = "Coffee".to_string();
    app.expense_amount = "3.50".to_string();
    app.expense_date = "2023-03-01".to_string();
    app.category = "Food".to_string();
    app.payment_method = "Cash".to_string();

    app.add_expense_to_db(&mut store);

    assert!(!app.expenses.is_empty());
}

#[test]
fn test_add_expense() {
    let mut store = setup_test_store();
    let mut app = MyApp::new(&store);
    app.expense_name = "Coffee".to_string();
    app.expense_amount = "3.50".to_string();
    app.expense_date = "2023-11-07".to_string();
    app.category = "Beverage".to_string();
    app.payment_method = "Cash".to_string();

    app.add_expense_to_db(&mut store);

    assert_eq!(app.expenses.len(), 1);
    assert_eq!(app.expenses[0].description, "Coffee");
    assert_eq!(app.expenses[0].amount_cents, 350);
    assert!(app.expense_name.is_empty());
    assert!(app.expense_amount.is_empty());
    assert!(app.category.is_empty());

    let id = app.expenses[0].id;
    app.delete_expense_from_db(&mut store, id);
    assert!(app.expenses.is_empty());
}
