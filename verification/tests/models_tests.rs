use expense_core::model::Expense;

#[test]
fn test_expense_creation() {
    let expense = Expense {
        id: 0,
        date: "2023-11-07".to_string(),
        amount_cents: 5000,
        category: "Groceries".to_string(),
        description: "Weekly groceries".to_string(),
        payment_method: "Credit Card".to_string(),
    };

    assert_eq!(expense.category, "Groceries");
    assert_eq!(expense.amount_cents, 5000);
}

#[test]
fn test_expense_total() {
    let expense1 = Expense {
        id: 0,
        date: "".to_string(),
        amount_cents: 5000,
        category: "Groceries".to_string(),
        description: "".to_string(),
        payment_method: "".to_string(),
    };
    let expense2 = Expense {
        id: 0,
        date: "".to_string(),
        amount_cents: 2000,
        category: "Transportation".to_string(),
        description: "".to_string(),
        payment_method: "".to_string(),
    };
    let expense3 = Expense {
        id: 0,
        date: "".to_string(),
        amount_cents: 3000,
        category: "Entertainment".to_string(),
        description: "".to_string(),
        payment_method: "".to_string(),
    };

    let total = expense1.amount_cents + expense2.amount_cents + expense3.amount_cents;

    assert_eq!(total, 10000);
}
