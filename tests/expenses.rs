use expense_tracker::date::Date;
use expense_tracker::expenses_definitions::{CreateExpense, Expense, Expenses, UpdateExpense};

fn create(description: &str, amount: u32, category: Option<&str>) -> CreateExpense {
    CreateExpense {
        description: String::from(description),
        amount,
        category: category.map(String::from),
    }
}

fn day(year: i32, month: u32, day: u32) -> Date {
    Date { year, month, day }
}

#[test]
fn expenses_definitions_it_should_add_expense() {
    let expense = CreateExpense {
        amount: 20,
        category: Some(String::from("subscriptions")),
        description: String::from("Bought data plan from glo"),
    };

    let mut ex = Expenses::new();

    let message = ex.add_expense(expense);

    assert_eq!(Some("Created successfully!"), message);
}

#[test]
fn expenses_definitions_it_should_delete_expense() {
    let id = 1;

    let expense = CreateExpense {
        amount: 20,
        category: Some(String::from("subscriptions")),
        description: String::from("Bought data plan from glo"),
    };
    let mut ex = Expenses::new();

    ex.add_expense(expense);

    let message = ex.delete_expense(id);

    assert_eq!(Some("Deleted successfully"), message);
}

#[test]
fn expenses_definitions_it_should_list_expenses() {
    let mut ex = Expenses::new();
    assert_eq!(ex.len(), 0);

    let expense = CreateExpense {
        amount: 20,
        category: None,
        description: String::from("Bought data plan from glo"),
    };

    ex.add_expense(expense);

    let expenses = ex.list_expenses(None).unwrap();

    assert_eq!(expenses.len(), ex.len());
}

#[test]
fn it_should_list_expenses_by_category() {
    let mut ex = Expenses::new();
    assert_eq!(ex.len(), 0);

    let category = Some(String::from("subscriptions"));
    let expense = CreateExpense {
        amount: 20,
        category,
        description: String::from("Bought data plan from glo"),
    };

    ex.add_expense(expense);

    let expenses = ex
        .list_expenses(Some(String::from("subscriptions")))
        .unwrap();

    assert_eq!(ex.len(), expenses.len());
}

#[test]
fn expenses_definitions_it_should_update_expense() {
    let id = 1;

    let expense = CreateExpense {
        amount: 20,
        category: Some(String::from("subscriptions")),
        description: String::from("Bought data plan from glo"),
    };

    let mut ex = Expenses::new();

    ex.add_expense(expense);

    let amount = Some(50);
    let category = Some(String::from("Miscellaneous"));
    let description = Some(String::from("Updated value"));

    let update_expense = UpdateExpense {
        id,
        description,
        amount,
        category,
    };

    let message = ex.update_expense(update_expense);

    assert_eq!(Some("Updated successfully!"), message);
}

#[test]
fn it_should_sum_expenses_by_month() {
    let expense = CreateExpense {
        amount: 20,
        category: Some(String::from("subscriptions")),
        description: String::from("Bought data plan from glo"),
    };

    let mut ex = Expenses::new();

    // a record created in May
    ex.add_expense_on(expense, day(2025, 5, 14));

    let month = Some(5);

    let (result, month_name) = ex.summary(month, None).unwrap();

    assert_eq!(result as f64, 20.0);

    assert_eq!(month_name.unwrap(), "May")
}

#[test]
fn it_should_sum_expenses() {
    let expense = CreateExpense {
        amount: 20,
        category: Some(String::from("subscriptions")),
        description: String::from("Bought data plan from glo"),
    };

    let mut ex = Expenses::new();

    ex.add_expense(expense);

    let expense_2 = CreateExpense {
        amount: 100,
        category: Some(String::from("New CAT")),
        description: String::from("New Description"),
    };

    ex.add_expense(expense_2);

    let (result, _) = ex.summary(None, None).unwrap();

    assert_eq!(result as f64, 120.0);
}

#[test]
fn created_ids_rise_above_every_earlier_id() {
    let mut ex = Expenses::new();
    ex.add_expense(create("a", 1, None));
    ex.add_expense(create("b", 2, None));
    ex.add_expense(create("c", 3, None));
    let ids: Vec<u32> = ex.records().iter().map(|e| e.id).collect();
    assert_eq!(ids, vec![1, 2, 3]);
    assert_eq!(ex.delete_expense(2), Some("Deleted successfully"));
    ex.add_expense(create("d", 4, None));
    let ids: Vec<u32> = ex.records().iter().map(|e| e.id).collect();
    assert_eq!(ids, vec![1, 3, 4]);
}

#[test]
fn create_after_delete_takes_a_new_id() {
    let mut ex = Expenses::new();
    ex.add_expense(create("a", 1, None));
    assert_eq!(ex.delete_expense(1), Some("Deleted successfully"));
    assert_eq!(ex.add_expense(create("b", 1, None)), Some("Created successfully!"));
    assert_eq!(ex.len(), 1);
    assert_eq!(ex.records()[0].id, 2);
    assert_eq!(ex.next_id(), 3);
}

#[test]
fn deleting_the_largest_id_does_not_lower_the_next_id() {
    let mut ex = Expenses::new();
    ex.add_expense(create("a", 1, None));
    ex.add_expense(create("b", 1, None));
    ex.add_expense(create("c", 1, None));
    ex.delete_expense(3);
    ex.delete_expense(2);
    ex.add_expense(create("d", 1, None));
    let ids: Vec<u32> = ex.records().iter().map(|e| e.id).collect();
    assert_eq!(ids, vec![1, 4]);
}

#[test]
fn create_gives_none_when_no_id_is_left() {
    let full = Expense {
        id: u32::MAX,
        description: String::from("last"),
        amount: 5,
        category: None,
        date_created: day(2024, 1, 1),
        date_updated: None,
    };
    let mut ex = Expenses::from_records(vec![full], None).unwrap();
    assert_eq!(ex.next_id(), u64::from(u32::MAX) + 1);
    assert_eq!(ex.add_expense(create("more", 1, None)), None);
    assert_eq!(ex.len(), 1);
}

#[test]
fn create_fills_every_field() {
    let mut ex = Expenses::new();
    let today = day(2026, 3, 9);
    ex.add_expense_on(create("Data plan", 20, Some("subscriptions")), today);
    let e = &ex.records()[0];
    assert_eq!(e.id, 1);
    assert_eq!(e.description, "Data plan");
    assert_eq!(e.amount, 20);
    assert_eq!(e.category.as_deref(), Some("subscriptions"));
    assert_eq!(e.date_created, today);
    assert_eq!(e.date_updated, None);
}

#[test]
fn delete_of_missing_id_changes_nothing() {
    let mut ex = Expenses::new();
    ex.add_expense(create("a", 1, None));
    ex.add_expense(create("b", 2, None));
    assert_eq!(ex.delete_expense(7), None);
    assert_eq!(ex.len(), 2);
}

#[test]
fn delete_keeps_order_of_the_rest() {
    let mut ex = Expenses::new();
    ex.add_expense(create("a", 1, None));
    ex.add_expense(create("b", 2, None));
    ex.add_expense(create("c", 3, None));
    ex.delete_expense(2);
    let names: Vec<&str> = ex.records().iter().map(|e| e.description.as_str()).collect();
    assert_eq!(names, vec!["a", "c"]);
}

#[test]
fn update_of_missing_id_changes_nothing() {
    let mut ex = Expenses::new();
    ex.add_expense_on(create("a", 10, Some("food")), day(2025, 2, 3));
    let u = UpdateExpense {
        id: 9,
        description: Some(String::from("x")),
        amount: Some(99),
        category: Some(String::from("y")),
    };
    assert_eq!(ex.update_expense(u), None);
    let e = &ex.records()[0];
    assert_eq!(e.description, "a");
    assert_eq!(e.amount, 10);
    assert_eq!(e.category.as_deref(), Some("food"));
    assert_eq!(e.date_updated, None);
}

#[test]
fn update_of_amount_only_keeps_other_fields() {
    let mut ex = Expenses::new();
    ex.add_expense_on(create("a", 10, Some("food")), day(2025, 2, 3));
    let u = UpdateExpense {
        id: 1,
        description: None,
        amount: Some(42),
        category: None,
    };
    let when = day(2025, 6, 30);
    assert_eq!(ex.update_expense_on(u, when), Some("Updated successfully!"));
    let e = &ex.records()[0];
    assert_eq!(e.amount, 42);
    assert_eq!(e.description, "a");
    assert_eq!(e.category.as_deref(), Some("food"));
    assert_eq!(e.date_created, day(2025, 2, 3));
    assert_eq!(e.date_updated, Some(when));
}

#[test]
fn update_sets_category_on_record_without_one() {
    let mut ex = Expenses::new();
    ex.add_expense(create("a", 10, None));
    let u = UpdateExpense {
        id: 1,
        description: Some(String::from("b")),
        amount: None,
        category: Some(String::from("travel")),
    };
    ex.update_expense(u);
    let e = &ex.records()[0];
    assert_eq!(e.description, "b");
    assert_eq!(e.amount, 10);
    assert_eq!(e.category.as_deref(), Some("travel"));
    assert!(e.date_updated.is_some());
}

#[test]
fn list_by_category_ignores_case_and_records_without_category() {
    let mut ex = Expenses::new();
    ex.add_expense(create("Data plan", 20, Some("subscriptions")));
    ex.add_expense(create("Airtime", 100, Some("New CAT")));
    ex.add_expense(create("Bread", 3, None));
    let listed = ex.list_expenses(Some(String::from("SUBSCRIPTIONS"))).unwrap();
    assert_eq!(listed.len(), 1);
    assert_eq!(listed[0].id, 1);
    let listed = ex.list_expenses(Some(String::from("new cat"))).unwrap();
    assert_eq!(listed.len(), 1);
    assert_eq!(listed[0].id, 2);
    let listed = ex.list_expenses(Some(String::new())).unwrap();
    assert_eq!(listed.len(), 0);
    let all = ex.list_expenses(None).unwrap();
    let ids: Vec<u32> = all.iter().map(|e| e.id).collect();
    assert_eq!(ids, vec![1, 2, 3]);
}

#[test]
fn two_creates_then_summary_and_listing() {
    let mut ex = Expenses::new();
    ex.add_expense(create("Data plan", 20, Some("subscriptions")));
    ex.add_expense(create("Airtime", 100, Some("New CAT")));
    assert_eq!(ex.records()[0].id, 1);
    assert_eq!(ex.records()[1].id, 2);
    let (total, name) = ex.summary(None, None).unwrap();
    assert_eq!(total as f64, 120.0);
    assert_eq!(name, None);
    let listed = ex.list_expenses(Some(String::from("SUBSCRIPTIONS"))).unwrap();
    assert_eq!(listed.len(), 1);
    assert_eq!(listed[0].id, 1);
    assert_eq!(listed[0].description, "Data plan");
}

#[test]
fn summary_filters_by_month_and_year() {
    let mut ex = Expenses::new();
    ex.add_expense_on(create("a", 20, None), day(2025, 5, 1));
    ex.add_expense_on(create("b", 30, None), day(2024, 5, 2));
    ex.add_expense_on(create("c", 7, None), day(2025, 6, 3));
    assert_eq!(ex.summary(None, None).unwrap(), (57, None));
    assert_eq!(ex.summary(Some(5), None).unwrap(), (50, Some("May")));
    assert_eq!(ex.summary(None, Some(String::from("2025"))).unwrap(), (27, None));
    assert_eq!(ex.summary(Some(5), Some(String::from("2024"))).unwrap(), (30, Some("May")));
    assert_eq!(ex.summary(None, Some(String::from("+2025"))).unwrap(), (27, None));
    assert_eq!(ex.summary(None, Some(String::from("1999"))).unwrap(), (0, None));
}

#[test]
fn summary_with_unparsable_year_counts_nothing() {
    let mut ex = Expenses::new();
    ex.add_expense_on(create("a", 20, None), day(2025, 5, 1));
    assert_eq!(ex.summary(None, Some(String::from("twenty"))).unwrap(), (0, None));
    assert_eq!(ex.summary(None, Some(String::from(" 2025"))).unwrap(), (0, None));
    assert_eq!(ex.summary(None, Some(String::new())).unwrap(), (0, None));
}

#[test]
fn summary_names_month_even_when_empty_or_out_of_range() {
    let ex = Expenses::new();
    assert_eq!(ex.summary(Some(12), None).unwrap(), (0, Some("December")));
    assert_eq!(ex.summary(Some(13), None).unwrap(), (0, Some("Unknown")));
    assert_eq!(ex.summary(Some(0), None).unwrap(), (0, Some("Unknown")));
}

#[test]
fn month_names() {
    assert_eq!(Expenses::get_month_name(1), "January");
    assert_eq!(Expenses::get_month_name(9), "September");
    assert_eq!(Expenses::get_month_name(12), "December");
    assert_eq!(Expenses::get_month_name(100), "Unknown");
}

#[test]
fn from_records_refuses_duplicate_ids_and_bad_dates() {
    let rec = |id: u32, month: u32| Expense {
        id,
        description: String::from("x"),
        amount: 1,
        category: None,
        date_created: day(2025, month, 1),
        date_updated: None,
    };
    assert!(Expenses::from_records(vec![rec(1, 1), rec(2, 2)], None).is_some());
    assert!(Expenses::from_records(vec![rec(1, 1), rec(1, 2)], None).is_none());
    assert!(Expenses::from_records(vec![rec(1, 13)], None).is_none());
    assert!(Expenses::from_records(vec![rec(0, 1)], None).is_none());
    assert!(Expenses::from_records(vec![], None).is_some());
}

#[test]
fn next_id_follows_largest_loaded_id() {
    let rec = |id: u32| Expense {
        id,
        description: String::from("x"),
        amount: 1,
        category: None,
        date_created: day(2025, 1, 1),
        date_updated: None,
    };
    let mut ex = Expenses::from_records(vec![rec(4), rec(9), rec(2)], None).unwrap();
    assert_eq!(ex.next_id(), 10);
    ex.add_expense(create("y", 1, None));
    assert_eq!(ex.records()[3].id, 10);
}

#[test]
fn create_and_update_are_dated_with_a_calendar_date() {
    let mut ex = Expenses::new();
    ex.add_expense(create("a", 1, None));
    let d = ex.records()[0].date_created;
    assert!((1..=12).contains(&d.month));
    assert!((1..=31).contains(&d.day));
    assert!(d.year >= 2000);
    let u = UpdateExpense {
        id: 1,
        description: None,
        amount: None,
        category: None,
    };
    ex.update_expense(u);
    let e = &ex.records()[0];
    let up = e.date_updated.unwrap();
    assert!((1..=12).contains(&up.month));
    assert!((1..=31).contains(&up.day));
    assert_eq!(e.description, "a");
}

#[test]
fn from_records_keeps_a_given_next_id_above_every_id() {
    let rec = |id: u32| Expense {
        id,
        description: String::from("x"),
        amount: 1,
        category: None,
        date_created: day(2025, 1, 1),
        date_updated: None,
    };
    let mut ex = Expenses::from_records(vec![rec(2)], Some(7)).unwrap();
    ex.add_expense(create("y", 1, None));
    assert_eq!(ex.records()[1].id, 7);
    assert_eq!(ex.next_id(), 8);
    assert!(Expenses::from_records(vec![rec(2)], Some(2)).is_none());
    assert!(Expenses::from_records(vec![], Some(0)).is_none());
    assert!(Expenses::from_records(vec![], Some(u64::from(u32::MAX) + 2)).is_none());
    assert!(Expenses::from_records(vec![], Some(u64::from(u32::MAX) + 1)).is_some());
}

#[test]
fn dates_follow_month_lengths_and_leap_years() {
    assert!(day(2024, 2, 29).is_valid());
    assert!(!day(2023, 2, 29).is_valid());
    assert!(day(2000, 2, 29).is_valid());
    assert!(!day(1900, 2, 29).is_valid());
    assert!(!day(2025, 4, 31).is_valid());
    assert!(day(2025, 12, 31).is_valid());
    assert!(!day(2025, 0, 1).is_valid());
    assert!(!day(2025, 1, 0).is_valid());
    assert!(day(-4, 2, 29).is_valid());
    assert!(!day(-1, 2, 29).is_valid());
    let rec = Expense {
        id: 1,
        description: String::from("x"),
        amount: 1,
        category: None,
        date_created: day(2025, 2, 30),
        date_updated: None,
    };
    assert!(Expenses::from_records(vec![rec], None).is_none());
}
