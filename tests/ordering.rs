use node_migrations::step::{sort_steps, NextStep};
use node_migrations::version::Version;
use std::cmp::Ordering;

fn sql(index: usize, version: i64) -> NextStep {
    NextStep::Sql { index, version: Version(version) }
}

fn code(index: usize, version: i64) -> NextStep {
    NextStep::Code { index, version: Version(version) }
}

#[test]
fn ordering_of_migrations() {
    // two SQL scripts (versions 1 and 2) and three code steps (versions 1, 2 and 3)
    let sql_1 = sql(0, 1);
    let sql_2 = sql(1, 2);
    let rust_1 = code(0, 1);
    let rust_2 = code(1, 2);
    let rust_3 = code(2, 3);

    let migrations = sort_steps(vec![sql_2, sql_1, rust_1, rust_3, rust_2]);

    for m in &migrations {
        match m {
            NextStep::Sql { .. } => {
                assert!(m.is_sql());
            }
            NextStep::Code { .. } => {
                assert!(!m.is_sql());
            }
        }
    }

    assert_eq!(migrations, vec![sql_1, rust_1, sql_2, rust_2, rust_3]);
}

#[test]
fn compare_orders_by_version_then_sql_first() {
    assert_eq!(sql(0, 5).compare(&code(0, 5)), Ordering::Less);
    assert_eq!(code(0, 5).compare(&sql(0, 5)), Ordering::Greater);
    assert_eq!(code(0, 4).compare(&sql(0, 5)), Ordering::Less);
    assert_eq!(sql(3, 7).compare(&sql(1, 7)), Ordering::Equal);
    assert!(sql(0, 5).goes_before(&code(1, 5)));
    assert!(!code(1, 5).goes_before(&sql(0, 5)));
}

#[test]
fn sort_keeps_equal_entries_in_their_order() {
    let a = sql(0, 3);
    let b = sql(1, 3);
    let sorted = sort_steps(vec![code(0, 1), a, b, sql(2, 1)]);
    assert_eq!(sorted, vec![sql(2, 1), code(0, 1), a, b]);
}

#[test]
fn sort_of_nothing_is_nothing() {
    assert_eq!(sort_steps(vec![]), Vec::<NextStep>::new());
}
