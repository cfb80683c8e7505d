use matrix_firefly_bot::dispatch::add_outcome;
use matrix_firefly_bot::dispatch::categories_outcome;
use matrix_firefly_bot::dispatch::route;
use matrix_firefly_bot::dispatch::route_with_date;
use matrix_firefly_bot::dispatch::Action;
use matrix_firefly_bot::ledger::bearer_header;
use matrix_firefly_bot::ledger::categories_url;
use matrix_firefly_bot::ledger::category_names;
use matrix_firefly_bot::ledger::create_succeeded;
use matrix_firefly_bot::ledger::transactions_url;
use matrix_firefly_bot::ledger::Category;
use matrix_firefly_bot::ledger::Transaction;

const SOME_TIMESTAMP: i64 = 1_700_000_000_000;

#[test]
fn withdrawal_round_trip() {
    let t = Transaction::withdrawal(
        "Food".to_string(),
        "12.5".to_string(),
        "2024-01-01T12:00:00+01:00".to_string(),
        3,
        "General expense".to_string(),
        "alice".to_string(),
        Some("lunch".to_string()),
        vec!["work".to_string()],
    );
    assert_eq!(t.tags, vec!["work".to_string(), "alice".to_string()]);
    assert_eq!(t.description, "Food by alice");
    assert_eq!(t.category_name, "Food");
    assert_eq!(t.transaction_type, "withdrawal");
    assert_eq!(t.amount.parse::<f64>().unwrap(), 12.5);
    assert_eq!(t.notes.as_deref(), Some("lunch"));
    assert_eq!(t.source_id, 3);
    assert_eq!(t.destination_name, "General expense");
    assert_eq!(t.date, "2024-01-01T12:00:00+01:00");
}

#[test]
fn sender_is_appended_even_when_already_tagged() {
    let t = Transaction::withdrawal(
        "Food".to_string(),
        "1".to_string(),
        "2024-01-01T12:00:00+01:00".to_string(),
        1,
        "General expense".to_string(),
        "alice".to_string(),
        None,
        vec!["alice".to_string()],
    );
    assert_eq!(t.tags, vec!["alice".to_string(), "alice".to_string()]);
}

#[test]
fn non_text_events_are_ignored() {
    assert!(matches!(
        route(false, "!ping", "alice", SOME_TIMESTAMP, 1),
        Action::Ignore
    ));
}

#[test]
fn plain_chatter_is_ignored() {
    assert!(matches!(
        route(true, "hello there", "alice", SOME_TIMESTAMP, 1),
        Action::Ignore
    ));
    assert!(matches!(route(true, "", "alice", SOME_TIMESTAMP, 1), Action::Ignore));
}

#[test]
fn ping_replies_pong() {
    match route(true, "!ping", "alice", SOME_TIMESTAMP, 1) {
        Action::Reply(m) => assert_eq!(m, "pong"),
        _ => panic!("expected a reply"),
    }
}

#[test]
fn help_replies_usage() {
    match route(true, "!help", "alice", SOME_TIMESTAMP, 1) {
        Action::Reply(m) => assert_eq!(
            m,
            "Available commands:\n - !add <Category>: <Amount> [Note] [#Tag...]\n - !categories\n - !help\n - !ping"
        ),
        _ => panic!("expected a reply"),
    }
}

#[test]
fn categories_command_calls_the_backend() {
    assert!(matches!(
        route(true, "!categories", "alice", SOME_TIMESTAMP, 1),
        Action::ListCategories
    ));
}

#[test]
fn parse_errors_are_replied_verbatim() {
    match route(true, "!nope", "alice", SOME_TIMESTAMP, 1) {
        Action::Reply(m) => assert_eq!(m, "Unknown command: !nope"),
        _ => panic!("expected a reply"),
    }
}

#[test]
fn add_without_separator_replies_usage() {
    match route(true, "!add no separator", "alice", SOME_TIMESTAMP, 1) {
        Action::Reply(m) => assert_eq!(
            m,
            "Invalid arguments. Usage: !add <Category>: <Amount> [Note] [#Tag...]"
        ),
        _ => panic!("expected a reply"),
    }
}

#[test]
fn add_synthesizes_a_withdrawal() {
    match route(true, "!add Test: 1.23 lunch #work", "alice", SOME_TIMESTAMP, 42) {
        Action::CreateWithdrawal(payload) => {
            assert_eq!(payload.transactions.len(), 1);
            let t = &payload.transactions[0];
            assert_eq!(t.transaction_type, "withdrawal");
            assert_eq!(t.category_name, "Test");
            assert_eq!(t.amount, "1.23");
            assert_eq!(t.description, "Test by alice");
            assert_eq!(t.source_id, 42);
            assert_eq!(t.destination_name, "General expense");
            assert_eq!(t.notes.as_deref(), Some("lunch"));
            assert_eq!(t.tags, vec!["work".to_string(), "alice".to_string()]);
            assert!(!t.date.is_empty());
        }
        _ => panic!("expected a withdrawal"),
    }
}

#[test]
fn add_with_given_date_uses_it() {
    let date = "2024-05-05T09:30:00+02:00".to_string();
    match route_with_date(true, "!add Test: 1.23", "alice", Some(date), 7) {
        Action::CreateWithdrawal(payload) => {
            assert_eq!(payload.transactions[0].date, "2024-05-05T09:30:00+02:00");
        }
        _ => panic!("expected a withdrawal"),
    }
}

#[test]
fn add_without_a_representable_date_is_ignored() {
    assert!(matches!(
        route_with_date(true, "!add Test: 1.23", "alice", None, 7),
        Action::Ignore
    ));
}

#[test]
fn rejected_create_shows_only_the_failure_reaction() {
    let created = create_succeeded(422);
    assert!(!created);
    assert_eq!(add_outcome(created), "\u{274c}");
}

#[test]
fn successful_create_shows_the_success_reaction() {
    let created = create_succeeded(200);
    assert!(created);
    assert_eq!(add_outcome(created), "\u{2705}");
}

#[test]
fn only_status_200_is_success() {
    assert!(!create_succeeded(201));
    assert!(!create_succeeded(404));
    assert!(!create_succeeded(500));
}

#[test]
fn empty_categories_reply_is_header_only() {
    assert_eq!(categories_outcome(Some(vec![])), "Categories:");
}

#[test]
fn categories_reply_lists_names_in_order() {
    let names = vec!["Food".to_string(), "Rent".to_string(), "Travel".to_string()];
    assert_eq!(
        categories_outcome(Some(names)),
        "Categories:\n - Food\n - Rent\n - Travel"
    );
}

#[test]
fn categories_failure_reply_is_generic() {
    assert_eq!(categories_outcome(None), "Failed to list categories");
}

#[test]
fn category_names_keep_response_order() {
    let data = vec![
        Category {
            id: "7".to_string(),
            name: "Food".to_string(),
        },
        Category {
            id: "2".to_string(),
            name: "Rent".to_string(),
        },
    ];
    assert_eq!(
        category_names(data),
        vec!["Food".to_string(), "Rent".to_string()]
    );
}

#[test]
fn endpoint_urls_and_auth_header() {
    assert_eq!(
        transactions_url("http://ledger.local"),
        "http://ledger.local/api/v1/transactions"
    );
    assert_eq!(
        categories_url("http://ledger.local"),
        "http://ledger.local/api/v1/categories"
    );
    assert_eq!(bearer_header("test-api-key"), "Bearer test-api-key");
}
