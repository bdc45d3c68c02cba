use micro_url::tasks::{partition_expired, ExpiryRow};

fn row(key: &str, expiry: Option<i64>) -> ExpiryRow {
    ExpiryRow { key: key.to_string(), expiry }
}

#[test]
fn cleanup_deletes_the_three_expired_links() {
    let now = 1_700_000_000;
    let rows = vec![
        row("past1", Some(now - 10)),
        row("future1", Some(now + 10)),
        row("past2", Some(now - 86400)),
        row("future2", Some(now + 3600)),
        row("past3", Some(0)),
    ];
    let (deleted, kept) = partition_expired(&rows, now);
    assert_eq!(deleted, vec!["past1", "past2", "past3"]);
    assert_eq!(kept, vec!["future1", "future2"]);
}

#[test]
fn rows_without_expiry_stay() {
    let rows = vec![row("forever", None), row("now", Some(5))];
    let (deleted, kept) = partition_expired(&rows, 5);
    assert!(deleted.is_empty());
    assert_eq!(kept, vec!["forever", "now"]);
}

#[test]
fn nothing_to_clean() {
    let (deleted, kept) = partition_expired(&Vec::new(), 0);
    assert!(deleted.is_empty() && kept.is_empty());
}
