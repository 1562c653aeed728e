use nymx_mail::activity::{Activity, TaskMessage};

#[test]
fn activity_log_and_flags() {
    let mut a = Activity::new();
    assert_eq!(a.log, "NymX Mail ready.\n");
    assert!(!a.is_sending && !a.is_fetching);
    a.begin_send();
    assert!(a.is_sending);
    a.begin_fetch();
    assert!(a.is_fetching);
    a.apply(TaskMessage::Log("hello".to_string()));
    a.apply(TaskMessage::SendDone);
    assert!(!a.is_sending && a.is_fetching);
    a.apply(TaskMessage::FetchDone);
    assert!(!a.is_fetching);
    assert_eq!(
        a.log,
        "NymX Mail ready.\n\n[INFO] Starting send process...\n\n[INFO] Starting fetch process...\nhello\n[INFO] Send task finished.\n[INFO] Fetch task finished.\n"
    );
    a.clear_log();
    assert_eq!(a.log, "NymX Mail ready.\n[INFO] All fields cleared.\n");
}
