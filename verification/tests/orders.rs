use polyester_examples::orders::{
    cancel_outcome, cancels_by_order_id, check_no_open_orders_with_prefix, classify_status,
    client_order_id_with_stamp, find_client_order_id, lower_status, not_visible_message,
    still_open_message, unique_client_order_id, StatusClass, open_order_lookup_step,
    terminal_status, LookupStep, open_wait_step, OpenWaitAction, OpenWaitEvent, client_order_id_for_reading,
    no_open_after_poll,
};

#[test]
fn client_order_ids() {
    assert_eq!(client_order_id_with_stamp("bot", 123), "bot-123");
    assert_eq!(client_order_id_with_stamp("", 5), "example-5");
    let id = unique_client_order_id("rsi");
    let rest = id.strip_prefix("rsi-").unwrap();
    assert!(!rest.is_empty() && rest.chars().all(|c| c.is_ascii_digit()));
    assert!(unique_client_order_id("").starts_with("example-"));
}

#[test]
fn status_classes() {
    assert_eq!(classify_status("WORKING"), StatusClass::Open);
    assert_eq!(classify_status(""), StatusClass::Open);
    assert_eq!(classify_status("Pending_Cancel"), StatusClass::Open);
    assert_eq!(classify_status("Filled"), StatusClass::Terminal);
    assert_eq!(classify_status("canceled"), StatusClass::Terminal);
    assert_eq!(classify_status("expired"), StatusClass::Other);
    assert_eq!(lower_status("REJECTED"), "rejected");
}

#[test]
fn wait_messages() {
    assert_eq!(
        not_visible_message("c-1", "15", ""),
        "order c-1 was not visible as open within 15s"
    );
    assert_eq!(
        not_visible_message("c-1", "15", "expired"),
        "order c-1 was not visible as open within 15s (last status=expired)"
    );
    assert_eq!(still_open_message("c-2", "5"), "order c-2 still open after 5s");
}

#[test]
fn open_order_lookup_and_cancel_route() {
    let ids = vec!["a".to_string(), "c-1".to_string()];
    assert_eq!(find_client_order_id(&ids, "c-1"), Some(1));
    assert_eq!(find_client_order_id(&ids, "c-"), None);
    let twice = vec!["x".to_string(), "x".to_string()];
    assert_eq!(find_client_order_id(&twice, "x"), Some(0));
    assert!(cancels_by_order_id("12345"));
    assert!(!cancels_by_order_id("0"));
    assert!(!cancels_by_order_id(""));
}

#[test]
fn prefix_check_names_blocking_orders() {
    let ids = vec!["bot-1".to_string(), "manual".to_string(), "bot-2".to_string()];
    assert_eq!(
        check_no_open_orders_with_prefix(&ids, "bot-"),
        Err("refusing to place a new order; open bot orders exist: bot-1, bot-2".to_string())
    );
    assert_eq!(check_no_open_orders_with_prefix(&ids, "other-"), Ok(()));
    assert_eq!(check_no_open_orders_with_prefix(&[], "bot-"), Ok(()));
}

#[test]
fn cancel_outcomes() {
    assert_eq!(cancel_outcome(true), "canceled_after_timeout");
    assert_eq!(cancel_outcome(false), "canceled_after_timeout_unconfirmed");
}

#[test]
fn lookup_steps_of_the_open_order_wait() {
    assert_eq!(open_order_lookup_step("", Some("Working")), LookupStep::ReturnOrder);
    assert_eq!(open_order_lookup_step("x", Some("FILLED")), LookupStep::ReturnOrder);
    assert_eq!(
        open_order_lookup_step("", Some("Expired")),
        LookupStep::KeepWaiting { last_status: "expired".to_string() }
    );
    assert_eq!(
        open_order_lookup_step("expired", None),
        LookupStep::KeepWaiting { last_status: "expired".to_string() }
    );
    assert_eq!(terminal_status("Canceled").as_deref(), Some("canceled"));
    assert_eq!(terminal_status("working"), None);
}

#[test]
fn open_wait_rounds_look_up_then_list_then_sleep() {
    let fetched = |s: Option<&str>| OpenWaitEvent::Fetched { status: s.map(|x| x.to_string()) };
    assert_eq!(
        open_wait_step("", "bot-1", &fetched(Some("PENDING"))),
        (OpenWaitAction::ReturnFetched, String::new())
    );
    assert_eq!(
        open_wait_step("", "bot-1", &fetched(Some("Expired"))),
        (OpenWaitAction::ListOpen, "expired".to_string())
    );
    assert_eq!(
        open_wait_step("expired", "bot-1", &fetched(None)),
        (OpenWaitAction::ListOpen, "expired".to_string())
    );
    let ids = vec!["a".to_string(), "bot-1".to_string(), "bot-1".to_string()];
    assert_eq!(
        open_wait_step("x", "bot-1", &OpenWaitEvent::Listed { ids: Some(ids) }),
        (OpenWaitAction::ReturnListed { index: 1 }, "x".to_string())
    );
    assert_eq!(
        open_wait_step("x", "bot-2", &OpenWaitEvent::Listed { ids: Some(vec!["a".to_string()]) }),
        (OpenWaitAction::Sleep, "x".to_string())
    );
    assert_eq!(
        open_wait_step("x", "bot-1", &OpenWaitEvent::Listed { ids: None }),
        (OpenWaitAction::Sleep, "x".to_string())
    );
}

#[test]
fn client_order_ids_for_clock_readings() {
    assert_eq!(client_order_id_for_reading("xfer", Some(1500)), "xfer-1500");
    assert_eq!(client_order_id_for_reading("", Some(1500)), "example-1500");
    assert_eq!(client_order_id_for_reading("xfer", None), "xfer-0");
    let id = client_order_id_for_reading("bot", Some(42));
    assert!(check_no_open_orders_with_prefix(&[id], "bot").is_err());
}

#[test]
fn close_wait_polls() {
    let ids = vec!["a".to_string(), "bot-1".to_string()];
    assert!(!no_open_after_poll(Some(&ids), "bot-1"));
    assert!(no_open_after_poll(Some(&ids), "bot-2"));
    assert!(no_open_after_poll(None, "bot-1"));
}
