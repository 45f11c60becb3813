use snwf::progress::{ProgressReporter, Progressing};
use snwf::recipient::{CoreRecipient, Recipient};
use snwf::sender::{CoreSender, Sender, DEFAULT_TIMEOUT_MS};
use snwf::session::timeout_result;

#[test]
fn test_progress_fn_set() {
    let mut recipient = Sender::new("127.0.0.1".to_string(), 5344, 4236);
    let mut test_value: u64 = 43;

    recipient.set_progress_fn(Some(ProgressReporter::new()));
    recipient.run_progress_fn(Progressing::Done);

    test_value += recipient.progress_event_count() as u64;
    assert_eq!(test_value, 44);
    match &recipient.progress_fn {
        Some(r) => assert!(matches!(r.events[0], Progressing::Done)),
        None => panic!("progress sink must still be installed"),
    }
}

#[test]
fn recipient_test_progress_fn_set() {
    let mut recipient = Recipient::new("::1".to_string(), 5344, 4236);
    let mut test_value: u64 = 43;

    recipient.set_progress_fn(Some(ProgressReporter::new()));
    recipient.run_progress_fn(Progressing::Done);

    test_value += recipient.progress_event_count() as u64;
    assert_eq!(test_value, 44);
}

#[test]
fn progress_without_sink_is_skipped() {
    let mut sender = Sender::new("127.0.0.1".to_string(), 43, 44);
    sender.run_progress_fn(Progressing::Done);
    assert_eq!(sender.progress_event_count(), 0);
    assert!(sender.progress_fn.is_none());
}

#[test]
fn sender_config_holds_what_new_was_given() {
    let sender = Sender::new("127.0.0.1".to_string(), 5344, 4236);
    let config = sender.get_config();
    assert_eq!(config.addr, "127.0.0.1");
    assert_eq!(config.port_for_send_files, 5344);
    assert_eq!(config.port_for_handshake, 4236);
    assert_eq!(config.timeout_ms, DEFAULT_TIMEOUT_MS);
}

#[test]
fn recipient_config_holds_what_new_was_given() {
    let recipient = Recipient::new("::0".to_string(), 4324, 6343);
    let config = recipient.get_config();
    assert_eq!(config.addr, "::0");
    assert_eq!(config.port_for_send_files, 4324);
    assert_eq!(config.port_for_handshake, 6343);
    assert_eq!(config.timeout_ms, DEFAULT_TIMEOUT_MS);
}

#[test]
fn timeout_expiry_is_the_distinguished_error() {
    let expired: Result<u32, _> = timeout_result(None);
    match expired {
        Err(e) => assert!(matches!(e.kind, snwf::error::ErrorKind::TimeoutExpired)),
        Ok(_) => panic!("an expired timer must be an error"),
    }
    let completed = timeout_result(Some(7u32));
    assert_eq!(completed.unwrap(), 7);
}
