use ws_broadcast::push::{classify, payload, DeliveryOutcome, Reply, GONE};

#[test]
fn success_statuses_deliver() {
    assert_eq!(classify(Reply::Status(200)), DeliveryOutcome::Delivered);
    assert_eq!(classify(Reply::Status(204)), DeliveryOutcome::Delivered);
    assert_eq!(classify(Reply::Status(299)), DeliveryOutcome::Delivered);
}

#[test]
fn gone_status_means_gone() {
    assert_eq!(GONE, 410);
    assert_eq!(classify(Reply::Status(410)), DeliveryOutcome::Gone);
}

#[test]
fn other_statuses_are_transient() {
    for status in [0u16, 100, 199, 300, 400, 403, 404, 409, 411, 413, 429, 500, 503] {
        assert_eq!(
            classify(Reply::Status(status)),
            DeliveryOutcome::TransientFailure(Reply::Status(status))
        );
    }
}

#[test]
fn timeout_is_transient_never_gone() {
    assert_eq!(classify(Reply::TimedOut), DeliveryOutcome::TransientFailure(Reply::TimedOut));
}

#[test]
fn failed_call_is_transient_with_its_detail() {
    assert_eq!(
        classify(Reply::Failed("connection reset".into())),
        DeliveryOutcome::TransientFailure(Reply::Failed("connection reset".into()))
    );
}

#[test]
fn payload_is_a_json_object_with_the_message() {
    assert_eq!(payload("howdy"), b"{\"message\":\"howdy\"}".to_vec());
}

#[test]
fn payload_escapes_what_json_must_escape() {
    assert_eq!(payload("say \"hi\"\n"), b"{\"message\":\"say \\\"hi\\\"\\n\"}".to_vec());
    assert_eq!(payload(""), b"{\"message\":\"\"}".to_vec());
}

#[test]
fn payload_keeps_text_beyond_ascii() {
    assert_eq!(payload("🏓 pong"), "{\"message\":\"🏓 pong\"}".as_bytes().to_vec());
}

#[test]
fn payload_reads_back_as_the_message() {
    let bytes = payload("tab\there \\ and / and \u{1}");
    let value: serde_json::Value = serde_json::from_slice(&bytes).unwrap();
    assert_eq!(value.get("message").and_then(|m| m.as_str()), Some("tab\there \\ and / and \u{1}"));
    assert_eq!(value.as_object().map(|o| o.len()), Some(1));
}
