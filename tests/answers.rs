use chunkvault::answer::{locator_fields, read_answer};
use chunkvault::retry::AttemptOutcome;

#[test]
fn answer_fields_from_upload_body() {
    let body = r#"{"id": "1234", "attachments": [{"url": "https://cdn/a.bin", "size": 3}, {"url": "x"}]}"#;
    let (m, u) = locator_fields(body);
    assert_eq!(m.as_deref(), Some("1234"));
    assert_eq!(u.as_deref(), Some("https://cdn/a.bin"));
    match read_answer(200, body) {
        AttemptOutcome::Uploaded { message_id, url } => {
            assert_eq!(message_id, "1234");
            assert_eq!(url, "https://cdn/a.bin");
        }
        _ => panic!("expected an upload"),
    }
}

#[test]
fn answer_not_json_is_malformed() {
    assert_eq!(locator_fields("<html>oops</html>"), (None, None));
    assert!(matches!(read_answer(200, "<html>oops</html>"), AttemptOutcome::MalformedResponse));
}

#[test]
fn answer_missing_attachment_is_malformed() {
    let body = r#"{"id": "1", "attachments": []}"#;
    assert_eq!(locator_fields(body), (Some("1".to_string()), None));
    assert!(matches!(read_answer(200, body), AttemptOutcome::MalformedResponse));
    let body = r#"{"id": 7, "attachments": [{"url": "u"}]}"#;
    assert_eq!(locator_fields(body), (None, Some("u".to_string())));
    assert!(matches!(read_answer(200, body), AttemptOutcome::MalformedResponse));
}

#[test]
fn answer_rate_limited_whatever_the_body() {
    assert!(matches!(read_answer(429, ""), AttemptOutcome::RateLimited));
    assert!(matches!(read_answer(429, r#"{"retry_after": 1.5}"#), AttemptOutcome::RateLimited));
}
