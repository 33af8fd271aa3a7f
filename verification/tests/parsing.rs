use mail_relay::email::{Email, ParseError, ParseOutcome};
use mail_relay::form::{FileMeta, FormEntry, FormMap};

fn field(form: &mut FormMap, name: &str, value: &str) {
    form.push_field(name.to_string(), value.to_string());
}

fn file(form: &mut FormMap, name: &str, filename: &str, mime: &str, size: u64) {
    form.push_file(
        name.to_string(),
        FileMeta { name: filename.to_string(), content_type: mime.to_string(), size },
    );
}

fn base_form() -> FormMap {
    let mut form = FormMap::new();
    field(&mut form, "from", "alice@example.com");
    field(&mut form, "to", "bob@x.com, carol@y.org");
    field(&mut form, "subject", "Greetings");
    field(&mut form, "text", "Hello there");
    form
}

#[test]
fn parses_complete_form() {
    let form = base_form();
    match Email::from_form_data(&form) {
        ParseOutcome::Parsed(e) => {
            assert_eq!(e.from, "alice@example.com");
            assert_eq!(e.to_raw, "bob@x.com, carol@y.org");
            assert_eq!(e.to, vec!["bob@x.com".to_string(), "carol@y.org".to_string()]);
            assert_eq!(e.subject, "Greetings");
            assert_eq!(e.text, "Hello there");
            assert!(e.attachments.is_empty());
        },
        _ => panic!("expected a parsed email"),
    }
}

#[test]
fn missing_from_fails() {
    let mut form = FormMap::new();
    field(&mut form, "to", "bob@x.com");
    field(&mut form, "subject", "s");
    match Email::from_form_data(&form) {
        ParseOutcome::Failed(ParseError::MissingField(f)) => assert_eq!(f, "from"),
        _ => panic!("expected a missing-field failure"),
    }
}

#[test]
fn missing_to_fails() {
    let mut form = FormMap::new();
    field(&mut form, "from", "a@b.co");
    field(&mut form, "subject", "s");
    match Email::from_form_data(&form) {
        ParseOutcome::Failed(ParseError::MissingField(f)) => assert_eq!(f, "to"),
        _ => panic!("expected a missing-field failure"),
    }
}

#[test]
fn missing_subject_fails() {
    let mut form = FormMap::new();
    field(&mut form, "from", "a@b.co");
    field(&mut form, "to", "c@d.org");
    match Email::from_form_data(&form) {
        ParseOutcome::Failed(ParseError::MissingField(f)) => assert_eq!(f, "subject"),
        _ => panic!("expected a missing-field failure"),
    }
}

#[test]
fn required_field_as_file_fails() {
    let mut form = FormMap::new();
    file(&mut form, "from", "from.txt", "text/plain", 3);
    field(&mut form, "to", "c@d.org");
    field(&mut form, "subject", "s");
    match Email::from_form_data(&form) {
        ParseOutcome::Failed(ParseError::MissingField(f)) => assert_eq!(f, "from"),
        _ => panic!("expected a missing-field failure"),
    }
}

#[test]
fn spam_marker_suppresses() {
    let mut form = FormMap::new();
    field(&mut form, "from", "a@b.co");
    field(&mut form, "to", "c@d.org");
    field(&mut form, "subject", "[SPAM]You won");
    assert!(matches!(Email::from_form_data(&form), ParseOutcome::Suppressed));
}

#[test]
fn spam_marker_not_at_start_is_kept() {
    let mut form = FormMap::new();
    field(&mut form, "from", "a@b.co");
    field(&mut form, "to", "c@d.org");
    field(&mut form, "subject", "Re: [SPAM]You won");
    assert!(matches!(Email::from_form_data(&form), ParseOutcome::Parsed(_)));
}

#[test]
fn absent_text_gets_placeholder() {
    let mut form = FormMap::new();
    field(&mut form, "from", "a@b.co");
    field(&mut form, "to", "c@d.org");
    field(&mut form, "subject", "s");
    match Email::from_form_data(&form) {
        ParseOutcome::Parsed(e) => assert_eq!(e.text, "本文を取得できませんでした"),
        _ => panic!("expected a parsed email"),
    }
}

#[test]
fn long_text_truncated_to_limit() {
    let mut form = FormMap::new();
    field(&mut form, "from", "a@b.co");
    field(&mut form, "to", "c@d.org");
    field(&mut form, "subject", "s");
    let body: String = "あ".repeat(1001);
    field(&mut form, "text", &body);
    match Email::from_form_data(&form) {
        ParseOutcome::Parsed(e) => {
            let expected: String = "あ".repeat(1000) + "...";
            assert_eq!(e.text, expected);
            assert_eq!(e.text.chars().count(), 1003);
        },
        _ => panic!("expected a parsed email"),
    }
}

#[test]
fn text_at_limit_unchanged() {
    let mut form = FormMap::new();
    field(&mut form, "from", "a@b.co");
    field(&mut form, "to", "c@d.org");
    field(&mut form, "subject", "s");
    let body: String = "x".repeat(1000);
    field(&mut form, "text", &body);
    match Email::from_form_data(&form) {
        ParseOutcome::Parsed(e) => assert_eq!(e.text, body),
        _ => panic!("expected a parsed email"),
    }
}

#[test]
fn attachments_resolved_in_manifest_order() {
    let mut form = base_form();
    field(&mut form, "attachment-info", "{\"att2\":{\"filename\":\"b\"},\"att1\":{}}");
    file(&mut form, "att2", "b.png", "image/png", 10);
    file(&mut form, "att1", "a.txt", "text/plain", 5);
    match Email::from_form_data(&form) {
        ParseOutcome::Parsed(e) => {
            assert_eq!(e.attachments.len(), 2);
            assert_eq!(e.attachments[0].name, "b.png");
            assert_eq!(e.attachments[0].content_type, "image/png");
            assert_eq!(e.attachments[0].size, 10);
            assert_eq!(e.attachments[1].name, "a.txt");
        },
        _ => panic!("expected a parsed email"),
    }
}

#[test]
fn manifest_key_without_field_fails() {
    let mut form = base_form();
    field(&mut form, "attachment-info", "{\"att1\":{}}");
    match Email::from_form_data(&form) {
        ParseOutcome::Failed(ParseError::MissingField(f)) => assert_eq!(f, "att1"),
        _ => panic!("expected a missing-field failure"),
    }
}

#[test]
fn manifest_key_naming_text_field_fails() {
    let mut form = base_form();
    field(&mut form, "attachment-info", "{\"note\":{}}");
    field(&mut form, "note", "not a file");
    match Email::from_form_data(&form) {
        ParseOutcome::Failed(ParseError::MissingField(f)) => assert_eq!(f, "note"),
        _ => panic!("expected a missing-field failure"),
    }
}

#[test]
fn malformed_manifest_fails() {
    let mut form = base_form();
    field(&mut form, "attachment-info", "{not json");
    assert!(matches!(
        Email::from_form_data(&form),
        ParseOutcome::Failed(ParseError::MalformedAttachmentInfo)
    ));
}

#[test]
fn non_object_manifest_means_no_attachments() {
    let mut form = base_form();
    field(&mut form, "attachment-info", "[1,2,3]");
    match Email::from_form_data(&form) {
        ParseOutcome::Parsed(e) => assert!(e.attachments.is_empty()),
        _ => panic!("expected a parsed email"),
    }
}
