use mail_relay::email::{Email, ParseOutcome};
use mail_relay::form::{FileMeta, FormMap};
use mail_relay::notification::{
    attachment_flags, attachment_summary, build_embed, ATTACHMENT_CAP, COLOR_HIGH_ALERT,
    COLOR_LOW_ALERT, COLOR_NEUTRAL,
};
use mail_relay::payload::{file_field_name, payload_json};
use mail_relay::score::parse_score;

const MIB: u64 = 1024 * 1024;

fn meta(name: &str, mime: &str, size: u64) -> FileMeta {
    FileMeta { name: name.to_string(), content_type: mime.to_string(), size }
}

fn sample_email() -> Email {
    let mut form = FormMap::new();
    form.push_field("from".to_string(), "alice@example.com".to_string());
    form.push_field("to".to_string(), "bob@x.com".to_string());
    form.push_field("subject".to_string(), "Hi".to_string());
    form.push_field("text".to_string(), "Hello".to_string());
    match Email::from_form_data(&form) {
        ParseOutcome::Parsed(e) => e,
        _ => panic!("sample form must parse"),
    }
}

#[test]
fn budget_excludes_second_and_third() {
    let atts = vec![
        meta("a.bin", "application/octet-stream", 6 * MIB),
        meta("b.bin", "application/octet-stream", 6 * MIB),
        meta("c.bin", "application/octet-stream", 1 * MIB),
    ];
    let flags = attachment_flags(&atts, 10 * MIB);
    assert_eq!(flags, vec![true, false, false]);
}

#[test]
fn summary_lists_all_and_flags_over_budget() {
    let atts = vec![
        meta("a.bin", "application/octet-stream", 6 * MIB),
        meta("b.bin", "application/octet-stream", 6 * MIB),
        meta("c.bin", "application/octet-stream", 1 * MIB),
    ];
    let summary = attachment_summary(&atts, 10 * MIB);
    let expected = "- a.bin (application/octet-stream)\n\
         - b.bin (application/octet-stream) サイズが大きすぎるのでメーラーからアクセスしてください\n\
         - c.bin (application/octet-stream) サイズが大きすぎるのでメーラーからアクセスしてください\n";
    assert_eq!(summary, expected);
}

#[test]
fn exact_budget_is_included() {
    let atts = vec![meta("a", "t", 10 * MIB)];
    let flags = attachment_flags(&atts, 10 * MIB);
    assert_eq!(flags, vec![true]);
}

#[test]
fn absent_score_is_neutral_without_score_field() {
    let email = sample_email();
    let threshold = parse_score("5.0");
    let embed = build_embed(&email, None, &threshold);
    assert_eq!(embed.color, COLOR_NEUTRAL);
    assert_eq!(embed.description, "");
    assert_eq!(embed.fields.len(), 4);
    assert_eq!(embed.title, "メールを受信しました");
    assert_eq!(embed.fields[0].name, "送信者");
    assert_eq!(embed.fields[0].value, "alice@example.com");
    assert!(embed.fields[0].inline);
    assert_eq!(embed.fields[3].name, "本文");
    assert!(!embed.fields[3].inline);
}

#[test]
fn high_score_is_high_alert() {
    let email = sample_email();
    let threshold = parse_score("5.0");
    let spam = "7.5".to_string();
    let embed = build_embed(&email, Some(&spam), &threshold);
    assert_eq!(embed.color, COLOR_HIGH_ALERT);
    assert_eq!(embed.description, "スパムメールの可能性が高いです。注意してください。");
    assert_eq!(embed.fields.len(), 5);
    assert_eq!(embed.fields[4].name, "スパムスコア");
    assert_eq!(embed.fields[4].value, "7.5");
    assert!(embed.fields[4].inline);
}

#[test]
fn low_score_is_low_alert() {
    let email = sample_email();
    let threshold = parse_score("5.0");
    let spam = "3.25".to_string();
    let embed = build_embed(&email, Some(&spam), &threshold);
    assert_eq!(embed.color, COLOR_LOW_ALERT);
    assert_eq!(embed.description, "スパムメールの可能性は低いです。");
    assert_eq!(embed.fields[4].value, "3.25");
}

#[test]
fn score_at_threshold_is_low_alert() {
    let email = sample_email();
    let threshold = parse_score("5.0");
    let spam = "5.0".to_string();
    let embed = build_embed(&email, Some(&spam), &threshold);
    assert_eq!(embed.color, COLOR_LOW_ALERT);
}

#[test]
fn unparsable_score_counts_as_zero() {
    let email = sample_email();
    let threshold = parse_score("-1");
    let spam = "not a number".to_string();
    let embed = build_embed(&email, Some(&spam), &threshold);
    // Zero exceeds a negative threshold.
    assert_eq!(embed.color, COLOR_HIGH_ALERT);
    assert_eq!(embed.fields[4].value, "0");
}

#[test]
fn score_rendering_is_normalized() {
    assert_eq!(parse_score("007.50").render(), "7.5");
    assert_eq!(parse_score("-0.0").render(), "0");
    assert_eq!(parse_score(".5").render(), "0.5");
    assert_eq!(parse_score("7.").render(), "7");
    assert_eq!(parse_score("-2.25").render(), "-2.25");
}

#[test]
fn attachment_field_appended_last() {
    let mut email = sample_email();
    email.attachments = vec![meta("a.txt", "text/plain", 5)];
    let threshold = parse_score("5.0");
    let embed = build_embed(&email, None, &threshold);
    assert_eq!(embed.fields.len(), 5);
    assert_eq!(embed.fields[4].name, "添付ファイル");
    assert_eq!(embed.fields[4].value, "- a.txt (text/plain)\n");
    assert!(!embed.fields[4].inline);
}

#[test]
fn score_field_precedes_attachment_field() {
    let mut email = sample_email();
    email.attachments = vec![meta("a.txt", "text/plain", 5)];
    let threshold = parse_score("5.0");
    let spam = "1.0".to_string();
    let embed = build_embed(&email, Some(&spam), &threshold);
    assert_eq!(embed.fields.len(), 6);
    assert_eq!(embed.fields[4].name, "スパムスコア");
    assert_eq!(embed.fields[5].name, "添付ファイル");
}

#[test]
fn payload_document_exact() {
    let email = sample_email();
    let threshold = parse_score("5.0");
    let embed = build_embed(&email, None, &threshold);
    let doc = payload_json(&embed);
    let expected = "{\"username\":\"メール転送\",\
         \"avatar_url\":\"https://github.com/jizi-isct.png\",\
         \"embeds\":[{\"title\":\"メールを受信しました\",\"fields\":[\
         {\"name\":\"送信者\",\"value\":\"alice@example.com\",\"inline\":true},\
         {\"name\":\"宛先\",\"value\":\"bob@x.com\",\"inline\":true},\
         {\"name\":\"件名\",\"value\":\"Hi\",\"inline\":true},\
         {\"name\":\"本文\",\"value\":\"Hello\",\"inline\":false}\
         ],\"color\":0,\"description\":\"\"}]}";
    assert_eq!(doc, expected);
}

#[test]
fn payload_escapes_strings() {
    let mut email = sample_email();
    email.subject = "He said \"hi\"\nback\\slash".to_string();
    let threshold = parse_score("5.0");
    let embed = build_embed(&email, None, &threshold);
    let doc = payload_json(&embed);
    assert!(doc.contains("He said \\\"hi\\\"\\nback\\\\slash"));
}

#[test]
fn payload_color_in_decimal() {
    let email = sample_email();
    let threshold = parse_score("5.0");
    let spam = "9".to_string();
    let embed = build_embed(&email, Some(&spam), &threshold);
    let doc = payload_json(&embed);
    assert!(doc.contains("\"color\":16711680"));
}

#[test]
fn file_field_names_are_indexed() {
    assert_eq!(file_field_name(0), "files[0]");
    assert_eq!(file_field_name(1), "files[1]");
    assert_eq!(file_field_name(12), "files[12]");
}

#[test]
fn cap_constant_is_ten_mib() {
    assert_eq!(ATTACHMENT_CAP, 10 * MIB);
}
