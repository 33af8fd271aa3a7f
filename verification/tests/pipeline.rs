use mail_relay::email::ParseError;
use mail_relay::form::{FileMeta, FormMap};
use mail_relay::router::{RouteError, RoutingTable};
use mail_relay::{is_multipart_content_type, process, RelayError, RelayOutcome};

const MIB: u64 = 1024 * 1024;

fn full_form() -> FormMap {
    let mut form = FormMap::new();
    form.push_field("from".to_string(), "alice@example.com".to_string());
    form.push_field("to".to_string(), "a@x.com, b@y.com".to_string());
    form.push_field("subject".to_string(), "News".to_string());
    form.push_field("text".to_string(), "Body text".to_string());
    form
}

fn default_table() -> RoutingTable {
    let mut t = RoutingTable::new();
    t.push_route("default".to_string(), "https://hook/d".to_string());
    t
}

#[test]
fn content_type_check() {
    assert!(is_multipart_content_type("multipart/form-data; boundary=xyz"));
    assert!(!is_multipart_content_type("application/json"));
    assert!(!is_multipart_content_type(""));
}

#[test]
fn full_pipeline_plans_two_deliveries() {
    let form = full_form();
    let outcome = process(&form, "5.0", &default_table());
    match outcome {
        RelayOutcome::Deliver(plan) => {
            assert_eq!(plan.email.to, vec!["a@x.com".to_string(), "b@y.com".to_string()]);
            assert_eq!(plan.deliveries.len(), 2);
            assert_eq!(plan.deliveries[0].url, "https://hook/d");
            assert_eq!(plan.deliveries[1].url, "https://hook/d");
            assert!(plan.included.is_empty());
            assert!(plan.payload_json.contains("\"title\":\"メールを受信しました\""));
            assert!(plan.payload_json.contains("\"color\":0"));
        },
        _ => panic!("expected a delivery plan"),
    }
}

#[test]
fn spam_subject_suppresses_whole_request() {
    let mut form = FormMap::new();
    form.push_field("from".to_string(), "alice@example.com".to_string());
    form.push_field("to".to_string(), "a@x.com".to_string());
    form.push_field("subject".to_string(), "[SPAM]win now".to_string());
    let outcome = process(&form, "5.0", &default_table());
    assert!(matches!(outcome, RelayOutcome::Suppressed));
}

#[test]
fn parse_failure_reaches_caller() {
    let mut form = FormMap::new();
    form.push_field("to".to_string(), "a@x.com".to_string());
    form.push_field("subject".to_string(), "s".to_string());
    let outcome = process(&form, "5.0", &default_table());
    match outcome {
        RelayOutcome::Failed(RelayError::Parse(ParseError::MissingField(f))) => {
            assert_eq!(f, "from")
        },
        _ => panic!("expected a parse failure"),
    }
}

#[test]
fn route_failure_names_first_unroutable_address() {
    let form = full_form();
    let mut t = RoutingTable::new();
    t.push_route("a@x.com".to_string(), "https://hook/a".to_string());
    let outcome = process(&form, "5.0", &t);
    match outcome {
        RelayOutcome::Failed(RelayError::Route(RouteError::NoRoute(a))) => {
            assert_eq!(a, "b@y.com")
        },
        _ => panic!("expected a routing failure"),
    }
}

#[test]
fn score_field_colors_the_embed() {
    let mut form = full_form();
    form.push_field("spam_score".to_string(), "7.5".to_string());
    let outcome = process(&form, "5.0", &default_table());
    match outcome {
        RelayOutcome::Deliver(plan) => {
            assert_eq!(plan.embed.color, 0xFF0000);
            assert!(plan.payload_json.contains("\"color\":16711680"));
            assert!(plan.payload_json.contains("\"name\":\"スパムスコア\",\"value\":\"7.5\""));
        },
        _ => panic!("expected a delivery plan"),
    }
}

#[test]
fn oversize_attachments_flagged_but_listed() {
    let mut form = full_form();
    form.push_field(
        "attachment-info".to_string(),
        "{\"a1\":{},\"a2\":{},\"a3\":{}}".to_string(),
    );
    form.push_file(
        "a1".to_string(),
        FileMeta { name: "a.bin".to_string(), content_type: "x/y".to_string(), size: 6 * MIB },
    );
    form.push_file(
        "a2".to_string(),
        FileMeta { name: "b.bin".to_string(), content_type: "x/y".to_string(), size: 6 * MIB },
    );
    form.push_file(
        "a3".to_string(),
        FileMeta { name: "c.bin".to_string(), content_type: "x/y".to_string(), size: 1 * MIB },
    );
    let outcome = process(&form, "5.0", &default_table());
    match outcome {
        RelayOutcome::Deliver(plan) => {
            assert_eq!(plan.included, vec![true, false, false]);
            let summary_field = &plan.embed.fields[4];
            assert_eq!(summary_field.name, "添付ファイル");
            assert!(summary_field.value.contains("- a.bin (x/y)\n"));
            assert!(summary_field.value.contains(
                "- b.bin (x/y) サイズが大きすぎるのでメーラーからアクセスしてください\n"
            ));
            assert!(summary_field.value.contains(
                "- c.bin (x/y) サイズが大きすぎるのでメーラーからアクセスしてください\n"
            ));
        },
        _ => panic!("expected a delivery plan"),
    }
}
