use mail_relay::addresses::extract_addresses;

fn extracted(header: &str) -> Vec<String> {
    extract_addresses(header)
}

#[test]
fn simple_pair() {
    let r = extracted("a@x.com, b@y.com");
    assert_eq!(r, vec!["a@x.com".to_string(), "b@y.com".to_string()]);
}

#[test]
fn display_names() {
    let r = extracted("Foo Bar <foo@bar.com>, baz@qux.org");
    assert_eq!(r, vec!["foo@bar.com".to_string(), "baz@qux.org".to_string()]);
}

#[test]
fn no_address() {
    let r = extracted("no addresses here");
    assert!(r.is_empty());
}

#[test]
fn empty_header() {
    let r = extracted("");
    assert!(r.is_empty());
}

#[test]
fn duplicates_kept() {
    let r = extracted("a@x.com a@x.com");
    assert_eq!(r, vec!["a@x.com".to_string(), "a@x.com".to_string()]);
}

#[test]
fn longest_at_position() {
    // The domain keeps growing through further dotted labels.
    let r = extracted("user@mail.example.co.uk!");
    assert_eq!(r, vec!["user@mail.example.co.uk".to_string()]);
}

#[test]
fn short_final_label_backtracks() {
    // The final one-letter label cannot close the address; the match
    // stops after the previous label.
    let r = extracted("a@b.cd.e");
    assert_eq!(r, vec!["a@b.cd".to_string()]);
}

#[test]
fn double_at_never_matches_across() {
    let r = extracted("x a@b@c.com y");
    assert_eq!(r, vec!["b@c.com".to_string()]);
}

#[test]
fn leading_dots_belong_to_local_part() {
    let r = extracted("..a@b.co");
    assert_eq!(r, vec!["..a@b.co".to_string()]);
}

#[test]
fn deterministic() {
    let h = "Foo <f@a.com>, G <g@b.org>";
    assert_eq!(extracted(h), extracted(h));
}

#[test]
fn agrees_with_reference_pattern() {
    let re = regex::Regex::new(r"[a-zA-Z0-9._%+-]+@[a-zA-Z0-9.-]+\.[a-zA-Z]{2,}").unwrap();
    let samples = [
        "a@x.com, b@y.com",
        "Foo Bar <foo@bar.com>, baz@qux.org",
        "no addresses here",
        "",
        "a@b.cd.e",
        "..a@b.co",
        "x a@b@c.com y",
        "trailing a@b.com-",
        "a@b.comX9",
        "mixed 日本語 a@b.jp テキスト",
        "u-ser_1%x+y@sub.domain-name.org rest",
        "@nope.com and a@.com and a@b.c",
        "a@b..co..",
        "end a@b.co",
    ];
    for s in samples.iter() {
        let want: Vec<String> = re.find_iter(s).map(|m| m.as_str().to_string()).collect();
        let got = extracted(s);
        assert_eq!(got, want, "header: {:?}", s);
    }
}
