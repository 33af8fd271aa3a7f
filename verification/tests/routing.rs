use mail_relay::router::{RouteError, RoutingTable};

fn table(entries: &[(&str, &str)]) -> RoutingTable {
    let mut t = RoutingTable::new();
    for (k, v) in entries.iter() {
        t.push_route(k.to_string(), v.to_string());
    }
    t
}

#[test]
fn exact_entry_wins_over_default() {
    let t = table(&[("a@x.com", "https://hook/a"), ("default", "https://hook/d")]);
    match t.resolve("a@x.com") {
        Ok(url) => assert_eq!(url, "https://hook/a"),
        Err(_) => panic!("expected a route"),
    }
}

#[test]
fn both_addresses_fall_back_to_default() {
    let t = table(&[("default", "https://hook/d")]);
    let to = vec!["a@x.com".to_string(), "b@y.com".to_string()];
    match t.plan(&to) {
        Ok(ds) => {
            assert_eq!(ds.len(), 2);
            assert_eq!(ds[0].address, "a@x.com");
            assert_eq!(ds[0].url, "https://hook/d");
            assert_eq!(ds[1].address, "b@y.com");
            assert_eq!(ds[1].url, "https://hook/d");
        },
        Err(_) => panic!("expected a plan"),
    }
}

#[test]
fn no_entry_and_no_default_fails() {
    let t = table(&[("other@x.com", "https://hook/o")]);
    match t.resolve("sole@x.com") {
        Err(RouteError::NoRoute(a)) => assert_eq!(a, "sole@x.com"),
        Ok(_) => panic!("expected a routing failure"),
    }
}

#[test]
fn plan_fails_on_first_unroutable_address() {
    let t = table(&[("a@x.com", "https://hook/a")]);
    let to = vec!["a@x.com".to_string(), "b@y.com".to_string(), "c@z.net".to_string()];
    match t.plan(&to) {
        Err(RouteError::NoRoute(a)) => assert_eq!(a, "b@y.com"),
        Ok(_) => panic!("expected a routing failure"),
    }
}

#[test]
fn empty_recipient_list_plans_nothing() {
    let t = table(&[]);
    let to: Vec<String> = Vec::new();
    match t.plan(&to) {
        Ok(ds) => assert!(ds.is_empty()),
        Err(_) => panic!("expected an empty plan"),
    }
}

#[test]
fn first_entry_wins_on_duplicate_keys() {
    let t = table(&[("a@x.com", "https://hook/1"), ("a@x.com", "https://hook/2")]);
    match t.resolve("a@x.com") {
        Ok(url) => assert_eq!(url, "https://hook/1"),
        Err(_) => panic!("expected a route"),
    }
}
