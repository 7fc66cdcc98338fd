use roon_api::moo::message::MooMessage;
use roon_api::service::{
    only, register_service, send_complete, send_complete_all, send_continue, send_continue_all,
    subscribers, Fault, Handler, Method, Step,
};
use roon_api::table::Table;
use roon_api::{Sub, Svc, SvcSpec};

fn service() -> Svc {
    let mut spec = SvcSpec::new("svc:1");
    spec.add_method("get", Method::User(1));
    spec.add_method("subscribe_a", Method::User(2));
    for (name, n) in [("a", 3), ("b", 5)] {
        spec.add_sub(Sub {
            subscribe_name: format!("subscribe_{}", name),
            unsubscribe_name: format!("unsubscribe_{}", name),
            start: Method::User(n),
            end: Some(Method::User(n + 1)),
        });
    }
    register_service(spec)
}

fn request(name: &str, body: &str) -> MooMessage {
    let data = format!(
        "MOO/1 REQUEST svc:1/{}\nRequest-Id: 1\nContent-Type: application/json\n\n{}",
        name, body
    );
    MooMessage::parse(&data).unwrap().unwrap()
}

#[test]
fn a_service_knows_its_names() {
    let svc = service();
    assert_eq!(svc.name, "svc:1");
    assert_eq!(svc.methods.len(), 5);
    assert_eq!(svc.sub_names, vec!["subscribe_a".to_string(), "subscribe_b".to_string()]);
    assert!(matches!(svc.methods.get("get"), Some(Handler::Call(Method::User(1)))));
    match svc.methods.get("subscribe_a") {
        Some(Handler::Subscribe(name, Method::User(3))) => assert_eq!(name, "subscribe_a"),
        other => panic!("{:?}", other),
    }
    match svc.methods.get("unsubscribe_b") {
        Some(Handler::Unsubscribe(name, Some(Method::User(6)))) => assert_eq!(name, "subscribe_b"),
        other => panic!("{:?}", other),
    }
}

#[test]
fn subscriptions_are_kept_until_they_end() {
    let mut svc = service();
    let sub = request("subscribe_a", "{\"subscription_key\":\"k\"}");
    let unsub = request("unsubscribe_a", "{\"subscription_key\":\"k\"}");
    assert_eq!(svc.handle(Some(7), &sub, 12), Ok(Step::Run(Method::User(3))));
    assert_eq!(svc.sub_types.get("subscribe_a:7:k"), Some(&12));
    assert_eq!(svc.handle(Some(8), &unsub, 13), Ok(Step::End(Some(Method::User(4)))));
    assert_eq!(svc.sub_types.len(), 1);
    assert_eq!(svc.handle(Some(7), &unsub, 14), Ok(Step::End(Some(Method::User(4)))));
    assert_eq!(svc.sub_types.len(), 0);
    assert_eq!(svc.handle(None, &request("get", "{}"), 15), Ok(Step::Run(Method::User(1))));
    assert_eq!(svc.handle(None, &request("put", "{}"), 15), Ok(Step::Unknown));
}

#[test]
fn a_core_that_cannot_subscribe_is_told() {
    let mut svc = service();
    for name in ["subscribe_a", "unsubscribe_a"] {
        let r = svc.handle(None, &request(name, "{\"subscription_key\":\"k\"}"), 1);
        assert_eq!(r, Err(Fault::NoCore));
        for body in ["{}", "{\"subscription_key\":1}", "[]"] {
            let r = svc.handle(Some(1), &request(name, body), 1);
            assert_eq!(r, Err(Fault::SubscriptionKey));
        }
    }
    assert_eq!(svc.sub_types.len(), 0);
}

#[test]
fn the_subscriptions_of_a_core_are_dropped() {
    let mut svc = service();
    for (id, name) in
        [(1, "subscribe_a"), (1, "subscribe_b"), (2, "subscribe_a"), (12, "subscribe_b")]
    {
        let sub = request(name, "{\"subscription_key\":\"k\"}");
        svc.handle(Some(id), &sub, id).unwrap();
    }
    svc.drop_core(1);
    assert_eq!(svc.sub_types.len(), 1);
    assert!(svc.sub_types.contains_key("subscribe_a:2:k"));
}

#[test]
fn the_subscribers_of_a_name_are_found() {
    let mut table: Table<usize> = Table::new();
    table.insert("subscribe_a:3:x", 30);
    table.insert("subscribe_b:4:x", 40);
    table.insert("subscribe_a:5:y:z", 50);
    table.insert("subscribe_a:3:y", 31);
    let ids = subscribers(&table, "subscribe_a").unwrap();
    assert_eq!(ids.len(), 2);
    assert_eq!(ids.get(&3), Some(&31));
    assert_eq!(ids.get(&5), Some(&50));
    assert!(subscribers(&table, "subscribe_c").unwrap().is_empty());
    table.insert("subscribe_a:x:y", 1);
    assert_eq!(subscribers(&table, "subscribe_a").err(), Some(Fault::Key));
    let mut table: Table<usize> = Table::new();
    table.insert("subscribe_a", 1);
    assert_eq!(subscribers(&table, "subscribe_a").err(), Some(Fault::Key));
}

#[test]
fn replies_have_headers() {
    assert_eq!(send_continue("A", None).0, vec!["CONTINUE", "A"]);
    assert_eq!(send_complete("A", None).0, vec!["COMPLETE", "A"]);
    assert_eq!(send_continue_all("s", "A", None).0, vec!["s", "CONTINUE", "A"]);
    assert_eq!(send_complete_all("s", "A", None).0, vec!["s", "COMPLETE", "A"]);
    assert_eq!(only(send_complete("A", None)).len(), 1);
}
