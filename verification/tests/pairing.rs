use roon_api::moo::{LogLevel, Moo};
use roon_api::pairing::Pairing;
use roon_api::ping::Ping;
use roon_api::service::{Handler, Method};
use roon_api::{Core, RespProps};

fn a_core(id: &str) -> Core {
    let (moo, _, _, _) = Moo::new(1, LogLevel::Default);
    Core {
        display_name: "name".to_string(),
        display_version: "1".to_string(),
        id: id.to_string(),
        moo,
    }
}

fn show(replies: &Vec<RespProps>) -> (String, Option<String>) {
    assert_eq!(replies.len(), 1);
    let (hdr, body) = &replies[0];
    (hdr.join(" "), body.as_ref().map(|b| b.to_text()))
}

fn is(replies: &Vec<RespProps>, hdr: &str, body: Option<&str>) {
    assert_eq!(show(replies), (hdr.to_string(), body.map(|b| b.to_string())));
}

#[test]
fn a_core_is_paired_when_it_wants_to_be() {
    let mut pairing = Pairing::new();
    is(&pairing.get_pairing(), "COMPLETE Success", None);
    is(&pairing.start(), "CONTINUE Subscribed", Some("{\"paired_core_id\":\"undefined\"}"));
    is(&pairing.pair(None), "", None);
    assert!(pairing.paired_core.is_none());
    is(
        &pairing.pair(Some(&a_core("a"))),
        "subscribe_pairing CONTINUE Changed",
        Some("{\"paired_core_id\":\"a\"}"),
    );
    assert_eq!(pairing.lost_core_id, None);
    is(&pairing.get_pairing(), "COMPLETE Success", Some("{\"paired_core_id\":\"a\"}"));
    is(&pairing.start(), "CONTINUE Subscribed", Some("{\"paired_core_id\":\"a\"}"));
    is(&pairing.pair(Some(&a_core("a"))), "", None);
    assert_eq!(pairing.lost_core_id, None);
    is(
        &pairing.pair(Some(&a_core("b"))),
        "subscribe_pairing CONTINUE Changed",
        Some("{\"paired_core_id\":\"b\"}"),
    );
    assert_eq!(pairing.lost_core_id.as_deref(), Some("a"));
    assert_eq!(pairing.paired_core.unwrap().id, "b");
}

#[test]
fn the_pairing_service_is_offered() {
    let svc = Pairing::create();
    assert_eq!(svc.name, "com.roonlabs.pairing:1");
    assert_eq!(svc.methods.len(), 4);
    assert!(matches!(svc.methods.get("get_pairing"), Some(Handler::Call(Method::GetPairing))));
    assert!(matches!(svc.methods.get("pair"), Some(Handler::Call(Method::Pair))));
    assert!(matches!(
        svc.methods.get("subscribe_pairing"),
        Some(Handler::Subscribe(_, Method::StartPairing))
    ));
    assert!(matches!(svc.methods.get("unsubscribe_pairing"), Some(Handler::Unsubscribe(_, None))));
}

#[test]
fn a_ping_is_answered() {
    let svc = Ping::create();
    assert_eq!(svc.name, "com.roonlabs.ping:1");
    assert!(matches!(svc.methods.get("ping"), Some(Handler::Call(Method::Ping))));
    is(&Ping::ping(), "COMPLETE Success", None);
}
