use roon_api::browse::{Action, Browse, BrowseResult};
use roon_api::hub::register::find_conn;
use roon_api::hub::request::{ended, refuse, Asked, Outcome};
use roon_api::hub::{id_of, info_request, topic, Hub, Reaction, Topic};
use roon_api::image::Image;
use roon_api::json::Json;
use roon_api::moo::message::MooMessage;
use roon_api::moo::{ContentType, LogLevel, Moo};
use roon_api::service::{
    no_answer, register_service, send_complete, send_continue_all, Fault, Method, Step,
};
use roon_api::settings::Settings;
use roon_api::status::Status;
use roon_api::table::Table;
use roon_api::transport::Transport;
use roon_api::{CoreEvent, Info, Parsed, RoonApi, Services, Sub, Svc, SvcSpec};

fn info() -> Info {
    Info::new("com.x.y".to_string(), "Name", "1.0", None, "", None)
}

fn roon() -> RoonApi {
    RoonApi::new(info())
}

fn hub_with(services: Option<Vec<Services>>, provided: Vec<Svc>) -> Hub {
    let mut table: Table<Svc> = Table::new();
    for svc in provided {
        table.insert(svc.name, svc);
    }
    roon().start_moo_receiver(table, services)
}

fn connect(hub: &mut Hub, id: usize) {
    let (moo, sender, _, mut session) = Moo::new(id, LogLevel::Default);
    let (req_id, msg, log) = info_request(&sender, &session);
    assert_eq!(req_id, 0);
    assert_eq!(msg, "MOO/1 REQUEST com.roonlabs.registry:1/info\nRequest-Id: 0\n\n");
    assert_eq!(log, "-> REQUEST 0 com.roonlabs.registry:1/info");
    assert!(sender.msg_sent(&mut session, req_id, "REQUEST"));
    hub.connected(moo, sender, session);
}

fn message(verb: &str, name: &str, req_id: usize, body: &str) -> MooMessage {
    let data = format!(
        "MOO/1 {} {}\nRequest-Id: {}\nContent-Type: application/json\n\n{}",
        verb, name, req_id, body
    );
    MooMessage::parse(&data).unwrap().unwrap()
}

fn json(text: &str) -> Json {
    Json::parse(text).unwrap()
}

fn registered(id: &str) -> MooMessage {
    let body = format!(
        "{{\"display_name\":\"n\",\"display_version\":\"v\",\"core_id\":\"{}\",\
         \"token\":\"t-{}\"}}",
        id, id
    );
    message("CONTINUE", "Registered", 1, &body)
}

fn props(r: &Reaction) -> Vec<(String, Option<String>)> {
    r.props
        .iter()
        .map(|(hdr, body)| (hdr.join(" "), body.as_ref().map(|b| b.to_text())))
        .collect()
}

fn ids(r: &Reaction) -> Vec<Vec<(usize, usize)>> {
    r.response_ids
        .iter()
        .map(|m| {
            let mut pairs: Vec<(usize, usize)> = m.iter().map(|(k, v)| (*k, *v)).collect();
            pairs.sort();
            pairs
        })
        .collect()
}

fn ask(hub: &mut Hub, index: usize, svc: &str, name: &str, req_id: usize, body: &str) -> Step {
    let msg = message("REQUEST", &format!("{}/{}", svc, name), req_id, body);
    match hub.begin_request(index, &msg) {
        Ok(Asked::Provided(step)) => step,
        other => panic!("{:?}", other),
    }
}

const PAIRING: &str = "com.roonlabs.pairing:1";
const STATUS: &str = "com.roonlabs.status:1";
const KEY: &str = "{\"subscription_key\":\"k\"}";

#[test]
fn messages_are_told_apart() {
    let m = message("COMPLETE", "Success", 0, "{\"core_id\":\"c\"}");
    assert_eq!(topic(&m), Topic::CoreInfo);
    let m = message("COMPLETE", "Registered", 0, "{\"core_id\":1}");
    assert_eq!(topic(&m), Topic::Registered);
    let m = message("REQUEST", "a/Registered", 1, "{\"core_id\":\"c\"}");
    assert_eq!(topic(&m), Topic::Registered);
    let m = message("REQUEST", "a/b", 1, "{\"core_id\":\"c\"}");
    assert_eq!(topic(&m), Topic::Request);
    let m = message("COMPLETE", "Success", 1, "{\"core_id\":\"c\"}");
    assert_eq!(topic(&m), Topic::Response);
}

#[test]
fn the_extension_registers_with_a_core() {
    let (svc, status) = Status::new(&roon(), &mut 0);
    let services = vec![
        Services::Transport(Transport::new()),
        Services::Status(status),
        Services::Browse(Browse::new()),
        Services::Image(Image::new()),
    ];
    let mut hub = hub_with(Some(services), vec![svc]);
    connect(&mut hub, 5);
    let msg = message("COMPLETE", "Success", 0, "{\"core_id\":\"c\"}");
    let state = json("{\"tokens\":{\"c\":\"t\"}}");
    let r = hub.on_core_info(0, &msg, &state);
    assert_eq!(ids(&r), vec![vec![(0, 1)]]);
    let (hdr, body) = props(&r).remove(0);
    assert_eq!(hdr, "REQUEST com.roonlabs.registry:1/register");
    assert_eq!(
        body.unwrap(),
        "{\"display_name\":\"Name\",\"display_version\":\"1.0\",\"email\":\"\",\
         \"extension_id\":\"com.x.y\",\"provided_services\":[\"com.roonlabs.status:1\",\
         \"com.roonlabs.ping:1\",\"com.roonlabs.pairing:1\"],\"publisher\":null,\
         \"required_services\":[\"com.roonlabs.transport:2\",\"com.roonlabs.browse:1\",\
         \"com.roonlabs.image:1\"],\"token\":\"t\",\"website\":null}"
    );
    let r = hub.on_core_info(0, &msg, &Json::Null);
    let body = json(&props(&r).remove(0).1.unwrap());
    assert_eq!(body.get("token"), Some(&Json::text("t")));
    match body.get("required_services") {
        Some(Json::Array(names)) => assert_eq!(names.len(), 6),
        other => panic!("{:?}", other),
    }
}

#[test]
fn the_first_core_that_registers_is_paired() {
    let mut hub = hub_with(None, vec![]);
    connect(&mut hub, 5);
    connect(&mut hub, 6);
    let (r, event) = hub.on_registered(0, &registered("a"), Json::object()).unwrap();
    assert_eq!(props(&r), vec![(
        "CONTINUE Changed".to_string(),
        Some("{\"paired_core_id\":\"a\"}".to_string())
    )]);
    assert!(r.response_ids.is_empty());
    match event {
        (CoreEvent::Found(core), Some((state, Parsed::RoonState))) => {
            assert_eq!((core.id.as_str(), core.moo.id), ("a", 5));
            assert_eq!((core.display_name.as_str(), core.display_version.as_str()), ("n", "v"));
            assert_eq!(state.to_text(), "{\"paired_core_id\":\"a\",\"tokens\":{\"a\":\"t-a\"}}");
            let (r, event) = hub.on_registered(1, &registered("b"), state).unwrap();
            assert!(r.props.is_empty());
            match event {
                (CoreEvent::Found(core), Some((state, Parsed::RoonState))) => {
                    assert_eq!((core.id.as_str(), core.moo.id), ("b", 6));
                    assert_eq!(
                        state.to_text(),
                        "{\"paired_core_id\":\"a\",\"tokens\":{\"a\":\"t-a\",\"b\":\"t-b\"}}"
                    );
                }
                other => panic!("{:?}", other),
            }
        }
        other => panic!("{:?}", other),
    }
    assert_eq!(hub.api.pairing.paired_core.as_ref().unwrap().id, "a");
    assert_eq!(hub.cores.len(), 2);
    assert!(hub.user_moos.is_empty());
    assert_eq!(hub.on_registered(0, &registered("a"), Json::Null).err(), Some(Fault::NoUser));
}

#[test]
fn the_stored_core_is_paired_and_subscribers_are_told() {
    let mut hub = hub_with(None, vec![]);
    for id in [5, 6] {
        connect(&mut hub, id);
    }
    let state = json("{\"paired_core_id\":\"b\"}");
    let (r, _) = hub.on_registered(0, &registered("a"), state.clone()).unwrap();
    assert!(r.props.is_empty() && r.response_ids.is_empty());
    assert!(hub.api.pairing.paired_core.is_none());
    let step = ask(&mut hub, 0, PAIRING, "subscribe_pairing", 9, KEY);
    assert_eq!(step, Step::Run(Method::StartPairing));
    let (r, _) = hub.on_registered(1, &registered("b"), state).unwrap();
    assert_eq!(props(&r)[0].0, "CONTINUE Changed");
    assert_eq!(ids(&r), vec![vec![(0, 9)]]);
    assert_eq!(hub.api.pairing.paired_core.as_ref().unwrap().id, "b");
}

#[test]
fn all_subscribers_to_the_pairing_are_told_when_a_core_registers() {
    let mut hub = hub_with(None, vec![]);
    let state = json("{\"paired_core_id\":\"c\"}");
    for (index, id) in [(0, 5), (1, 6), (2, 7)] {
        connect(&mut hub, id);
        hub.on_registered(index, &registered(["a", "b", "d"][index]), state.clone()).unwrap();
        ask(&mut hub, index, PAIRING, "subscribe_pairing", 20 + index, KEY);
    }
    hub.on_closed(0);
    connect(&mut hub, 8);
    let (r, _) = hub.on_registered(2, &registered("c"), state).unwrap();
    assert_eq!(props(&r).len(), 1);
    assert_eq!(ids(&r), vec![vec![(0, 21), (1, 22)]]);
}

#[test]
fn an_extension_without_pairing_works_with_each_core() {
    let api = RoonApi::without_pairing(info());
    let mut hub = api.start_moo_receiver(Table::new(), None);
    assert!(!hub.provided.contains_key(PAIRING));
    assert!(hub.provided.contains_key("com.roonlabs.ping:1"));
    for (index, id) in [(0, 5), (1, 6)] {
        connect(&mut hub, id);
        let name = ["a", "b"][index];
        let (r, event) = hub.on_registered(index, &registered(name), Json::Null).unwrap();
        assert!(r.props.is_empty() && r.response_ids.is_empty());
        match event {
            (CoreEvent::Found(core), Some((state, Parsed::RoonState))) => {
                assert_eq!((core.id.as_str(), core.moo.id), (name, id));
                let expected = format!("{{\"tokens\":{{\"{}\":\"t-{}\"}}}}", name, name);
                assert_eq!(state.to_text(), expected);
            }
            other => panic!("{:?}", other),
        }
    }
    assert!(hub.api.pairing.paired_core.is_none());
    match outcome(&mut hub, "com.roonlabs.pairing:1/get_pairing", 2, "{}") {
        Ok(Outcome::Answered(r, None)) => assert_eq!(props(&r)[0].0, "COMPLETE InvalidRequest"),
        other => panic!("{:?}", other),
    }
    assert!(matches!(hub.on_closed(0), (Some((CoreEvent::Lost(_), None)), false)));
}

#[test]
fn the_token_of_a_core_is_sent_back_to_it() {
    let mut hub = hub_with(None, vec![]);
    connect(&mut hub, 5);
    let state = json("{\"tokens\":{\"b\":1}}");
    let (_, event) = hub.on_registered(0, &registered("a"), state).unwrap();
    let state = match event {
        (CoreEvent::Found(_), Some((state, Parsed::RoonState))) => state,
        other => panic!("{:?}", other),
    };
    let mut hub = hub_with(None, vec![]);
    connect(&mut hub, 6);
    let msg = message("COMPLETE", "Success", 0, "{\"core_id\":\"a\"}");
    let r = hub.on_core_info(0, &msg, &state);
    let body = r.props[0].1.as_ref().unwrap();
    assert_eq!(body.get_str("token"), Some("t-a"));
    let msg = message("COMPLETE", "Success", 0, "{\"core_id\":\"b\"}");
    let r = hub.on_core_info(0, &msg, &state);
    assert_eq!(r.props[0].1.as_ref().unwrap().get("token"), Some(&Json::Uint(1)));
    let (_, event) = hub.on_registered(0, &registered("a"), state).unwrap();
    assert_eq!(hub.api.pairing.paired_core.as_ref().unwrap().id, "a");
    assert!(matches!(event, (CoreEvent::Found(_), _)));
}

#[test]
fn a_registration_that_fails_changes_nothing() {
    let mut hub = hub_with(None, vec![]);
    connect(&mut hub, 5);
    let m = message("CONTINUE", "Registered", 1, "{\"core_id\":\"a\"}");
    assert_eq!(hub.on_registered(0, &m, Json::Null).err(), Some(Fault::Body));
    let r = hub.on_registered(0, &registered("a"), Json::Array(vec![]));
    assert_eq!(r.err(), Some(Fault::State));
    let r = hub.on_registered(0, &registered("a"), json("{\"tokens\":1}"));
    assert_eq!(r.err(), Some(Fault::State));
    let r = hub.on_registered(0, &registered("a"), json("{\"paired_core_id\":1}"));
    assert_eq!(r.err(), Some(Fault::State));
    let mut svc = hub.provided.remove(PAIRING).unwrap();
    svc.sub_types.insert("subscribe_pairing", 1);
    hub.provided.insert(PAIRING, svc);
    let r = hub.on_registered(0, &registered("a"), Json::Null);
    assert_eq!(r.err(), Some(Fault::Key));
    assert!(hub.cores.is_empty());
    assert_eq!(hub.user_moos.len(), 1);
}

#[test]
fn a_request_for_an_unknown_service_is_refused() {
    let mut hub = hub_with(None, vec![]);
    connect(&mut hub, 5);
    let msg = message("REQUEST", "other:1/name", 3, "{}");
    assert_eq!(hub.begin_request(0, &msg), Ok(Asked::Unprovided));
    let r = refuse(0, 3, &msg);
    assert_eq!(props(&r), vec![(
        "COMPLETE InvalidRequest".to_string(),
        Some("{\"error\":\"name\"}".to_string())
    )]);
    assert_eq!(ids(&r), vec![vec![(0, 3)]]);
}

#[test]
fn a_ping_is_answered_by_the_hub() {
    let mut hub = hub_with(None, vec![]);
    connect(&mut hub, 5);
    let step = ask(&mut hub, 0, "com.roonlabs.ping:1", "ping", 4, "{}");
    assert_eq!(step, Step::Run(Method::Ping));
    let replies = hub.run(0, "com.roonlabs.ping:1", Method::Ping).unwrap();
    let (r, event) = hub.reply(0, "com.roonlabs.ping:1", 4, replies, &Json::Null).unwrap();
    assert!(event.is_none());
    assert_eq!(props(&r), vec![("COMPLETE Success".to_string(), None)]);
    assert_eq!(ids(&r), vec![vec![(0, 4)]]);
    let (moo_index, req_id) = (0, 4);
    let answer = hub.answer(moo_index, req_id, &r.props[0].0, r.props[0].1.as_ref()).unwrap();
    assert!(answer.saved.is_none());
    let (msg, log) = answer.send.unwrap();
    assert_eq!(msg, "MOO/1 COMPLETE Success\nRequest-Id: 4\n\n");
    assert_eq!(log, "-> COMPLETE 4 Success");
    assert!(hub.answered(moo_index, req_id, &r.props[0].0));
    let step = ask(&mut hub, 0, "com.roonlabs.ping:1", "pong", 4, "{}");
    assert_eq!(step, Step::Unknown);
    let answer = hub.answer(0, 4, &no_answer().0, None).unwrap();
    assert!(answer.send.is_none());
    assert!(!hub.answered(0, 4, &[]));
    assert!(hub.answer(1, 4, &["COMPLETE", "Success"], None).is_none());
}

#[test]
fn a_change_of_the_pairing_is_told_to_all() {
    let mut hub = hub_with(None, vec![]);
    for (index, id) in [(0, 0), (1, 1)] {
        connect(&mut hub, id);
        let name = ["a", "b"][index];
        hub.on_registered(index, &registered(name), json("{\"paired_core_id\":\"a\"}")).unwrap();
        ask(&mut hub, index, PAIRING, "subscribe_pairing", 20 + index, KEY);
    }
    let step = ask(&mut hub, 1, PAIRING, "pair", 30, "{}");
    assert_eq!(step, Step::Run(Method::Pair));
    let replies = hub.run(1, PAIRING, Method::Pair).unwrap();
    assert_eq!(hub.api.pairing.lost_core_id.as_deref(), Some("a"));
    let (r, event) = hub.reply(1, PAIRING, 30, replies, &json("{\"x\":1}")).unwrap();
    assert_eq!(props(&r), vec![(
        "CONTINUE Changed".to_string(),
        Some("{\"paired_core_id\":\"b\"}".to_string())
    )]);
    assert_eq!(ids(&r), vec![vec![(0, 20), (1, 21)]]);
    match event {
        Some((CoreEvent::Nothing, Some((state, Parsed::RoonState)))) => {
            assert_eq!(state.to_text(), "{\"paired_core_id\":\"b\",\"x\":1}");
        }
        other => panic!("{:?}", other),
    }
    let replies = hub.run(1, PAIRING, Method::GetPairing).unwrap();
    assert_eq!(replies[0].1.as_ref().unwrap().to_text(), "{\"paired_core_id\":\"b\"}");
    let replies = hub.run(1, PAIRING, Method::StartPairing).unwrap();
    assert_eq!(replies[0].0, vec!["CONTINUE", "Subscribed"]);
    let step = ask(&mut hub, 1, PAIRING, "unsubscribe_pairing", 31, KEY);
    assert_eq!(step, Step::End(None));
    assert_eq!(ended()[0].0, vec!["COMPLETE", "Unsubscribed"]);
    assert_eq!(hub.provided.get(PAIRING).unwrap().sub_types.len(), 1);
}

#[test]
fn replies_that_cannot_be_sent_are_told() {
    let mut hub = hub_with(None, vec![]);
    connect(&mut hub, 5);
    let one = |reply| vec![send_complete("A", None), reply];
    let changed = |body| send_continue_all("subscribe_pairing", "Changed", body);
    let r = hub.reply(0, PAIRING, 1, one(changed(None)), &Json::Null);
    assert_eq!(r.err(), Some(Fault::Body));
    let body = json("{\"paired_core_id\":\"b\"}");
    let r = hub.reply(0, PAIRING, 1, one(changed(Some(body))), &Json::Array(vec![]));
    assert_eq!(r.err(), Some(Fault::State));
    let (r, event) = hub.reply(0, PAIRING, 1, one(changed(Some(Json::Null))), &Json::Null).unwrap();
    assert!(event.is_none());
    assert_eq!(ids(&r), vec![vec![(0, 1)], vec![]]);
    let mut svc = hub.provided.remove(PAIRING).unwrap();
    svc.sub_types.insert("s:x:k", 1);
    hub.provided.insert(PAIRING, svc);
    let r = hub.reply(0, PAIRING, 1, vec![send_continue_all("s", "A", None)], &Json::Null);
    assert_eq!(r.err(), Some(Fault::Key));
    let msg = message("REQUEST", "com.roonlabs.pairing:1/subscribe_pairing", 3, KEY);
    assert_eq!(hub.begin_request(0, &msg), Err(Fault::NoCore));
    let msg = message("REQUEST", "com.roonlabs.pairing:1/subscribe_pairing", 3, "{}");
    assert_eq!(hub.begin_request(0, &msg), Err(Fault::SubscriptionKey));
    assert!(hub.provided.contains_key(PAIRING));
}

#[test]
fn the_status_is_answered_by_the_hub() {
    let (svc, status) = Status::new(&roon(), &mut 0);
    let mut hub = hub_with(Some(vec![Services::Status(status)]), vec![svc]);
    connect(&mut hub, 5);
    hub.on_registered(0, &registered("a"), Json::Null).unwrap();
    let core = hub.cores.get(&5).unwrap().clone();
    assert!(hub.set_status(&core, "m".to_string(), true).unwrap().is_none());
    assert_eq!(core.get_status(&mut hub.services).unwrap().moo, Some(core.moo));
    let replies = hub.run(0, STATUS, Method::GetStatus).unwrap();
    assert_eq!(replies[0].1.as_ref().unwrap().to_text(), "{\"is_error\":true,\"message\":\"m\"}");
    let replies = hub.run(0, STATUS, Method::StartStatus).unwrap();
    assert_eq!(replies[0].0, vec!["CONTINUE", "Subscribed"]);
    assert!(hub.run(0, STATUS, Method::User(3)).is_none());
    assert!(hub.run(0, STATUS, Method::GetSettings).is_none());
    assert!(core.get_transport(&mut hub.services).is_none());
    assert!(core.get_browse(&mut hub.services).is_none());
    assert!(core.get_image(&mut hub.services).is_none());
    assert!(core.get_status(&mut None).is_none());
    ask(&mut hub, 0, STATUS, "subscribe_status", 17, KEY);
    let out = hub.set_status(&core, "n".to_string(), false).unwrap().unwrap();
    assert_eq!(out.req_id, 17);
    assert!(out.msg.starts_with("MOO/1 CONTINUE Changed\nRequest-Id: 17\n"));
    assert!(out.msg.ends_with("{\"is_error\":false,\"message\":\"n\"}"));
    hub.services = None;
    assert!(hub.set_status(&core, "o".to_string(), false).unwrap().is_none());
    let replies = hub.run(0, STATUS, Method::GetStatus).unwrap();
    assert_eq!(replies[0].1.as_ref().unwrap().to_text(), "{\"is_error\":false,\"message\":\"n\"}");
}

#[test]
fn a_service_keeps_only_its_own_status() {
    let roon = roon();
    let mut count: usize = 0;
    let (svc, _) = Status::new(&roon, &mut count);
    let (_, other) = Status::new(&roon, &mut count);
    let mut hub = hub_with(Some(vec![Services::Status(other)]), vec![svc]);
    connect(&mut hub, 5);
    hub.on_registered(0, &registered("a"), Json::Null).unwrap();
    let core = hub.cores.get(&5).unwrap().clone();
    ask(&mut hub, 0, STATUS, "subscribe_status", 17, KEY);
    assert!(hub.set_status(&core, "m".to_string(), true).unwrap().is_none());
    let replies = hub.run(0, STATUS, Method::GetStatus).unwrap();
    assert_eq!(replies[0].1.as_ref().unwrap().to_text(), "{\"is_error\":false,\"message\":\"\"}");
}

#[test]
fn a_status_is_kept_by_the_status_service() {
    let (settings_svc, settings) = Settings::new(&roon(), &mut 0);
    let (status_svc, status) = Status::new(&roon(), &mut 0);
    assert_eq!(settings.number, status.number);
    let services = vec![Services::Settings(settings), Services::Status(status)];
    let mut hub = hub_with(Some(services), vec![settings_svc, status_svc]);
    connect(&mut hub, 5);
    assert!(hub.keep_status(&status, "early".to_string(), false).unwrap().is_none());
    let kept = |hub: &Hub| hub.provided.get(STATUS).unwrap().state.status.clone();
    assert_eq!(kept(&hub), ("early".to_string(), false));
    hub.on_registered(0, &registered("a"), Json::Null).unwrap();
    let core = hub.cores.get(&5).unwrap().clone();
    hub.set_status(&core, "m".to_string(), true).unwrap();
    assert_eq!(kept(&hub), ("m".to_string(), true));
    let svc = hub.provided.get("com.roonlabs.settings:1").unwrap();
    assert_eq!(svc.state.status, (String::new(), false));
    let name = "com.roonlabs.settings:1/save_settings";
    outcome(&mut hub, name, 9, "{\"is_dry_run\":false}").unwrap();
    let body = json("{\"settings\":{\"values\":1}}");
    let answer = hub.answer(0, 9, &["COMPLETE", "Success"], Some(&body)).unwrap();
    assert!(matches!(
        answer.saved,
        Some((CoreEvent::Nothing, Some((_, Parsed::SettingsSaved(Json::Uint(1))))))
    ));
}

#[test]
fn a_core_gives_connected_services() {
    let services = vec![
        Services::Image(Image::new()),
        Services::Browse(Browse::new()),
        Services::Transport(Transport::new()),
    ];
    let mut hub = hub_with(Some(services), vec![]);
    connect(&mut hub, 5);
    hub.on_registered(0, &registered("a"), Json::Null).unwrap();
    let core = hub.cores.get(&5).unwrap().clone();
    let moo = Some(core.moo);
    assert_eq!(core.get_transport(&mut hub.services).unwrap().moo, moo);
    assert_eq!(core.get_browse(&mut hub.services).unwrap().moo, moo);
    assert_eq!(core.get_image(&mut hub.services).unwrap().moo, moo);
    core.get_transport(&mut hub.services).unwrap().get_zones_sent(Some(4));
    assert_eq!(core.get_transport(&mut hub.services).unwrap().zone_req_id, Some(4));
}

#[test]
fn saved_settings_are_told_with_their_reply() {
    let roon = roon();
    let mut count: usize = 0;
    let (mut svc, settings) = Settings::new(&roon, &mut count);
    let (_, other) = Settings::new(&roon, &mut count);
    svc.state.save_req_id = Some(7);
    let mut hub = hub_with(Some(vec![Services::Settings(settings)]), vec![svc]);
    connect(&mut hub, 5);
    let body = json("{\"settings\":{\"values\":{\"a\":1}}}");
    let answer = hub.answer(0, 7, &["COMPLETE", "Success"], Some(&body)).unwrap();
    match answer.saved {
        Some((CoreEvent::Nothing, Some((msg, Parsed::SettingsSaved(values))))) => {
            assert_eq!(msg, Json::object());
            assert_eq!(values.to_text(), "{\"a\":1}");
        }
        other => panic!("{:?}", other),
    }
    assert!(hub.answer(0, 8, &["COMPLETE", "Success"], Some(&body)).unwrap().saved.is_none());
    assert!(hub.answer(0, 7, &["COMPLETE", "Success"], None).unwrap().saved.is_none());
    hub.services = Some(vec![Services::Settings(other), Services::Settings(settings)]);
    assert!(hub.answer(0, 7, &["COMPLETE", "Success"], Some(&body)).unwrap().saved.is_none());
    hub.services = None;
    assert!(hub.answer(0, 7, &["COMPLETE", "Success"], Some(&body)).unwrap().saved.is_none());
}

#[test]
fn the_parts_of_an_answer_are_told_from_the_last_to_the_first() {
    let mut transport = Transport::new();
    transport.zone_sub = Some((3, 1));
    transport.moo = Some(Moo::new(5, LogLevel::Default).0);
    let services = vec![
        Services::Transport(transport),
        Services::Browse(Browse::new()),
    ];
    let mut hub = hub_with(Some(services), vec![]);
    connect(&mut hub, 5);
    let body = "{\"zones_changed\":[],\"zones_removed\":[\"z\"]}";
    let msg = message("CONTINUE", "Changed", 3, body);
    let parts = hub.parts(&msg);
    assert_eq!((parts.len(), parts[0].len(), parts[1].len()), (2, 2, 0));
    let decoded = vec![
        Some(vec![Parsed::Zones(vec![]), Parsed::ZonesRemoved(vec!["z".to_string()])]),
        Some(vec![]),
    ];
    let events = hub.on_response(&msg, &ContentType::Json, decoded, None, None);
    assert_eq!(events.len(), 2);
    match &events[0] {
        (CoreEvent::Nothing, Some((m, Parsed::ZonesRemoved(ids)))) => {
            assert_eq!(m.to_text(), msg.to_json().to_text());
            assert_eq!(ids, &vec!["z".to_string()]);
        }
        other => panic!("{:?}", other),
    }
    assert!(matches!(&events[1], (CoreEvent::Nothing, Some((Json::Null, Parsed::Zones(_))))));
    let events = hub.on_response(&msg, &ContentType::Json, vec![None, None], None, None);
    assert_eq!(events.len(), 1);
    assert!(matches!(&events[0], (CoreEvent::Nothing, Some((Json::Object(_), Parsed::Nothing)))));
}

#[test]
fn each_service_is_asked_until_one_knows_the_answer() {
    let result = || BrowseResult {
        action: Action::Message,
        item: None,
        list: None,
        message: None,
        is_error: Some(false),
    };
    let mut first = Browse::new();
    first.req_sent(8, None);
    let mut second = Browse::new();
    second.req_sent(3, Some("s".to_string()));
    let mut image = Image::new();
    image.get_image_sent("i", Some(3));
    let services = vec![
        Services::Transport(Transport::new()),
        Services::Settings(Settings::new(&roon(), &mut 0).1),
        Services::Image(image),
        Services::Browse(first),
        Services::Browse(second),
    ];
    let mut hub = hub_with(Some(services), vec![]);
    connect(&mut hub, 5);
    let msg = message("COMPLETE", "Success", 3, "{}");
    let decoded = || (0..5).map(|_| Some(vec![])).collect();
    let jpeg = ContentType::Jpeg(vec![9]);
    let events = hub.on_response(&msg, &jpeg, decoded(), Some(result()), None);
    assert_eq!(events.len(), 2);
    assert!(matches!(&events[0], (CoreEvent::Nothing, Some((Json::Null, Parsed::Jpeg(_))))));
    match &events[1] {
        (CoreEvent::Nothing, Some((Json::Object(_), Parsed::BrowseResult(r, key)))) => {
            assert_eq!((r.action, key.as_deref()), (Action::Message, Some("s")));
        }
        other => panic!("{:?}", other),
    }
    let events = hub.on_response(&msg, &jpeg, decoded(), Some(result()), None);
    assert!(events.is_empty());
    hub.services = None;
    assert!(hub.on_response(&msg, &jpeg, vec![], None, None).is_empty());
    assert!(hub.parts(&msg).is_empty());
}

#[test]
fn a_core_is_lost_with_its_connection() {
    let mut hub = hub_with(None, vec![]);
    hub.api.sood_conns = vec!["x".to_string(), "y".to_string()];
    for (index, id) in [(0, 5), (1, 6)] {
        connect(&mut hub, id);
        hub.on_registered(index, &registered(["a", "b"][index]), Json::Null).unwrap();
    }
    assert_eq!(find_conn(&hub.conns, 6), Some(1));
    hub.session(6).unwrap().req_id = 40;
    let (event, last) = hub.on_closed(0);
    assert!(!last);
    match event {
        Some((CoreEvent::Lost(core), None)) => assert_eq!(core.id, "a"),
        other => panic!("{:?}", other),
    }
    assert_eq!(hub.api.sood_conns, vec!["y".to_string()]);
    assert_eq!(find_conn(&hub.conns, 5), None);
    assert!(hub.session(5).is_none());
    assert_eq!(hub.conns[0].session.req_id, 40);
    connect(&mut hub, 7);
    let (event, last) = hub.on_closed(1);
    assert!(event.is_none() && !last);
    let (event, last) = hub.on_closed(0);
    assert!(matches!(event, Some((CoreEvent::Lost(_), None))) && last);
    assert!(hub.api.sood_conns.is_empty());
    assert!(hub.cores.is_empty());
}

fn outcome(hub: &mut Hub, name: &str, req_id: usize, body: &str) -> Result<Outcome, Fault> {
    hub.on_request(0, &message("REQUEST", name, req_id, body), &json("{\"s\":1}"))
}

#[test]
fn requests_are_answered_or_left_to_the_user() {
    let roon = roon();
    let mut count: usize = 0;
    let (settings_svc, settings) = Settings::new(&roon, &mut count);
    let (status_svc, _) = Status::new(&roon, &mut count);
    let mut spec = SvcSpec::new("svc:1");
    spec.add_method("get", Method::User(4));
    spec.add_sub(Sub {
        subscribe_name: "subscribe_x".to_string(),
        unsubscribe_name: "unsubscribe_x".to_string(),
        start: Method::User(5),
        end: Some(Method::User(6)),
    });
    let mut hub = hub_with(
        Some(vec![Services::Settings(settings)]),
        vec![settings_svc, register_service(spec), status_svc],
    );
    connect(&mut hub, 5);
    match outcome(&mut hub, "other:1/name", 2, "{}") {
        Ok(Outcome::Answered(r, None)) => {
            assert_eq!(props(&r)[0].0, "COMPLETE InvalidRequest");
            assert_eq!(ids(&r), vec![vec![(0, 2)]]);
        }
        other => panic!("{:?}", other),
    }
    assert!(matches!(outcome(&mut hub, "svc:1/get", 2, "{}"), Ok(Outcome::Run(4))));
    match outcome(&mut hub, "svc:1/put", 2, "{}") {
        Ok(Outcome::Answered(r, None)) => assert_eq!(props(&r), vec![("".to_string(), None)]),
        other => panic!("{:?}", other),
    }
    let r = outcome(&mut hub, "svc:1/subscribe_x", 2, KEY);
    assert_eq!(r.err(), Some(Fault::NoCore));
    hub.on_registered(0, &registered("a"), Json::Null).unwrap();
    assert!(matches!(outcome(&mut hub, "svc:1/subscribe_x", 2, KEY), Ok(Outcome::Run(5))));
    assert!(matches!(outcome(&mut hub, "svc:1/unsubscribe_x", 2, KEY), Ok(Outcome::End(6))));
    let name = "com.roonlabs.settings:1/subscribe_settings";
    assert!(matches!(
        outcome(&mut hub, name, 3, KEY),
        Ok(Outcome::Show(Method::StartSettings))
    ));
    let name = "com.roonlabs.settings:1/get_settings";
    assert!(matches!(outcome(&mut hub, name, 3, "{}"), Ok(Outcome::Show(Method::GetSettings))));
    let name = "com.roonlabs.settings:1/save_settings";
    assert_eq!(outcome(&mut hub, name, 3, "{}").err(), Some(Fault::Body));
    let body = "{\"is_dry_run\":false,\"settings\":{\"values\":7}}";
    assert!(matches!(
        outcome(&mut hub, name, 9, body),
        Ok(Outcome::Save(false, Json::Uint(7)))
    ));
    let svc = hub.provided.get("com.roonlabs.settings:1").unwrap();
    assert_eq!(svc.state.save_req_id, Some(9));
    let name = "com.roonlabs.settings:1/unsubscribe_settings";
    match outcome(&mut hub, name, 3, KEY) {
        Ok(Outcome::Answered(r, None)) => {
            assert_eq!(props(&r), vec![("COMPLETE Unsubscribed".to_string(), None)])
        }
        other => panic!("{:?}", other),
    }
    match outcome(&mut hub, "com.roonlabs.pairing:1/get_pairing", 3, "{}") {
        Ok(Outcome::Answered(r, None)) => assert_eq!(
            props(&r),
            vec![(
                "COMPLETE Success".to_string(),
                Some("{\"paired_core_id\":\"a\"}".to_string())
            )]
        ),
        other => panic!("{:?}", other),
    }
}

#[test]
fn what_a_service_keeps_does_not_rest_on_the_services_in_use() {
    let roon = roon();
    let mut count: usize = 0;
    let (settings_svc, _) = Settings::new(&roon, &mut count);
    let (mut status_svc, status) = Status::new(&roon, &mut count);
    status.set_status(&mut status_svc, "m".to_string(), true).unwrap();
    let mut hub = hub_with(None, vec![settings_svc, status_svc]);
    connect(&mut hub, 5);
    hub.on_registered(0, &registered("a"), Json::Null).unwrap();
    let body = Some("{\"is_error\":true,\"message\":\"m\"}".to_string());
    match outcome(&mut hub, "com.roonlabs.status:1/get_status", 3, "{}") {
        Ok(Outcome::Answered(r, None)) => {
            assert_eq!(props(&r), vec![("COMPLETE Success".to_string(), body.clone())]);
            assert_eq!(ids(&r), vec![vec![(0, 3)]]);
        }
        other => panic!("{:?}", other),
    }
    match outcome(&mut hub, "com.roonlabs.status:1/subscribe_status", 4, KEY) {
        Ok(Outcome::Answered(r, None)) => {
            assert_eq!(props(&r), vec![("CONTINUE Subscribed".to_string(), body)])
        }
        other => panic!("{:?}", other),
    }
    let name = "com.roonlabs.settings:1/save_settings";
    let body = "{\"is_dry_run\":true,\"settings\":{\"values\":7}}";
    assert!(matches!(outcome(&mut hub, name, 8, body), Ok(Outcome::Save(true, Json::Uint(7)))));
    let saved = |hub: &Hub| hub.provided.get("com.roonlabs.settings:1").unwrap().state.save_req_id;
    assert_eq!(saved(&hub), None);
    let body = "{\"is_dry_run\":false,\"settings\":{\"values\":7}}";
    assert!(matches!(outcome(&mut hub, name, 9, body), Ok(Outcome::Save(false, Json::Uint(7)))));
    assert_eq!(saved(&hub), Some(9));
}

#[test]
fn a_request_to_be_paired_is_told_to_all() {
    let mut hub = hub_with(None, vec![]);
    connect(&mut hub, 0);
    let state = json("{\"paired_core_id\":\"b\"}");
    hub.on_registered(0, &registered("a"), state).unwrap();
    outcome(&mut hub, "com.roonlabs.pairing:1/subscribe_pairing", 7, KEY).unwrap();
    match outcome(&mut hub, "com.roonlabs.pairing:1/pair", 8, "{}") {
        Ok(Outcome::Answered(r, Some((CoreEvent::Nothing, Some((state, Parsed::RoonState)))))) => {
            assert_eq!(ids(&r), vec![vec![(0, 7)]]);
            assert_eq!(props(&r)[0].0, "CONTINUE Changed");
            assert_eq!(state.to_text(), "{\"paired_core_id\":\"a\",\"s\":1}");
        }
        other => panic!("{:?}", other),
    }
}

#[test]
fn one_connection_is_one_id() {
    let ids = id_of(3, 4);
    assert_eq!((ids.len(), ids.get(&3)), (1, Some(&4)));
}
