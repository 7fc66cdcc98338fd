use roon_api::json::Json;
use roon_api::moo::frame::write_frame;
use roon_api::moo::message::{MooMessage, Unreadable};
use roon_api::moo::{
    endpoint, next_id, request, write_endpoint, write_received_line, ContentType, LogLevel, Moo,
    MooReceiver, MooSender, ReceiveError, Session,
};

fn parse(data: &str) -> MooMessage {
    MooMessage::parse(data).unwrap().unwrap()
}

fn connection(level: LogLevel) -> (Moo, MooSender, MooReceiver, Session) {
    Moo::new(3, level)
}

#[test]
fn a_request_is_read() {
    let m = parse(
        "MOO/1 REQUEST com.roonlabs.ping:1/ping\nRequest-Id: 12\nLogging: quiet\nX:y: z\n\n",
    );
    assert_eq!(m.verb, "REQUEST");
    assert_eq!(m.service.as_deref(), Some("com.roonlabs.ping:1"));
    assert_eq!(m.name, "ping");
    assert_eq!(m.request_id.as_deref(), Some("12"));
    assert_eq!(m.request_number(), Some(12));
    assert_eq!(m.content_type, None);
    assert_eq!(m.content_length, None);
    assert_eq!(m.headers.get("Logging").map(|s| s.as_str()), Some("quiet"));
    assert_eq!(m.headers.get("X").map(|s| s.as_str()), Some("y: z"));
    assert_eq!(m.body, None);
    assert_eq!(
        m.to_json().to_text(),
        "{\"headers\":{\"Logging\":\"quiet\",\"X\":\"y: z\"},\"name\":\"ping\",\
         \"request_id\":\"12\",\"service\":\"com.roonlabs.ping:1\",\"verb\":\"REQUEST\"}"
    );
}

#[test]
fn an_answer_with_a_body_is_read() {
    let m = parse(
        "MOO/1 COMPLETE Success\nRequest-Id: 0\nContent-Length: 15\n\
         Content-Type: application/json\n\n{\"core_id\":\"c\"}",
    );
    assert_eq!(m.verb, "COMPLETE");
    assert_eq!(m.service, None);
    assert_eq!(m.name, "Success");
    assert_eq!(m.content_type.as_deref(), Some("application/json"));
    assert_eq!(m.content_length, Some(15));
    assert_eq!(m.body_text("core_id"), Some("c"));
    assert_eq!(m.body_member("x"), None);
    assert_eq!(
        m.to_json().to_text(),
        "{\"body\":{\"core_id\":\"c\"},\"content_length\":15,\
         \"content_type\":\"application/json\",\"headers\":{},\"name\":\"Success\",\
         \"request_id\":\"0\",\"verb\":\"COMPLETE\"}"
    );
}

#[test]
fn separators_before_names_are_skipped() {
    let m = parse("MOO/12 REQUEST //svc/a/b\n::Name:   v\n\n");
    assert_eq!(m.service.as_deref(), Some("svc"));
    assert_eq!(m.name, "a/b");
    assert_eq!(m.headers.get("Name").map(|s| s.as_str()), Some("v"));
    assert_eq!(m.request_number(), None);
}

#[test]
fn what_is_no_message_is_not_read() {
    for data in [
        "",
        "MOO/ REQUEST a/b\n\n",
        "MOO/1 request a/b\n\n",
        "MOO/1 REQUEST\n\n",
        "MOO/1  REQUEST a/b\n\n",
        "XMOO/1 REQUEST a/b\n\n",
        "MOO/1 REQUEST ab\n\n",
        "MOO/1 REQUEST /ab\n\n",
        "MOO/1 REQUEST a/b",
        "MOO/1 REQUEST a/b\nRequest-Id: 1",
        "MOO/1 REQUEST a/b\nno header\n\n",
        "MOO/1 REQUEST a/b\n:no header\n\n",
    ] {
        assert!(matches!(MooMessage::parse(data), Ok(None)), "{:?}", data);
    }
}

#[test]
fn what_cannot_be_read_is_told() {
    let r = MooMessage::parse("MOO/1 COMPLETE S\nContent-Length: x\n\n");
    assert!(matches!(r, Err(Unreadable::ContentLength)));
    let r = MooMessage::parse("MOO/1 COMPLETE S\nContent-Type: application/json\n\n{\n}");
    assert!(matches!(r, Err(Unreadable::Body)));
    let r = MooMessage::parse("MOO/1 COMPLETE S\nContent-Type: application/json\n\n");
    assert!(matches!(r, Err(Unreadable::Body)));
}

#[test]
fn of_several_lines_of_a_body_the_last_counts() {
    let m = parse("MOO/1 COMPLETE S\nContent-Type: application/json\n\n1\n2");
    assert_eq!(m.body, Some(Json::Uint(2)));
    let m = parse("MOO/1 COMPLETE S\nContent-Type: image/jpeg\n\n\u{e4}{\nx");
    assert_eq!(m.body, None);
    let data = "MOO/1 COMPLETE S\nContent-Type: application/json\n\n1\n2";
    let (head, lines) = MooMessage::parse_head(data).unwrap().unwrap();
    assert_eq!(lines, vec!["1", "2"]);
    let m = head.add_documents(vec![Some(Json::Uint(1)), Some(Json::Uint(2))]).unwrap();
    assert_eq!(m.body, Some(Json::Uint(2)));
}

#[test]
fn a_document_that_is_missing_spoils_the_body() {
    let (head, _) = MooMessage::parse_head("MOO/1 COMPLETE S\n\n").unwrap().unwrap();
    assert!(matches!(head.add_documents(vec![Some(Json::Null), None]), Err(Unreadable::Body)));
}

#[test]
fn messages_are_written() {
    let body = Json::parse("{\"key\":\"\u{e4}\"}").unwrap();
    let (msg, log) = Moo::create_msg_string(7, &["CONTINUE", "Changed"], Some(&body));
    assert_eq!(
        msg,
        "MOO/1 CONTINUE Changed\nRequest-Id: 7\nContent-Length: 12\n\
         Content-Type: application/json\n\n{\"key\":\"\u{e4}\"}"
    );
    assert_eq!(log, "-> CONTINUE 7 Changed {\"key\":\"\u{e4}\"}");
    let (msg, log) = Moo::create_msg_string(0, &["COMPLETE", "Success", "x"], None);
    assert_eq!(msg, "MOO/1 COMPLETE Success\nRequest-Id: 0\n\n");
    assert_eq!(log, "-> COMPLETE 0 Success");
    let (msg, log) = write_frame(1, "COMPLETE", "S", Some("x"));
    assert_eq!(
        msg,
        "MOO/1 COMPLETE S\nRequest-Id: 1\nContent-Length: 1\nContent-Type: application/json\n\nx"
    );
    assert_eq!(log, "-> COMPLETE 1 S x");
}

#[test]
fn a_message_is_read_as_it_was_written() {
    let body = Json::parse("{\"a\":[1,{\"b\":\"x\\ny\"}],\"c\":-3}").unwrap();
    let (msg, _) = Moo::create_msg_string(42, &["REQUEST", "svc:1/name/more"], Some(&body));
    let m = parse(&msg);
    assert_eq!(m.verb, "REQUEST");
    assert_eq!(m.service.as_deref(), Some("svc:1"));
    assert_eq!(m.name, "name/more");
    assert_eq!(m.request_number(), Some(42));
    assert_eq!(m.content_length, Some(body.to_text().len()));
    assert_eq!(m.body, Some(body));
    let (msg, _) = Moo::create_msg_string(1, &["COMPLETE", "Success"], None);
    let m = parse(&msg);
    assert_eq!((m.verb.as_str(), m.name.as_str(), m.body), ("COMPLETE", "Success", None));
}

#[test]
fn requests_take_the_next_id() {
    let (moo, _, _, mut session) = connection(LogLevel::Default);
    let out = moo.send_req(&session, "svc/a", None);
    assert_eq!(out.req_id, 0);
    assert_eq!(out.msg, "MOO/1 REQUEST svc/a\nRequest-Id: 0\n\n");
    assert_eq!(out.log.as_deref(), Some("-> REQUEST 0 svc/a"));
    moo.req_sent(&mut session);
    let out = moo.send_req(&session, "svc/b", None);
    assert_eq!(out.req_id, 1);
    let (moo, _, _, session) = connection(LogLevel::Nothing);
    assert_eq!(moo.send_req(&session, "svc/a", None).log, None);
    let out = moo.send_msg_string(5, ("m".to_string(), "l".to_string()));
    assert_eq!((out.req_id, out.msg.as_str(), out.log), (5, "m", None));
}

#[test]
fn subscriptions_have_a_key() {
    let (moo, _, _, session) = connection(LogLevel::All);
    let (out, key) = moo.send_sub_req(&session, "svc", "zones", None);
    assert_eq!(key, 1);
    let m = parse(&out.msg);
    assert_eq!(m.name, "subscribe_zones");
    assert_eq!(m.body.unwrap().to_text(), "{\"subscription_key\":1}");
    let args = Json::parse("{\"max\":3}").unwrap();
    let (out, key) = moo.send_sub_req(&session, "svc", "queue", Some(args));
    assert_eq!(key, 1);
    assert_eq!(parse(&out.msg).body.unwrap().to_text(), "{\"max\":3,\"subscription_key\":1}");
    let out = moo.send_unsub_req(&session, "svc", "queue", 9);
    let m = parse(&out.msg);
    assert_eq!(m.name, "unsubscribe_queue");
    assert_eq!(m.body.unwrap().to_text(), "{\"subscription_key\":9}");
}

#[test]
fn nothing_is_asked_without_a_connection() {
    let (moo, _, _, session) = connection(LogLevel::All);
    assert!(request(&None, &session, "svc", "/a", None).is_none());
    let out = request(&Some(moo), &session, "svc", "/a", Some(&Json::Null)).unwrap();
    assert_eq!(out.log.as_deref(), Some("-> REQUEST 0 svc/a null"));
}

#[test]
fn short_headers_are_not_sent() {
    let (_, sender, _, session) = connection(LogLevel::All);
    assert_eq!(sender.send_msg(1, &["COMPLETE"], None), None);
    assert_eq!(sender.send_msg(1, &[], None), None);
    let (msg, log) = sender.send_msg(1, &["COMPLETE", "S"], None).unwrap();
    assert_eq!(msg, "MOO/1 COMPLETE S\nRequest-Id: 1\n\n");
    assert_eq!(log, "-> COMPLETE 1 S");
    let (id, msg, _) = sender.send_req(&session, "svc/a", None);
    assert_eq!((id, msg.as_str()), (0, "MOO/1 REQUEST svc/a\nRequest-Id: 0\n\n"));
    assert_eq!(sender.send_msg_string("a\u{e4}"), vec![0x61, 0xc3, 0xa4]);
}

#[test]
fn quiet_requests_are_not_logged() {
    let (_, sender, receiver, mut session) = connection(LogLevel::Default);
    let quiet = "MOO/1 REQUEST svc/a\nRequest-Id: 5\nLogging: quiet\n\n";
    let (m, log) = receiver.receive_response(&mut session, quiet).unwrap();
    assert_eq!((m.name.as_str(), log), ("a", None));
    assert_eq!(session.quiet_reqs, vec![5]);
    assert!(!sender.msg_sent(&mut session, 5, "CONTINUE"));
    assert!(sender.msg_sent(&mut session, 6, "CONTINUE"));
    assert_eq!(session.quiet_reqs, vec![5]);
    assert!(!sender.msg_sent(&mut session, 5, "COMPLETE"));
    assert!(session.quiet_reqs.is_empty());
    assert!(sender.msg_sent(&mut session, 5, "COMPLETE"));
    assert_eq!(session.req_id, 0);
    assert!(sender.msg_sent(&mut session, 0, "REQUEST"));
    assert_eq!(session.req_id, 1);
}

#[test]
fn at_level_all_quiet_requests_are_logged() {
    let (_, sender, receiver, mut session) = connection(LogLevel::All);
    let quiet = "MOO/1 REQUEST svc/a\nRequest-Id: 5\nLogging: quiet\n\n";
    let (_, log) = receiver.receive_response(&mut session, quiet).unwrap();
    assert_eq!(log.as_deref(), Some("<- REQUEST 5 svc/a"));
    assert!(session.quiet_reqs.is_empty());
    assert!(sender.msg_sent(&mut session, 5, "COMPLETE"));
    let (_, sender, receiver, mut session) = connection(LogLevel::Nothing);
    let (_, log) = receiver.receive_response(&mut session, quiet).unwrap();
    assert_eq!(log, None);
    assert_eq!(session.quiet_reqs, vec![5]);
    assert!(!sender.msg_sent(&mut session, 6, "COMPLETE"));
}

#[test]
fn messages_that_come_in_are_logged() {
    let (_, _, receiver, mut session) = connection(LogLevel::Default);
    let data = "MOO/1 COMPLETE Success\nRequest-Id: 007\nContent-Length: 2\n\
                Content-Type: application/json\n\n{}";
    let (m, log) = receiver.receive_response(&mut session, data).unwrap();
    assert_eq!(log.as_deref(), Some("<- COMPLETE 7 Success {}"));
    assert_eq!(write_received_line(&m, 8, "x"), "<- COMPLETE 8 Success x");
    let data = "MOO/1 COMPLETE Success\nRequest-Id: 7\nContent-Length: 2\n\nab";
    let (_, log) = receiver.receive_response(&mut session, data).unwrap();
    assert_eq!(log.as_deref(), Some("<- COMPLETE 7 Success null"));
}

#[test]
fn what_is_not_received_is_told() {
    let (_, _, receiver, mut session) = connection(LogLevel::Default);
    let r = receiver.receive_response(&mut session, "x");
    assert_eq!(r.err(), Some(ReceiveError::ConnectionClosed));
    let r = receiver.receive_response(&mut session, "MOO/1 COMPLETE S\n\n");
    assert_eq!(r.err(), Some(ReceiveError::Unreadable(Unreadable::RequestId)));
    let r = receiver.receive_response(&mut session, "MOO/1 COMPLETE S\nRequest-Id: a\n\n");
    assert_eq!(r.err(), Some(ReceiveError::Unreadable(Unreadable::RequestId)));
    let r = receiver.receive_response(&mut session, "MOO/1 COMPLETE S\nContent-Length: a\n\n");
    assert_eq!(r.err(), Some(ReceiveError::Unreadable(Unreadable::ContentLength)));
}

#[test]
fn a_core_is_reached_at_its_address() {
    assert_eq!(write_endpoint("10.0.0.2", "9330"), "ws://10.0.0.2:9330/api");
    assert_eq!(endpoint("10.0.0.2", "9330").as_deref(), Some("ws://10.0.0.2:9330/api"));
    assert_eq!(endpoint("10.0.0.2", "80").as_deref(), Some("ws://10.0.0.2/api"));
    assert_eq!(endpoint("10.0.0.2", "http"), None);
    assert_eq!(endpoint("10.0.0.2", "99999"), None);
}

#[test]
fn bytes_that_are_text_are_received() {
    let (_, sender, receiver, mut session) = connection(LogLevel::Nothing);
    let body = Json::parse("{\"a\":\"\u{e4}\"}").unwrap();
    let (msg, _) = Moo::create_msg_string(4, &["COMPLETE", "Success"], Some(&body));
    let bytes = sender.send_msg_string(&msg);
    let (m, content, log) = receiver.receive_bytes(&mut session, &bytes).unwrap();
    assert_eq!((m.name.as_str(), m.body), ("Success", Some(body)));
    assert!(matches!(content, ContentType::Json));
    assert_eq!(log, None);
    let (m, content, _) =
        receiver.receive_bytes(&mut session, b"MOO/1 COMPLETE S\nRequest-Id: 1\n\nabc").unwrap();
    assert_eq!(m.request_number(), Some(1));
    assert!(matches!(content, ContentType::Nothing));
}

#[test]
fn images_are_received() {
    let (_, _, receiver, mut session) = connection(LogLevel::Default);
    let image = [0xff, 0xd8, 10, 10, 0];
    let mut data =
        b"MOO/1 COMPLETE Success\nRequest-Id: 8\nContent-Type: image/jpeg\nContent-Length: 5\n\n"
            .to_vec();
    data.extend_from_slice(&image);
    let (m, content, log) = receiver.receive_bytes(&mut session, &data).unwrap();
    assert_eq!(m.request_number(), Some(8));
    assert_eq!(m.body, None);
    assert_eq!(log.as_deref(), Some("<- COMPLETE 8 Success null"));
    assert!(matches!(content, ContentType::Jpeg(bytes) if bytes == image));
    let data = b"MOO/1 COMPLETE S\nRequest-Id: 8\nContent-Type: image/png\n\nabc";
    let (_, content, _) = receiver.receive_bytes(&mut session, data).unwrap();
    assert!(matches!(content, ContentType::Png(bytes) if bytes == b"abc"));
}

#[test]
fn other_bytes_are_not_received() {
    let (_, _, receiver, mut session) = connection(LogLevel::Default);
    for data in [
        &b"\xff"[..],
        b"MOO/1 COMPLETE S\nRequest-Id: 8\n\n\xff",
        b"MOO/1 COMPLETE \xff\nContent-Type: image/png\n\n",
        b"MOO/1 COMPLETE S\nContent-Length: x\nContent-Type: image/png\n\n\xff",
        b"",
    ] {
        let r = receiver.receive_bytes(&mut session, data);
        assert_eq!(r.err(), Some(ReceiveError::ConnectionClosed), "{:?}", data);
    }
    let r = receiver.receive_bytes(
        &mut session,
        b"MOO/1 COMPLETE S\nContent-Type: image/png\n\n\xff",
    );
    assert_eq!(r.err(), Some(ReceiveError::Unreadable(Unreadable::RequestId)));
}

#[test]
fn connections_have_ids_of_their_own() {
    let mut count: usize = 0;
    let ids: Vec<usize> = (0..3).map(|_| next_id(&mut count)).collect();
    assert_eq!((ids, count), (vec![0, 1, 2], 3));
    let (moo, sender, receiver, session) = Moo::new(next_id(&mut count), LogLevel::Default);
    assert_eq!((moo.id, sender.id, receiver.id, session.req_id), (3, 3, 3, 0));
    assert!(session.quiet_reqs.is_empty());
}

#[test]
fn the_head_of_a_message_is_read_whatever_its_body_holds() {
    let body = Json::parse("{\"volume\":0.1}").unwrap();
    let (msg, _) = Moo::create_msg_string(7, &["REQUEST", "svc:1/set"], Some(&body));
    let (head, lines) = MooMessage::parse_head(&msg).unwrap().unwrap();
    assert_eq!((head.verb.as_str(), head.name.as_str()), ("REQUEST", "set"));
    assert_eq!(head.service.as_deref(), Some("svc:1"));
    assert_eq!(head.request_id.as_deref(), Some("7"));
    assert_eq!(head.content_type.as_deref(), Some("application/json"));
    assert_eq!(head.content_length, Some(14));
    assert!(head.body.is_none());
    assert_eq!(lines, vec!["{\"volume\":0.1}"]);
    let (msg, _) = Moo::create_msg_string(8, &["COMPLETE", "Success"], None);
    let (head, lines) = MooMessage::parse_head(&msg).unwrap().unwrap();
    assert_eq!((head.name.as_str(), head.content_length), ("Success", None));
    assert!(lines.is_empty());
}
