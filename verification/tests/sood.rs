use roon_api::sood::datagram::{parse_datagram, write_datagram, Malformed, Message};
use roon_api::sood::{
    broadcast, core_found, core_to_try, is_service_response, next_scan, write_query, Iface, Ipv4, Sood,
    SERVICE_ID, SOOD_PORT,
};

fn ip(a: u8, b: u8, c: u8, d: u8) -> Ipv4 {
    Ipv4 { a, b, c, d }
}

fn iface(last: u8, opened: bool) -> Iface {
    Iface { ip: ip(192, 168, 0, last), netmask: ip(255, 255, 255, 0), loopback: false, opened }
}

fn read(buf: &[u8]) -> Message {
    parse_datagram("10.0.0.1", buf).unwrap().unwrap()
}

#[test]
fn a_query_is_written() {
    let buf = write_query(&vec![("query_service_id", "ab")], "t");
    let mut expected = b"SOOD\x02Q\x04_tid\x00\x01t\x10query_service_id\x00\x02".to_vec();
    expected.extend_from_slice(b"ab");
    assert_eq!(buf, expected);
    let buf = write_query(&vec![("_tid", "own")], "t");
    assert_eq!(buf, b"SOOD\x02Q\x04_tid\x00\x03own".to_vec());
}

#[test]
fn a_datagram_is_read_as_it_was_written() {
    let long = "x".repeat(300);
    let buf = write_datagram(b'R', &vec![("a", "\u{e4}"), ("b", ""), ("c", &long), ("a", "2")]);
    let m = read(&buf);
    assert_eq!((m.from.as_str(), m.msg_type), ("10.0.0.1", 'R'));
    assert_eq!(m.props.len(), 3);
    assert_eq!(m.props.get("a").unwrap(), "2");
    assert_eq!(m.props.get("b").unwrap(), "");
    assert_eq!(m.props.get("c").unwrap(), &long);
}

#[test]
fn other_datagrams_are_not_read() {
    for buf in [
        &b"HELLO"[..],
        b"SOOD\x01Q",
        b"SOOD\x02R\x00",
        b"SOOD\x02R\x05ab",
        b"SOOD\x02R\x01a\x00\x09",
    ] {
        assert!(matches!(parse_datagram("x", buf), Ok(None)), "{:?}", buf);
    }
}

#[test]
fn malformed_datagrams_are_told() {
    for buf in [
        &b""[..],
        b"SOOD",
        b"SOOD\x02",
        b"SOOD\x02R\x01a",
        b"SOOD\x02R\x01a\x00",
        b"SOOD\x02R\x01a\x00\x01",
    ] {
        assert_eq!(parse_datagram("x", buf).err(), Some(Malformed::Short), "{:?}", buf);
    }
    for buf in [
        &b"SOO\xff\x02"[..],
        b"SOOD\x02\x80",
        b"SOOD\x02R\x01\xff\x00\x00",
        b"SOOD\x02R\x01a\x00\x01\xff",
    ] {
        assert_eq!(parse_datagram("x", buf).err(), Some(Malformed::Text), "{:?}", buf);
    }
}

#[test]
fn the_broadcast_address_has_all_host_bits() {
    assert_eq!(broadcast(ip(192, 168, 1, 17), ip(255, 255, 255, 0)), ip(192, 168, 1, 255));
    assert_eq!(broadcast(ip(10, 1, 2, 3), ip(255, 240, 0, 0)), ip(10, 15, 255, 255));
    assert_eq!(broadcast(ip(10, 1, 2, 3), ip(255, 255, 255, 255)), ip(10, 1, 2, 3));
}

#[test]
fn interfaces_come_and_go() {
    let mut sood = Sood::new();
    let loopback = Iface { loopback: true, ..iface(99, true) };
    assert!(sood.init_socket(&vec![loopback, iface(1, true), iface(2, true)]));
    assert_eq!(sood.multicast.len(), 2);
    assert_eq!(sood.iface_seq, 1);
    assert!(!sood.init_socket(&vec![iface(2, false), iface(1, false)]));
    assert_eq!(sood.multicast.len(), 2);
    assert!(sood.init_socket(&vec![iface(2, false)]));
    assert_eq!(sood.multicast.len(), 1);
    assert!(sood.listens_on(ip(192, 168, 0, 2)));
    assert!(!sood.listens_on(ip(192, 168, 0, 1)));
    assert_eq!(sood.multicast[0].broadcast, ip(192, 168, 0, 255));
    assert!(sood.init_socket(&vec![iface(2, false), iface(3, false)]));
    assert_eq!(sood.multicast.len(), 1);
    assert!(sood.listen_iface(ip(1, 2, 3, 4), ip(255, 0, 0, 0), true));
    assert!(!sood.listen_iface(ip(1, 2, 3, 4), ip(255, 0, 0, 0), false));
}

#[test]
fn a_query_goes_to_the_group_and_to_each_network() {
    let mut sood = Sood::new();
    sood.init_socket(&vec![iface(1, true)]);
    let group = ip(239, 255, 90, 90);
    let targets = sood.targets();
    assert_eq!(targets.len(), 3);
    assert_eq!(targets[0].from, Some(ip(192, 168, 0, 1)));
    assert_eq!((targets[0].to, targets[0].port, targets[0].required), (group, SOOD_PORT, true));
    assert_eq!(targets[1].from, Some(ip(192, 168, 0, 1)));
    assert_eq!((targets[1].to, targets[1].required), (ip(192, 168, 0, 255), false));
    assert_eq!(targets[2].from, None);
    assert_eq!((targets[2].to, targets[2].required), (group, true));
}

#[test]
fn a_query_is_given_an_id() {
    let sood = Sood::new();
    let (first, targets) = sood.query(&vec![("query_service_id", SERVICE_ID)]);
    let (second, _) = sood.query(&vec![("query_service_id", SERVICE_ID)]);
    assert_eq!(targets.len(), 1);
    let (a, b) = (read(&first), read(&second));
    assert_eq!(a.msg_type, 'Q');
    assert_eq!(a.props.get("query_service_id").unwrap(), SERVICE_ID);
    let (a, b) = (a.props.get("_tid").unwrap(), b.props.get("_tid").unwrap());
    assert_eq!(a.len(), 36);
    assert_eq!(a.as_bytes()[14], b'4');
    assert!(a.chars().enumerate().all(|(i, c)| {
        if [8, 13, 18, 23].contains(&i) {
            c == '-'
        } else {
            c.is_ascii_digit() || ('a'..='f').contains(&c)
        }
    }));
    assert_ne!(a, b);
    let (own, _) = sood.query(&vec![("_tid", "x")]);
    assert_eq!(read(&own).props.get("_tid").unwrap(), "x");
}

#[test]
fn cores_are_looked_for_less_often_after_a_while() {
    let mut count: u32 = 0;
    let due: Vec<bool> = (0..14).map(|_| next_scan(&mut count, false)).collect();
    let expected: Vec<bool> = (0..14).map(|i| i < 6 || i == 6 || i == 12).collect();
    assert_eq!(due, expected);
    assert_eq!(count, 14);
    let mut count: u32 = 0;
    assert!(!next_scan(&mut count, true));
}

#[test]
fn a_core_that_announces_itself_is_found() {
    let props = vec![
        ("service_id", SERVICE_ID),
        ("unique_id", "u"),
        ("http_port", "9330"),
        ("name", "n"),
    ];
    let mut m = read(&write_datagram(b'R', &props));
    let found = is_service_response(SERVICE_ID, &mut m);
    assert_eq!(found, Some(("u".to_string(), "9330".to_string())));
    assert_eq!(m.props.len(), 1);
    assert!(m.props.contains_key("name"));
    let mut m = read(&write_datagram(b'Q', &props));
    assert_eq!(is_service_response(SERVICE_ID, &mut m), None);
    let mut m = read(&write_datagram(b'R', &props));
    assert_eq!(is_service_response("other", &mut m), None);
    assert_eq!(m.props.len(), 1);
    let mut m = read(&write_datagram(b'R', &vec![("service_id", SERVICE_ID), ("http_port", "1")]));
    assert_eq!(is_service_response(SERVICE_ID, &mut m), None);
    assert!(m.props.contains_key("http_port"));
    assert!(!m.props.contains_key("service_id"));
    let mut m = read(&write_datagram(b'R', &vec![("unique_id", "u"), ("http_port", "1")]));
    assert_eq!(is_service_response(SERVICE_ID, &mut m), None);
    assert_eq!(m.props.len(), 2);
}

#[test]
fn a_core_is_tried_where_it_announces_itself() {
    let announce = |id| {
        let props =
            vec![("service_id", SERVICE_ID), ("unique_id", id), ("http_port", "9330")];
        read(&write_datagram(b'R', &props))
    };
    let mut conns = vec!["a".to_string()];
    let r = core_to_try(&mut announce("b"), &mut conns);
    let to_try = Some(("10.0.0.1".to_string(), "9330".to_string()));
    assert_eq!(r, Some(("b".to_string(), to_try)));
    assert_eq!(core_to_try(&mut announce("a"), &mut conns), Some(("a".to_string(), None)));
    assert_eq!(core_to_try(&mut announce("b"), &mut conns), Some(("b".to_string(), None)));
    let mut other = read(&write_datagram(b'R', &vec![("unique_id", "c"), ("http_port", "1")]));
    assert_eq!(core_to_try(&mut other, &mut conns), None);
    assert_eq!(conns, vec!["a".to_string(), "b".to_string()]);
}

#[test]
fn each_core_is_connected_once() {
    let mut conns = Vec::new();
    assert!(core_found(&mut conns, "a"));
    assert!(core_found(&mut conns, "b"));
    assert!(!core_found(&mut conns, "a"));
    assert_eq!(conns, vec!["a".to_string(), "b".to_string()]);
}
