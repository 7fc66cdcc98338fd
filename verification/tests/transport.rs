use roon_api::moo::message::MooMessage;
use roon_api::moo::{LogLevel, Moo, Outgoing, Session};
use roon_api::transport::volume::{ChangeMode, Mute};
use roon_api::transport::{Control, Repeat, SectionKind, Seek, Settings, Transport};

fn connected() -> (Transport, Session) {
    let (moo, _, _, session) = Moo::new(0, LogLevel::Default);
    let mut transport = Transport::new();
    transport.set_moo(moo);
    (transport, session)
}

fn sent(out: Option<Outgoing>) -> (String, Option<String>) {
    let out = out.unwrap();
    let m = MooMessage::parse(&out.msg).unwrap().unwrap();
    assert_eq!(m.service.as_deref(), Some("com.roonlabs.transport:2"));
    assert_eq!(m.verb, "REQUEST");
    assert_eq!(m.request_number(), Some(out.req_id));
    (m.name, m.body.map(|b| b.to_text()))
}

fn is_sent(out: Option<Outgoing>, name: &str, body: &str) {
    assert_eq!(sent(out), (name.to_string(), Some(body.to_string())));
}

fn answer(req_id: usize, name: &str, body: &str) -> MooMessage {
    let data = format!(
        "MOO/1 CONTINUE {}\nRequest-Id: {}\nContent-Type: application/json\n\n{}",
        name, req_id, body
    );
    MooMessage::parse(&data).unwrap().unwrap()
}

fn kinds(t: &Transport, m: &MooMessage) -> Vec<(SectionKind, String)> {
    t.parse_msg(m).iter().map(|s| (s.kind, s.items.to_text())).collect()
}

#[test]
fn playback_is_asked_for() {
    let (t, s) = connected();
    is_sent(t.mute_all(&s, &Mute::Unmute), "mute_all", "{\"how\":\"unmute\"}");
    assert_eq!(sent(t.pause_all(&s)), ("pause_all".to_string(), None));
    is_sent(t.standby(&s, "o", None), "standby", "{\"output_id\":\"o\"}");
    is_sent(
        t.toggle_standby(&s, "o", Some("k")),
        "toggle_standby",
        "{\"control_key\":\"k\",\"output_id\":\"o\"}",
    );
    is_sent(
        t.convenience_switch(&s, "o", Some("k")),
        "convenience_switch",
        "{\"control_key\":\"k\",\"output_id\":\"o\"}",
    );
    is_sent(t.mute(&s, "o", &Mute::Mute), "mute", "{\"how\":\"mute\",\"output_id\":\"o\"}");
    is_sent(
        t.change_volume(&s, "o", &ChangeMode::RelativeStep, -3),
        "change_volume",
        "{\"how\":\"relative_step\",\"output_id\":\"o\",\"value\":-3}",
    );
    is_sent(
        t.change_volume(&s, "o", &ChangeMode::Absolute, 30),
        "change_volume",
        "{\"how\":\"absolute\",\"output_id\":\"o\",\"value\":30}",
    );
    is_sent(
        t.change_volume(&s, "o", &ChangeMode::Relative, 1),
        "change_volume",
        "{\"how\":\"relative\",\"output_id\":\"o\",\"value\":1}",
    );
    is_sent(
        t.seek(&s, "z", &Seek::Relative, -10),
        "seek",
        "{\"how\":\"relative\",\"seconds\":-10,\"zone_or_output_id\":\"z\"}",
    );
    is_sent(
        t.seek(&s, "z", &Seek::Absolute, 10),
        "seek",
        "{\"how\":\"absolute\",\"seconds\":10,\"zone_or_output_id\":\"z\"}",
    );
    for (control, name) in [
        (Control::Play, "play"),
        (Control::Pause, "pause"),
        (Control::PlayPause, "playpause"),
        (Control::Stop, "stop"),
        (Control::Previous, "previous"),
        (Control::Next, "next"),
    ] {
        is_sent(
            t.control(&s, "z", &control),
            "control",
            &format!("{{\"control\":\"{}\",\"zone_or_output_id\":\"z\"}}", name),
        );
    }
    is_sent(
        t.transfer_zone(&s, "a", "b"),
        "transfer_zone",
        "{\"from_zone_or_output_id\":\"a\",\"to_zone_or_output_id\":\"b\"}",
    );
    is_sent(
        t.group_outputs(&s, &vec!["a", "b"]),
        "group_outputs",
        "{\"output_ids\":[\"a\",\"b\"]}",
    );
    is_sent(t.ungroup_outputs(&s, &vec![]), "ungroup_outputs", "{\"output_ids\":[]}");
    is_sent(
        t.play_from_here(&s, "z", 7),
        "play_from_here",
        "{\"queue_item_id\":7,\"zone_or_output_id\":\"z\"}",
    );
}

#[test]
fn the_settings_of_a_zone_are_changed() {
    let (t, s) = connected();
    for (repeat, name) in
        [(Repeat::Off, "disabled"), (Repeat::All, "loop"), (Repeat::One, "loop_one")]
    {
        let settings = Settings { repeat, shuffle: true, auto_radio: false };
        is_sent(
            t.change_settings(&s, "z", settings),
            "change_settings",
            &format!(
                "{{\"auto_radio\":false,\"loop\":\"{}\",\"shuffle\":true,\
                 \"zone_or_output_id\":\"z\"}}",
                name
            ),
        );
    }
}

#[test]
fn nothing_is_asked_of_no_core() {
    let (_, s) = connected();
    let mut t = Transport::new();
    assert!(t.pause_all(&s).is_none());
    assert!(t.get_zones(&s).is_none());
    t.get_zones_sent(Some(3));
    assert_eq!(t.zone_req_id, None);
    assert!(t.subscribe_zones(&s).is_none());
    t.subscribe_zones_sent(Some((1, 2)));
    assert_eq!(t.zone_sub, None);
    assert!(t.unsubscribe_zones(&s).is_none());
}

#[test]
fn subscriptions_to_playback_begin_and_end() {
    let (mut t, s) = connected();
    let (out, key) = t.subscribe_zones(&s).unwrap();
    is_sent(Some(out), "subscribe_zones", "{\"subscription_key\":1}");
    assert_eq!(key, 1);
    t.subscribe_zones_sent(Some((0, key)));
    let (out, key) = t.subscribe_outputs(&s).unwrap();
    is_sent(Some(out), "subscribe_outputs", "{\"subscription_key\":1}");
    t.subscribe_outputs_sent(Some((1, key)));
    let (out, key) = t.subscribe_queue(&s, "z", 20).unwrap();
    is_sent(
        Some(out),
        "subscribe_queue",
        "{\"max_item_count\":20,\"subscription_key\":1,\"zone_or_output_id\":\"z\"}",
    );
    t.subscribe_queue_sent(Some((2, key)));
    assert_eq!((t.zone_sub, t.output_sub, t.queue_sub), (Some((0, 1)), Some((1, 1)), Some((2, 1))));
    is_sent(t.unsubscribe_zones(&s), "unsubscribe_zones", "{\"subscription_key\":1}");
    is_sent(t.unsubscribe_outputs(&s), "unsubscribe_outputs", "{\"subscription_key\":1}");
    is_sent(t.unsubscribe_queue(&s), "unsubscribe_queue", "{\"subscription_key\":1}");
    assert_eq!((t.zone_sub, t.output_sub, t.queue_sub), (None, None, None));
    assert!(t.unsubscribe_queue(&s).is_none());
}

#[test]
fn changes_of_zones_are_read_in_their_order() {
    let (mut t, _) = connected();
    t.subscribe_zones_sent(Some((4, 1)));
    let body = "{\"zones_removed\":[\"a\"],\"zones_seek_changed\":[1],\"zones_added\":[2],\
                \"zones_changed\":[3],\"zones\":[4]}";
    assert_eq!(
        kinds(&t, &answer(4, "Changed", body)),
        vec![
            (SectionKind::Zones, "[3]".to_string()),
            (SectionKind::Zones, "[2]".to_string()),
            (SectionKind::ZonesSeek, "[1]".to_string()),
            (SectionKind::ZonesRemoved, "[\"a\"]".to_string()),
        ]
    );
    assert_eq!(
        kinds(&t, &answer(4, "Subscribed", body)),
        vec![(SectionKind::Zones, "[4]".to_string())]
    );
    assert!(kinds(&t, &answer(4, "Unsubscribed", body)).is_empty());
    assert!(kinds(&t, &answer(5, "Changed", body)).is_empty());
    assert!(kinds(&t, &answer(4, "Changed", "{\"zones_added\":3}")).is_empty());
    assert!(kinds(&t, &answer(4, "Changed", "[]")).is_empty());
}

#[test]
fn outputs_and_queues_are_read() {
    let (mut t, s) = connected();
    t.subscribe_outputs_sent(Some((4, 1)));
    t.subscribe_queue_sent(Some((5, 1)));
    let body = "{\"outputs_removed\":[\"a\"],\"outputs_added\":[1],\"outputs_changed\":[2],\
                \"outputs\":[3],\"changes\":[4],\"items\":[5]}";
    assert_eq!(
        kinds(&t, &answer(4, "Changed", body)),
        vec![
            (SectionKind::Outputs, "[2]".to_string()),
            (SectionKind::Outputs, "[1]".to_string()),
            (SectionKind::OutputsRemoved, "[\"a\"]".to_string()),
        ]
    );
    assert_eq!(
        kinds(&t, &answer(4, "Subscribed", body)),
        vec![(SectionKind::Outputs, "[3]".to_string())]
    );
    assert_eq!(
        kinds(&t, &answer(5, "Changed", body)),
        vec![(SectionKind::QueueChanges, "[4]".to_string())]
    );
    assert_eq!(
        kinds(&t, &answer(5, "Subscribed", body)),
        vec![(SectionKind::Queue, "[5]".to_string())]
    );
    assert_eq!(sent(t.get_zones(&s)), ("get_zones".to_string(), None));
    assert_eq!(sent(t.get_outputs(&s)), ("get_outputs".to_string(), None));
    t.get_zones_sent(Some(6));
    t.get_outputs_sent(Some(6));
    assert_eq!(
        kinds(&t, &answer(6, "Success", "{\"zones\":[1],\"outputs\":[2]}")),
        vec![(SectionKind::Zones, "[1]".to_string()), (SectionKind::Outputs, "[2]".to_string())]
    );
    assert!(kinds(&t, &answer(6, "Changed", "{\"zones\":[1]}")).is_empty());
}
