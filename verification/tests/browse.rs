use roon_api::browse::{
    Action, Browse, BrowseOpts, BrowseResult, InputPrompt, Item, List, LoadOpts, LoadResult,
};
use roon_api::moo::message::MooMessage;
use roon_api::moo::{LogLevel, Moo};
use roon_api::{Parsed, RoonApiError};

fn answer(req_id: usize, name: &str) -> MooMessage {
    let data = format!("MOO/1 COMPLETE {}\nRequest-Id: {}\n\n", name, req_id);
    MooMessage::parse(&data).unwrap().unwrap()
}

fn result() -> BrowseResult {
    BrowseResult { action: Action::List, item: None, list: None, message: None, is_error: None }
}

#[test]
fn steps_are_asked_for() {
    let (moo, _, _, session) = Moo::new(0, LogLevel::Default);
    let mut browse = Browse::new();
    let opts = BrowseOpts {
        pop_all: true,
        multi_session_key: Some("0".to_string()),
        pop_levels: Some(2),
        ..Default::default()
    };
    assert!(browse.browse(&session, &opts).is_none());
    browse.set_moo(moo);
    let out = browse.browse(&session, &opts).unwrap();
    let m = MooMessage::parse(&out.msg).unwrap().unwrap();
    assert_eq!(m.service.as_deref(), Some("com.roonlabs.browse:1"));
    assert_eq!(m.name, "browse");
    assert_eq!(
        m.body.unwrap().to_text(),
        "{\"hierarchy\":\"browse\",\"input\":null,\"item_key\":null,\
         \"multi_session_key\":\"0\",\"pop_all\":true,\"pop_levels\":2,\"refresh_list\":false,\
         \"set_display_offset\":null,\"zone_or_output_id\":null}"
    );
    let opts =
        LoadOpts { count: Some(8), offset: 16, set_display_offset: 16, ..Default::default() };
    let out = browse.load(&session, &opts).unwrap();
    let m = MooMessage::parse(&out.msg).unwrap().unwrap();
    assert_eq!(m.name, "load");
    assert_eq!(
        m.body.unwrap().to_text(),
        "{\"count\":8,\"hierarchy\":\"browse\",\"level\":null,\"multi_session_key\":null,\
         \"offset\":16,\"set_display_offset\":16}"
    );
}

#[test]
fn an_answer_comes_with_its_session() {
    let mut browse = Browse::default();
    browse.req_sent(3, Some("s".to_string()));
    browse.req_sent(4, None);
    let r = browse.parse_msg(&answer(9, "Success"), Some(result()), None);
    assert!(matches!(r, Parsed::Nothing));
    match browse.parse_msg(&answer(3, "Success"), Some(result()), None) {
        Parsed::BrowseResult(r, key) => {
            assert_eq!(r.action, Action::List);
            assert_eq!(key.as_deref(), Some("s"));
        }
        other => panic!("{:?}", other),
    }
    let r = browse.parse_msg(&answer(3, "Success"), Some(result()), None);
    assert!(matches!(r, Parsed::Nothing));
    let load = LoadResult { items: vec![Item::default()], offset: 5, list: List::default() };
    match browse.parse_msg(&answer(4, "Success"), None, Some(load)) {
        Parsed::LoadResult(r, key) => {
            assert_eq!((r.offset, r.items.len()), (5, 1));
            assert_eq!(key, None);
        }
        other => panic!("{:?}", other),
    }
    assert!(browse.session_keys.is_empty());
}

#[test]
fn failed_steps_are_told() {
    let mut browse = Browse::new();
    for (name, expected) in [
        ("InvalidItemKey", "BrowseInvalidItemKey((7, Some(\"s\")))"),
        ("InvalidLevels", "BrowseInvalidLevels((7, Some(\"s\")))"),
        ("UnexpectedError", "BrowseUnexpectedError((7, Some(\"s\")))"),
        ("ZoneNotFound", "BrowseZoneNotFound((7, Some(\"s\")))"),
    ] {
        browse.req_sent(7, Some("s".to_string()));
        match browse.parse_msg(&answer(7, name), None, None) {
            Parsed::Error(e) => assert_eq!(format!("{:?}", e), expected),
            other => panic!("{:?}", other),
        }
    }
    browse.req_sent(7, None);
    assert!(matches!(browse.parse_msg(&answer(7, "Other"), None, None), Parsed::Nothing));
    browse.req_sent(7, None);
    let r = browse.parse_msg(&answer(7, "ZoneNotFound"), None, None);
    assert!(matches!(r, Parsed::Error(RoonApiError::BrowseZoneNotFound((7, None)))));
}

#[test]
fn what_is_not_said_of_a_list_is_empty() {
    let list = List::default();
    assert_eq!((list.title.as_str(), list.count, list.level), ("", 0, 0));
    let prompt = InputPrompt::default();
    assert_eq!((prompt.prompt.as_str(), prompt.action.as_str()), ("", ""));
    assert!(Item::default().item_key.is_none());
}
