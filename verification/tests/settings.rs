use roon_api::json::Json;
use roon_api::moo::message::MooMessage;
use roon_api::service::{Fault, Handler, Method};
use roon_api::settings::{
    Dropdown, Group, Integer, Label, Layout, OutputDropdown, OutputSetting, SerTrait, Settings,
    Textbox, Widget,
};
use roon_api::text::ParseIntError;
use roon_api::{Info, Parsed, RespProps, RoonApi};

fn roon() -> RoonApi {
    RoonApi::new(Info::new("com.x.y".to_string(), "Name", "1.0", None, "", None))
}

fn integer(min: &str, max: &str) -> Integer {
    Integer {
        title: "Integer",
        subtitle: None,
        min: min.to_string(),
        max: max.to_string(),
        setting: "integer",
        error: None,
    }
}

fn show(replies: &Vec<RespProps>) -> Vec<(String, Option<String>)> {
    replies.iter().map(|(hdr, body)| (hdr.join(" "), body.as_ref().map(|b| b.to_text()))).collect()
}

fn save(req_id: usize, body: &str) -> MooMessage {
    let data = format!(
        "MOO/1 REQUEST com.roonlabs.settings:1/save_settings\nRequest-Id: {}\n\
         Content-Type: application/json\n\n{}",
        req_id, body
    );
    MooMessage::parse(&data).unwrap().unwrap()
}

#[test]
fn numbers_out_of_range_are_found() {
    let n = integer("0", "100");
    assert_eq!(n.out_of_range("0"), Ok(false));
    assert_eq!(n.out_of_range("100"), Ok(false));
    assert_eq!(n.out_of_range("101"), Ok(true));
    assert_eq!(n.out_of_range("-1"), Ok(true));
    assert_eq!(n.out_of_range(""), Err(ParseIntError::Empty));
    assert_eq!(n.out_of_range("ten"), Err(ParseIntError::InvalidDigit));
    assert_eq!(n.out_of_range("3000000000"), Err(ParseIntError::PosOverflow));
    assert_eq!(n.out_of_range("-3000000000"), Err(ParseIntError::NegOverflow));
    assert_eq!(integer("x", "").out_of_range("1"), Err(ParseIntError::InvalidDigit));
    assert_eq!(integer("1", "").out_of_range("1"), Err(ParseIntError::Empty));
}

#[test]
fn a_layout_is_written() {
    let mut entry = Json::object();
    entry.set("title", Json::text("Enabled"));
    entry.set("value", Json::Bool(true));
    let widgets = vec![
        Widget::Dropdown(Dropdown {
            title: "Dropdown",
            subtitle: Some("sub".to_string()),
            values: vec![entry],
            setting: "state",
        }),
        Widget::Group(Group {
            title: "Group",
            subtitle: None,
            collapsable: true,
            items: vec![
                Widget::Integer(integer("0", "9")),
                Widget::Label(Label { title: "Label".to_string(), subtitle: None }),
            ],
        }),
        Widget::OutputDropdown(OutputDropdown { title: "Out", subtitle: None, setting: "out" }),
        Widget::Textbox(Textbox { title: "Text", subtitle: None, setting: "text" }),
    ];
    let out = OutputSetting { name: "n".to_string(), output_id: "o".to_string() };
    let layout = Layout { settings: out.clone(), widgets, has_error: false };
    assert_eq!(out.to_json().to_text(), "{\"name\":\"n\",\"output_id\":\"o\"}");
    assert_eq!(
        layout.to_json().to_text(),
        "{\"has_error\":false,\"layout\":[\
         {\"setting\":\"state\",\"subtitle\":\"sub\",\"title\":\"Dropdown\",\"type\":\"dropdown\",\
         \"values\":[{\"title\":\"Enabled\",\"value\":true}]},\
         {\"collapsable\":true,\"items\":[\
         {\"error\":null,\"max\":\"9\",\"min\":\"0\",\"setting\":\"integer\",\"subtitle\":null,\
         \"title\":\"Integer\",\"type\":\"integer\"},\
         {\"subtitle\":null,\"title\":\"Label\",\"type\":\"label\"}],\
         \"subtitle\":null,\"title\":\"Group\",\"type\":\"group\"},\
         {\"setting\":\"out\",\"subtitle\":null,\"title\":\"Out\",\"type\":\"zone\"},\
         {\"setting\":\"text\",\"subtitle\":null,\"title\":\"Text\",\"type\":\"string\"}],\
         \"values\":{\"name\":\"n\",\"output_id\":\"o\"}}"
    );
}

#[test]
fn the_settings_service_is_offered() {
    let roon = roon();
    let mut count: usize = 0;
    let (first, other) = Settings::new(&roon, &mut count);
    let (svc, settings) = Settings::new(&roon, &mut count);
    assert_eq!((first.state.number, other.number), (Some(0), 0));
    assert_eq!((svc.state.number, settings.number), (Some(1), 1));
    assert_eq!(svc.name, "com.roonlabs.settings:1");
    assert_eq!(svc.methods.len(), 4);
    assert!(matches!(svc.methods.get("get_settings"), Some(Handler::Call(Method::GetSettings))));
    assert!(matches!(svc.methods.get("save_settings"), Some(Handler::Call(Method::SaveSettings))));
    assert!(matches!(
        svc.methods.get("subscribe_settings"),
        Some(Handler::Subscribe(_, Method::StartSettings))
    ));
    assert!(matches!(
        svc.methods.get("unsubscribe_settings"),
        Some(Handler::Unsubscribe(_, None))
    ));
    let layout = Json::text("layout");
    let body = Some("{\"settings\":\"layout\"}".to_string());
    assert_eq!(
        show(&Settings::get_settings(&layout)),
        vec![("COMPLETE Success".to_string(), body.clone())]
    );
    assert_eq!(
        show(&Settings::start(&layout)),
        vec![("CONTINUE Subscribed".to_string(), body.clone())]
    );
    assert_eq!(
        show(&Settings::shown(Method::GetSettings, &layout)),
        vec![("COMPLETE Success".to_string(), body.clone())]
    );
    assert_eq!(
        show(&Settings::shown(Method::StartSettings, &layout)),
        vec![("CONTINUE Subscribed".to_string(), body)]
    );
}

#[test]
fn settings_are_saved() {
    let (mut svc, _) = Settings::new(&roon(), &mut 0);
    let state = &mut svc.state;
    let body = Some("{\"settings\":1}".to_string());
    let req = save(8, "{\"is_dry_run\":true,\"settings\":{\"values\":{\"a\":1}}}");
    let (dry, values) = Settings::begin_save(state, &req, 8).unwrap();
    assert!(dry);
    assert_eq!(values.to_text(), "{\"a\":1}");
    assert_eq!(state.save_req_id, None);
    assert_eq!(
        show(&Settings::save_settings(true, false, &Json::Uint(1))),
        vec![("COMPLETE Success".to_string(), body.clone())]
    );
    let req = save(9, "{\"is_dry_run\":false,\"settings\":{}}");
    let (dry, values) = Settings::begin_save(state, &req, 9).unwrap();
    assert!(!dry);
    assert_eq!(values, Json::Null);
    assert_eq!(state.save_req_id, Some(9));
    assert_eq!(
        show(&Settings::save_settings(false, false, &Json::Uint(1))),
        vec![
            ("COMPLETE Success".to_string(), body.clone()),
            ("subscribe_settings CONTINUE Changed".to_string(), body.clone()),
        ]
    );
    assert_eq!(
        show(&Settings::save_settings(false, true, &Json::Uint(1))),
        vec![("COMPLETE NotValid".to_string(), body)]
    );
    assert_eq!(Settings::begin_save(state, &save(1, "{}"), 1).err(), Some(Fault::Body));
    assert_eq!(Settings::begin_save(state, &save(1, "{\"is_dry_run\":1}"), 1).err(), Some(Fault::Body));
    assert_eq!(state.save_req_id, Some(9));
}

#[test]
fn the_user_is_told_of_saved_values() {
    let (mut svc, _) = Settings::new(&roon(), &mut 0);
    let state = &mut svc.state;
    let body = Json::parse("{\"settings\":{\"values\":{\"a\":1}}}").unwrap();
    assert!(matches!(Settings::parse_msg(state, 9, Some(&body)), Parsed::Nothing));
    state.save_req_id = Some(9);
    assert!(matches!(Settings::parse_msg(state, 8, Some(&body)), Parsed::Nothing));
    assert!(matches!(Settings::parse_msg(state, 9, None), Parsed::Nothing));
    match Settings::parse_msg(state, 9, Some(&body)) {
        Parsed::SettingsSaved(values) => assert_eq!(values.to_text(), "{\"a\":1}"),
        other => panic!("{:?}", other),
    }
    match Settings::parse_msg(state, 9, Some(&Json::Null)) {
        Parsed::SettingsSaved(values) => assert_eq!(values, Json::Null),
        other => panic!("{:?}", other),
    }
}
