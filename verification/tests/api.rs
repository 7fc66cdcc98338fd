use roon_api::api::{load_value, read_and_parse, save_value};
use roon_api::info::{parse_author, trim};
use roon_api::json::Json;
use roon_api::logger::Logger;
use roon_api::service::Method;
use roon_api::{Info, RoonApi, SvcSpec, ROON_API_VERSION};

fn info() -> Info {
    Info::new("com.x.y".to_string(), "Name", "1.0", None, "e@x", Some("http://x"))
}

#[test]
fn an_extension_tells_about_itself() {
    let api = RoonApi::new(info());
    assert_eq!(
        api.reg_info.to_json().to_text(),
        "{\"display_name\":\"Name\",\"display_version\":\"1.0\",\"email\":\"e@x\",\
         \"extension_id\":\"com.x.y\",\"provided_services\":[],\"publisher\":null,\
         \"required_services\":[],\"website\":\"http://x\"}"
    );
    assert!(api.sood_conns.is_empty());
    assert!(api.pairing.paired_core.is_none());
    assert!(api.with_pairing);
    let other = RoonApi::without_pairing(info());
    assert!(!other.with_pairing);
    assert_eq!(other.reg_info.to_json().to_text(), api.reg_info.to_json().to_text());
    assert_eq!(ROON_API_VERSION, "0.2.0");
}

#[test]
fn the_extension_registers_services() {
    let api = RoonApi::new(info());
    let mut spec = SvcSpec::new("svc:1");
    spec.add_method("a", Method::User(1));
    let svc = api.register_service(spec);
    assert_eq!((svc.name, svc.methods.len(), svc.sub_types.len()), ("svc:1", 1, 0));
    assert_eq!(svc.state.number, None);
    let mut count: usize = 0;
    let (first, one) = api.register_shared(SvcSpec::new("svc:2"), &mut count);
    let (second, two) = api.register_shared(SvcSpec::new("svc:2"), &mut count);
    assert_eq!((first.state.number, second.state.number), (Some(one), Some(two)));
    assert_eq!((one, two, count), (0, 1, 2));
}

#[test]
fn a_package_tells_about_the_extension() {
    let info = Info::of_package(
        "com.theappgineer",
        "Rust Roon API",
        "pkg",
        " Jo Doe <jo@doe.org>:Al <al@x>",
        "",
        "http://repo",
        "0.1.0",
    )
    .unwrap();
    assert_eq!(info.extension_id, "com.theappgineer.pkg");
    assert_eq!(info.display_name, "Rust Roon API");
    assert_eq!(info.display_version, "0.1.0");
    assert_eq!(info.publisher, Some("Jo Doe"));
    assert_eq!(info.email, "jo@doe.org");
    assert_eq!(info.website, Some("http://repo"));
    let info = Info::of_package("p", "d", "n", "", "http://home", "http://repo", "v").unwrap();
    assert_eq!((info.publisher, info.email, info.website), (None, "", Some("http://home")));
    let info = Info::of_package("p", "d", "n", "Jo Doe", "", "", "v").unwrap();
    assert_eq!((info.publisher, info.email, info.website), (Some("Jo Doe"), "", None));
    assert!(Info::of_package("p", "d", "n", "Jo <jo@x", "", "", "v").is_none());
    assert!(Info::of_package("p", "d", "n", "Jo > <jo@x>", "", "", "v").is_none());
    assert_eq!(parse_author("<>"), Some((Some(""), "")));
}

#[test]
fn white_space_is_taken_away() {
    for text in
        ["", " ", "a", " a b ", "\t\u{3000}x\u{2003}\n", "\u{200b}x", "\u{1680}", "\u{85}a\u{a0}"]
    {
        assert_eq!(trim(text), text.trim(), "{:?}", text);
    }
}

#[test]
fn all_white_space_is_taken_away() {
    for n in 0..0x11_0000u32 {
        if let Some(c) = char::from_u32(n) {
            let text = c.to_string();
            if c.is_whitespace() {
                assert_eq!(trim(&text), "");
            } else if n < 0x3100 {
                assert_eq!(trim(&text), text);
            }
        }
    }
}

#[test]
fn a_saved_value_is_loaded() {
    let value = Json::parse("{\"tokens\":{\"c\":\"t\"}}").unwrap();
    let text = RoonApi::save_config(None, "roonstate", value).unwrap();
    assert_eq!(text, "{\n  \"roonstate\": {\n    \"tokens\": {\n      \"c\": \"t\"\n    }\n  }\n}");
    let text = RoonApi::save_config(Some(text.as_bytes()), "settings", Json::Uint(3)).unwrap();
    let bytes = Some(text.as_bytes());
    assert_eq!(RoonApi::load_config(bytes, "settings"), Json::Uint(3));
    assert_eq!(RoonApi::load_config(bytes, "roonstate").to_text(), "{\"tokens\":{\"c\":\"t\"}}");
    assert_eq!(RoonApi::load_config(bytes, "other"), Json::object());
}

#[test]
fn what_is_no_configuration_holds_nothing() {
    assert_eq!(RoonApi::load_config(None, "a"), Json::object());
    assert_eq!(RoonApi::load_config(Some(b"x"), "a"), Json::object());
    assert_eq!(RoonApi::load_config(Some(b"\"\xff\""), "a"), Json::object());
    assert_eq!(RoonApi::load_config(Some(b"[1]"), "a"), Json::object());
    assert_eq!(read_and_parse(Some(b"\xff")), None);
    assert_eq!(read_and_parse(Some(b"[1]")), Some(Json::Array(vec![Json::Uint(1)])));
}

#[test]
fn a_value_is_put_only_into_an_object() {
    assert_eq!(RoonApi::save_config(Some(b"[1]"), "a", Json::Null), None);
    assert_eq!(RoonApi::save_config(Some(b"3"), "a", Json::Null), None);
    for content in [&b"null"[..], b"{", b"{}"] {
        let text = RoonApi::save_config(Some(content), "a", Json::Null);
        assert_eq!(text.as_deref(), Some("{\n  \"a\": null\n}"));
    }
    assert_eq!(save_value(Some(Json::Bool(true)), "a", Json::Null), None);
    let config = save_value(None, "a", Json::Uint(1)).unwrap();
    assert_eq!(load_value(Some(&config), "a"), Json::Uint(1));
    assert_eq!(load_value(None, "a"), Json::object());
}

#[test]
fn a_search_for_cores_begins_anew() {
    let mut api = RoonApi::new(info());
    api.sood_conns.push("a".to_string());
    api.start_sood_receiver();
    assert!(api.sood_conns.is_empty());
}

#[test]
fn nothing_is_logged_at_level_none() {
    assert_eq!(Logger::new("none".to_string()).log("x"), None);
    assert_eq!(Logger::new("all".to_string()).log("x").as_deref(), Some("x"));
    assert_eq!(Logger::new("".to_string()).log_level, "");
}

#[test]
fn a_value_is_loaded_beside_one_that_is_no_integer() {
    let content = "{\"volume\":0.5,\"name\":[\"n\",{\"a\":-1}],\"big\":1.7976931348623157e308}";
    let value = Json::parse("{\"x\":[1,null,\"y\"]}").unwrap();
    let text = RoonApi::save_config(Some(content.as_bytes()), "saved", value.clone()).unwrap();
    let bytes = Some(text.as_bytes());
    assert_eq!(RoonApi::load_config(bytes, "saved"), value);
    assert_eq!(RoonApi::load_config(bytes, "name").to_text(), "[\"n\",{\"a\":-1}]");
    assert_eq!(RoonApi::load_config(bytes, "none"), Json::object());
    assert_eq!(RoonApi::load_config(bytes, "volume").to_text(), "0.5");
    assert!(matches!(RoonApi::load_config(bytes, "big"), Json::Number(_)));
    let text = RoonApi::save_config(bytes, "name", Json::Null).unwrap();
    assert_eq!(RoonApi::load_config(Some(text.as_bytes()), "saved"), value);
}
