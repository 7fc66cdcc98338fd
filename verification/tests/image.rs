use roon_api::image::{Args, Format, Image, Scale, Scaling, Wish};
use roon_api::moo::message::MooMessage;
use roon_api::moo::{ContentType, LogLevel, Moo, Session};
use roon_api::{Parsed, RoonApiError};

fn connected() -> (Image, Session) {
    let (moo, _, _, session) = Moo::new(0, LogLevel::Default);
    let mut image = Image::new();
    image.set_moo(moo);
    (image, session)
}

fn answer(req_id: usize, name: &str) -> MooMessage {
    let data = format!("MOO/1 COMPLETE {}\nRequest-Id: {}\n\n", name, req_id);
    MooMessage::parse(&data).unwrap().unwrap()
}

#[test]
fn an_image_is_asked_for_once() {
    let (mut image, session) = connected();
    let args = Args::new(Some(Scaling::new(Scale::Fit, 200, 100)), Some(Format::Jpeg));
    let out = match image.get_image(&session, "key", args) {
        Wish::Ask(out) => out,
        other => panic!("{:?}", other),
    };
    let m = MooMessage::parse(&out.msg).unwrap().unwrap();
    assert_eq!(m.service.as_deref(), Some("com.roonlabs.image:1"));
    assert_eq!(m.name, "get_image");
    assert_eq!(
        m.body.unwrap().to_text(),
        "{\"format\":\"image/jpeg\",\"height\":100,\"image_key\":\"key\",\"scale\":\"fit\",\
         \"width\":200}"
    );
    assert!(matches!(image.get_image(&session, "key", args), Wish::Nothing));
    image.get_image_sent("key", Some(4));
    assert!(matches!(image.get_image(&session, "key", args), Wish::Pending(4)));
    assert!(matches!(image.get_image(&session, "other", args), Wish::Ask(_)));
    image.get_image_sent("other", None);
    assert!(matches!(image.get_image(&session, "other", args), Wish::Nothing));
}

#[test]
fn an_image_that_could_not_be_asked_for_stays_pending() {
    let (_, session) = connected();
    let mut image = Image::default();
    assert!(matches!(image.get_image(&session, "key", Args::default()), Wish::Nothing));
    assert_eq!(image.pending.get("key"), Some(&None));
}

#[test]
fn arguments_of_an_image_are_written() {
    assert_eq!(Args::default().to_json().to_text(), "{\"format\":null}");
    for (scale, name) in [
        (Scale::Original, "original"),
        (Scale::Fit, "fit"),
        (Scale::Fill, "fill"),
        (Scale::Stretch, "stretch"),
    ] {
        let args = Args::new(Some(Scaling::new(scale, 1, 2)), Some(Format::Png));
        assert_eq!(
            args.to_json().to_text(),
            format!("{{\"format\":\"image/png\",\"height\":2,\"scale\":\"{}\",\"width\":1}}", name)
        );
    }
    assert_eq!(Scaling::default(), Scaling::new(Scale::default(), 0, 0));
    assert_eq!(Format::default(), Format::Jpeg);
}

#[test]
fn an_image_is_found_by_its_request() {
    let (mut image, _) = connected();
    image.get_image_sent("a", None);
    image.get_image_sent("b", Some(1));
    image.get_image_sent("c", Some(2));
    let jpeg = ContentType::Jpeg(vec![1, 2, 3]);
    assert!(image.parse_msg(&answer(9, "Success"), &jpeg).is_none());
    match image.parse_msg(&answer(2, "Success"), &jpeg) {
        Some(Parsed::Jpeg((key, data))) => assert_eq!((key.as_str(), data), ("c", vec![1, 2, 3])),
        other => panic!("{:?}", other),
    }
    assert!(image.parse_msg(&answer(2, "Success"), &jpeg).is_none());
    match image.parse_msg(&answer(1, "Success"), &ContentType::Png(vec![])) {
        Some(Parsed::Png((key, data))) => assert_eq!((key.as_str(), data.len()), ("b", 0)),
        other => panic!("{:?}", other),
    }
    image.get_image_sent("d", Some(3));
    assert!(image.parse_msg(&answer(3, "Success"), &ContentType::Json).is_none());
    assert!(!image.pending.contains_key("d"));
    image.get_image_sent("d", Some(4));
    assert!(image.parse_msg(&answer(4, "Success"), &ContentType::Nothing).is_none());
    image.get_image_sent("e", Some(5));
    match image.parse_msg(&answer(5, "UnexpectedError"), &jpeg) {
        Some(Parsed::Error(RoonApiError::ImageUnexpectedError((5, key)))) => assert_eq!(key, "e"),
        other => panic!("{:?}", other),
    }
}
