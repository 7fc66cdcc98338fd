use roon_api::moo::{LogLevel, Moo};
use roon_api::service::{Fault, Handler, Method};
use roon_api::status::Status;
use roon_api::{Info, RoonApi};

fn roon() -> RoonApi {
    RoonApi::new(Info::new("com.x.y".to_string(), "Name", "1.0", None, "", None))
}

#[test]
fn the_status_service_is_offered() {
    let roon = roon();
    let mut count: usize = 0;
    let (svc, status) = Status::new(&roon, &mut count);
    assert_eq!((svc.state.number, status.number, count), (Some(0), 0, 1));
    assert!(status.moo.is_none());
    assert_eq!(svc.name, "com.roonlabs.status:1");
    assert_eq!(svc.methods.len(), 3);
    assert!(matches!(svc.methods.get("get_status"), Some(Handler::Call(Method::GetStatus))));
    assert!(matches!(
        svc.methods.get("subscribe_status"),
        Some(Handler::Subscribe(_, Method::StartStatus))
    ));
    let replies = Status::get_status(&svc.state);
    assert_eq!(replies[0].0, vec!["COMPLETE", "Success"]);
    assert_eq!(replies[0].1.as_ref().unwrap().to_text(), "{\"is_error\":false,\"message\":\"\"}");
}

#[test]
fn a_new_status_is_told_to_the_connected_core() {
    let (mut svc, mut status) = Status::new(&roon(), &mut 0);
    svc.sub_types.insert("subscribe_status:2:k", 17);
    svc.sub_types.insert("subscribe_other:x:k", 18);
    let r = status.set_status(&mut svc, "a".to_string(), true).unwrap();
    assert!(r.is_none());
    assert_eq!(svc.state.status, ("a".to_string(), true));
    let (moo, _, _, _) = Moo::new(2, LogLevel::Default);
    status.set_moo(moo);
    let out = status.set_status(&mut svc, "b".to_string(), false).unwrap().unwrap();
    assert_eq!(out.req_id, 17);
    assert_eq!(
        out.msg,
        "MOO/1 CONTINUE Changed\nRequest-Id: 17\nContent-Length: 32\n\
         Content-Type: application/json\n\n{\"is_error\":false,\"message\":\"b\"}"
    );
    assert_eq!(
        out.log.as_deref(),
        Some("-> CONTINUE 17 Changed {\"is_error\":false,\"message\":\"b\"}")
    );
    let replies = Status::start(&svc.state);
    assert_eq!(replies[0].0, vec!["CONTINUE", "Subscribed"]);
    assert_eq!(replies[0].1.as_ref().unwrap().to_text(), "{\"is_error\":false,\"message\":\"b\"}");
    let (moo, _, _, _) = Moo::new(3, LogLevel::Nothing);
    status.set_moo(moo);
    assert!(status.set_status(&mut svc, "c".to_string(), false).unwrap().is_none());
    svc.sub_types.insert("subscribe_status:x:k", 1);
    let r = status.set_status(&mut svc, "d".to_string(), false);
    assert_eq!(r.err(), Some(Fault::Key));
    assert_eq!(svc.state.status.0, "c");
}
