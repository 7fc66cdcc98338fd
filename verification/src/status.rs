//! The status of the extension.

use vstd::prelude::*;
use crate::api::RoonApi;
use crate::json::{empty_object, member, with_member, Json, JsonView};
use crate::json_text::compact_text;
use crate::moo::frame::{frame, sent_line};
use crate::moo::{body_text, taken, LogLevel, Moo, Outgoing};
use crate::service::{
    calls, completed, continued, fan_out, handlers, has_subscribed, has_subscribed_with, is_key,
    only, replies_view, send_complete, send_continue, subscribers, subscribers_are_found,
    with_subs, Fault, HandlerView, Method, RespProps, State, Sub, Svc, SvcSpec,
};
use crate::text::strings;

verus! {

broadcast use vstd::std_specs::hash::group_hash_axioms;

pub const SVCNAME: &'static str = "com.roonlabs.status:1";

/// The status: the connection over which changes are told, and the number of the service, which
/// keeps the message.
#[derive(Clone, Copy, Debug)]
pub struct Status {
    pub moo: Option<Moo>,
    pub number: usize,
}

/// The status as a document.
pub open spec fn status_json(message: Seq<char>, is_error: bool) -> JsonView {
    with_member(
        with_member(empty_object(), "message"@, JsonView::Text(message)),
        "is_error"@,
        JsonView::Bool(is_error),
    )
}

/// What the names of the status service stand for.
pub open spec fn status_handlers() -> Map<Seq<char>, HandlerView> {
    Map::empty().insert("get_status"@, HandlerView::Call(Method::GetStatus)).insert(
        "subscribe_status"@,
        HandlerView::Subscribe("subscribe_status"@, Method::StartStatus),
    ).insert("unsubscribe_status"@, HandlerView::Unsubscribe("subscribe_status"@, None))
}

/// Makes the document of a status.
fn status_body(message: &str, is_error: bool) -> (r: Json)
    ensures
        r@ == status_json(message@, is_error),
{
    let mut body = Json::object();
    body.set("message", Json::text(message));
    body.set("is_error", Json::Bool(is_error));
    body
}

/// Whether a message tells a subscriber of a new status.
pub open spec fn tells_status(
    out: Outgoing,
    level: LogLevel,
    req_id: usize,
    message: Seq<char>,
    is_error: bool,
) -> bool {
    let body = body_text(Some(status_json(message, is_error)));
    &&& out.req_id == req_id
    &&& out.msg@ == frame(req_id as nat, "CONTINUE"@, "Changed"@, body)
    &&& match out.log {
        Some(line) => level != LogLevel::Nothing && line@ == sent_line(
            req_id as nat,
            "CONTINUE"@,
            "Changed"@,
            body,
        ),
        None => level == LogLevel::Nothing,
    }
}

/// What comes of a new status: the service keeps it, and the message that tells the connected
/// core of it is given where that has subscribed. Nothing is kept where a subscription is under
/// a key that names no core.
pub open spec fn is_set(
    r: Result<Option<Outgoing>, Fault>,
    before: Svc,
    after: Svc,
    moo: Option<Moo>,
    message: String,
    is_error: bool,
) -> bool {
    let kept = Svc { state: State { status: (message, is_error), ..before.state }, ..before };
    let ids = fan_out(
        before.sub_types.keys(),
        before.sub_types@,
        "subscribe_status"@,
        before.sub_types.keys().len() as int,
    );
    match moo {
        Some(moo) => match ids {
            Some(ids) => {
                &&& after == kept
                &&& r matches Ok(out)
                &&& if ids.contains_key(moo.id) {
                    out matches Some(out) && tells_status(
                        out,
                        moo.log_level,
                        ids[moo.id],
                        message@,
                        is_error,
                    )
                } else {
                    out is None
                }
            },
            None => r == Err::<Option<Outgoing>, Fault>(Fault::Key) && after == before,
        },
        None => r == Ok::<Option<Outgoing>, Fault>(None) && after == kept,
    }
}

impl Status {
    /// The service, and the status that it offers: without a message at first. They know each
    /// other by a number from `svc_count`, the counter that all services share.
    pub fn new(roon: &RoonApi, svc_count: &mut usize) -> (r: (Svc, Status))
        requires
            *old(svc_count) < usize::MAX,
        ensures
            taken(*old(svc_count), *final(svc_count), r.1.number),
            r.0.state.number == Some(r.1.number),
            r.0.state.is_new(),
            r.0.name@ == SVCNAME@,
            r.0.sub_types@ == Map::<Seq<char>, usize>::empty(),
            handlers(r.0.methods@) == status_handlers(),
            strings(r.0.sub_names@) == seq!["subscribe_status"@],
            r.0.wf(),
            r.1.moo is None,
    {
        let mut spec = SvcSpec::new(SVCNAME);
        spec.add_method("get_status", Method::GetStatus);
        spec.add_sub(
            Sub {
                subscribe_name: "subscribe_status".to_owned(),
                unsubscribe_name: "unsubscribe_status".to_owned(),
                start: Method::StartStatus,
                end: None,
            },
        );
        let ghost methods = spec.methods@;
        let (svc, number) = roon.register_shared(spec, svc_count);
        proof {
            reveal_with_fuel(with_subs, 2);
            assert(calls(methods) =~= Map::empty().insert(
                "get_status"@,
                HandlerView::Call(Method::GetStatus),
            ));
            assert(handlers(svc.methods@) =~= status_handlers());
            assert(strings(svc.sub_names@) =~= seq!["subscribe_status"@]);
        }
        (svc, Status { moo: None, number })
    }

    /// Connects the status.
    pub fn set_moo(&mut self, moo: Moo)
        ensures
            final(self).moo == Some(moo),
            final(self).number == old(self).number,
    {
        self.moo = Some(moo);
    }

    /// The answer to a core that asks for the status, which the service keeps.
    pub fn get_status(state: &State) -> (r: Vec<RespProps>)
        ensures
            replies_view(r@) == seq![
                completed("Success"@, Some(status_json(state.status.0@, state.status.1))),
            ],
    {
        let body = status_body(state.status.0.as_str(), state.status.1);
        only(send_complete("Success", Some(body)))
    }

    /// The answer to a core that subscribes to the status, which the service keeps.
    pub fn start(state: &State) -> (r: Vec<RespProps>)
        ensures
            replies_view(r@) == seq![
                continued("Subscribed"@, Some(status_json(state.status.0@, state.status.1))),
            ],
    {
        let body = status_body(state.status.0.as_str(), state.status.1);
        only(send_continue("Subscribed", Some(body)))
    }

    /// Sets the status, which its service keeps, and gives the message that tells the connected
    /// core of it, where that has subscribed.
    pub fn set_status(&self, svc: &mut Svc, message: String, is_error: bool) -> (r: Result<
        Option<Outgoing>,
        Fault,
    >)
        ensures
            is_set(r, *old(svc), *final(svc), self.moo, message, is_error),
    {
        let mut result: Option<Outgoing> = None;
        if let Some(moo) = self.moo {
            let ids = match subscribers(&svc.sub_types, "subscribe_status") {
                Ok(ids) => ids,
                Err(e) => {
                    return Err(e);
                },
            };
            if let Some(req_id) = ids.get(&moo.id) {
                let body = status_body(message.as_str(), is_error);
                let msg = Moo::create_msg_string(*req_id, &["CONTINUE", "Changed"], Some(&body));
                result = Some(moo.send_msg_string(*req_id, msg));
            }
        }
        svc.state.status = (message, is_error);
        Ok(result)
    }
}

/// A status is told with its message, and with whether it is about an error.
pub proof fn status_is_told_as_it_is(message: Seq<char>, is_error: bool)
    ensures
        member(status_json(message, is_error), "message"@) == Some(JsonView::Text(message)),
        member(status_json(message, is_error), "is_error"@) == Some(JsonView::Bool(is_error)),
{
    reveal_strlit("message");
    reveal_strlit("is_error");
    assert("message"@.len() != "is_error"@.len());
}

/// The names of the status service stand for what they say.
pub proof fn status_service_offers(name: Seq<char>)
    ensures
        ({
            let h = status_handlers();
            &&& h.contains_key("get_status"@) && h["get_status"@] == HandlerView::Call(
                Method::GetStatus,
            )
            &&& h.contains_key("subscribe_status"@) && h["subscribe_status"@]
                == HandlerView::Subscribe("subscribe_status"@, Method::StartStatus)
            &&& h.contains_key("unsubscribe_status"@) && h["unsubscribe_status"@]
                == HandlerView::Unsubscribe("subscribe_status"@, None)
            &&& h.contains_key(name) ==> name == "get_status"@ || name == "subscribe_status"@
                || name == "unsubscribe_status"@
        }),
{
    reveal_strlit("get_status");
    reveal_strlit("subscribe_status");
    reveal_strlit("unsubscribe_status");
    assert("get_status"@.len() != "subscribe_status"@.len());
    assert("get_status"@.len() != "unsubscribe_status"@.len());
    assert("subscribe_status"@.len() != "unsubscribe_status"@.len());
}

/// A status that is set is kept by its service, which otherwise stays as it was. The connected
/// core is told of it exactly where it has subscribed, under the request with which it has.
pub proof fn set_status_is_kept_and_told(
    r: Result<Option<Outgoing>, Fault>,
    before: Svc,
    after: Svc,
    moo: Option<Moo>,
    message: String,
    is_error: bool,
)
    requires
        is_set(r, before, after, moo, message, is_error),
        r is Ok,
        forall|i: int|
            0 <= i < before.sub_types.keys().len() ==> is_key(
                #[trigger] before.sub_types.keys()[i],
                seq!["subscribe_status"@],
            ),
    ensures
        after.state.status == (message, is_error),
        after.state.number == before.state.number,
        after.state.save_req_id == before.state.save_req_id,
        after.sub_types == before.sub_types,
        after.name == before.name,
        after.methods == before.methods,
        after.sub_names == before.sub_names,
        moo is None ==> r->Ok_0 is None,
        moo matches Some(moo) ==> {
            let keys = before.sub_types.keys();
            let n = keys.len() as int;
            &&& r->Ok_0 is Some <==> has_subscribed(keys, "subscribe_status"@, moo.id, n)
            &&& r->Ok_0 matches Some(out) ==> {
                &&& has_subscribed_with(
                    keys,
                    before.sub_types@,
                    "subscribe_status"@,
                    moo.id,
                    out.req_id,
                    n,
                )
                &&& out.msg@ == frame(
                    out.req_id as nat,
                    "CONTINUE"@,
                    "Changed"@,
                    Some(compact_text(status_json(message@, is_error))),
                )
            }
        },
{
    let names = seq!["subscribe_status"@];
    assert(!"subscribe_status"@.contains(':')) by {
        reveal_strlit("subscribe_status");
    }
    subscribers_are_found(
        before.sub_types.keys(),
        before.sub_types@,
        names,
        "subscribe_status"@,
        before.sub_types.keys().len() as int,
    );
}

} // verus!
