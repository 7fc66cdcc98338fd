//! What happens when a core asks for something that the extension provides.

use std::collections::HashMap;
use vstd::prelude::*;
use crate::api::RoonApi;
use crate::cores::{Core, CoreEvent};
use crate::hub::{id_of, ids_view, one_id, Event, Hub, Reaction};
use crate::json::{
    empty_object, member, opt_json, opt_view, takes_members, with_member, Json, JsonView,
};
use crate::moo::message::{body_of, request_number, MessageView, MooMessage};
use crate::pairing::{
    get_replies, lost_after, pair_replies, paired_after, pairing_json, start_replies,
};
use crate::parsed::Parsed;
use crate::ping::Ping;
use crate::service::{
    completed, continued, fan_out, handled, handlers, has_subscribed, has_subscribed_with, is_key,
    no_answer, no_reply, only, replies_view, reply_view, send_complete, subscribers,
    subscribers_are_found, Fault, HandlerView, Method, RespProps, State, Step, Svc,
};
use crate::settings::{at, Settings};
use crate::status::{status_is_told_as_it_is, status_json, Status};
use crate::table::Table;
use crate::text::{same_text, texts};

verus! {

broadcast use vstd::std_specs::hash::group_hash_axioms;

/// What a request asks for.
#[derive(Clone, Copy, Debug, PartialEq, Eq, Structural)]
pub enum Asked {
    /// A service that the extension does not provide.
    Unprovided,
    /// Something of a service that it provides.
    Provided(Step),
}

/// The connection of a core, as far as it is registered.
pub open spec fn registered_id(cores: Map<usize, Core>, moo_id: usize) -> Option<usize> {
    if cores.contains_key(moo_id) {
        Some(cores[moo_id].moo.id)
    } else {
        None
    }
}

/// The core on a connection, as far as it is registered.
pub open spec fn registered_core(cores: Map<usize, Core>, moo_id: usize) -> Option<Core> {
    if cores.contains_key(moo_id) {
        Some(cores[moo_id])
    } else {
        None
    }
}

/// What replies say, to whom each of them goes, and the state to store.
pub type Answers = (
    Seq<(Seq<Seq<char>>, Option<JsonView>)>,
    Seq<Map<usize, usize>>,
    Option<JsonView>,
);

/// The state to store with a reply to the subscribers of the pairing.
pub open spec fn state_with(
    sub_name: Seq<char>,
    body: Option<JsonView>,
    state: JsonView,
    stored: Option<JsonView>,
) -> Result<Option<JsonView>, Fault> {
    if sub_name != "subscribe_pairing"@ {
        Ok(stored)
    } else {
        match body {
            None => Err(Fault::Body),
            Some(body) => match member(body, "paired_core_id"@) {
                None => Ok(stored),
                Some(id) => if takes_members(state) {
                    Ok(Some(with_member(state, "paired_core_id"@, id)))
                } else {
                    Err(Fault::State)
                },
            },
        }
    }
}

/// What becomes of the first `n` replies: one with a third text in its header goes to all who
/// have subscribed, another one to the core that has asked.
pub open spec fn answers(
    replies: Seq<(Seq<Seq<char>>, Option<JsonView>)>,
    n: int,
    index: usize,
    req_id: usize,
    sub_types: Table<usize>,
    state: JsonView,
) -> Result<Answers, Fault>
    decreases n,
{
    if n <= 0 {
        Ok((Seq::empty(), Seq::empty(), None))
    } else {
        match answers(replies, n - 1, index, req_id, sub_types, state) {
            Err(e) => Err(e),
            Ok((props, ids, stored)) => {
                let (hdr, body) = replies[n - 1];
                if hdr.len() > 2 {
                    match state_with(hdr[0], body, state, stored) {
                        Err(e) => Err(e),
                        Ok(stored) => match fan_out(
                            sub_types.keys(),
                            sub_types@,
                            hdr[0],
                            sub_types.keys().len() as int,
                        ) {
                            None => Err(Fault::Key),
                            Some(all) => Ok(
                                (props.push((hdr.skip(1), body)), ids.push(all), stored),
                            ),
                        },
                    }
                } else {
                    Ok((props.push((hdr, body)), ids.push(one_id(index, req_id)), stored))
                }
            },
        }
    }
}

proof fn lemma_answers_fail(
    replies: Seq<(Seq<Seq<char>>, Option<JsonView>)>,
    n: int,
    m: int,
    index: usize,
    req_id: usize,
    sub_types: Table<usize>,
    state: JsonView,
)
    requires
        n <= m,
        answers(replies, n, index, req_id, sub_types, state) is Err,
    ensures
        answers(replies, m, index, req_id, sub_types, state) == answers(
            replies,
            n,
            index,
            req_id,
            sub_types,
            state,
        ),
    decreases m - n,
{
    if n < m {
        lemma_answers_fail(replies, n, m - 1, index, req_id, sub_types, state);
    }
}

/// Finds the state to store with a reply to the subscribers of the pairing.
fn find_state(sub_name: &str, body: &Option<Json>, state: &Json, stored: Option<Json>) -> (r:
    Result<Option<Json>, Fault>)
    ensures
        match state_with(sub_name@, opt_json(*body), state@, opt_json(stored)) {
            Ok(after) => r matches Ok(found) && opt_json(found) == after,
            Err(e) => r == Err::<Option<Json>, Fault>(e),
        },
{
    if !same_text(sub_name, "subscribe_pairing") {
        return Ok(stored);
    }
    match body {
        None => Err(Fault::Body),
        Some(body) => match body.get("paired_core_id") {
            None => Ok(stored),
            Some(id) => {
                if state.is_settable() {
                    let mut after = state.clone();
                    after.set("paired_core_id", id.clone());
                    Ok(Some(after))
                } else {
                    Err(Fault::State)
                }
            },
        },
    }
}

/// A header without its first text.
fn behind_first(hdr: &Vec<&'static str>) -> (r: Vec<&'static str>)
    requires
        hdr@.len() > 0,
    ensures
        texts(r@) == texts(hdr@).skip(1),
{
    let mut r: Vec<&'static str> = Vec::new();
    let mut i: usize = 1;
    while i < hdr.len()
        invariant
            1 <= i <= hdr@.len(),
            r@ == hdr@.subrange(1, i as int),
        decreases hdr@.len() - i,
    {
        r.push(hdr[i]);
        assert(hdr@.subrange(1, i + 1) =~= hdr@.subrange(1, i as int).push(hdr@[i as int]));
        i += 1;
    }
    assert(texts(r@) =~= texts(hdr@).skip(1));
    r
}

/// The body of the answer to a request that the extension does not know.
pub open spec fn error_json(name: Seq<char>) -> JsonView {
    with_member(empty_object(), "error"@, JsonView::Text(name))
}

/// The answer to a request for a service that the extension does not provide.
pub fn refuse(index: usize, req_id: usize, msg: &MooMessage) -> (r: Reaction)
    ensures
        replies_view(r.props@) == seq![
            completed("InvalidRequest"@, Some(error_json(msg@.name))),
        ],
        ids_view(r.response_ids@) == seq![one_id(index, req_id)],
{
    let mut body = Json::object();
    body.set("error", Json::text(msg.name.as_str()));
    let props = only(send_complete("InvalidRequest", Some(body)));
    let mut response_ids: Vec<HashMap<usize, usize>> = Vec::new();
    response_ids.push(id_of(index, req_id));
    assert(ids_view(response_ids@) =~= seq![one_id(index, req_id)]);
    Reaction { props, response_ids }
}

/// The answer to a core that has ended a subscription.
pub fn ended() -> (r: Vec<RespProps>)
    ensures
        replies_view(r@) == seq![completed("Unsubscribed"@, None)],
{
    only(send_complete("Unsubscribed", None))
}

/// The replies of a method that the library runs itself: none of another one. The status is the
/// one that the service keeps.
pub open spec fn own_replies(
    method: Method,
    paired: Option<Core>,
    core: Option<Core>,
    state: State,
) -> Option<Seq<(Seq<Seq<char>>, Option<JsonView>)>> {
    match method {
        Method::Ping => Some(seq![completed("Success"@, None)]),
        Method::GetPairing => Some(get_replies(paired)),
        Method::Pair => Some(pair_replies(paired, core)),
        Method::StartPairing => Some(start_replies(paired)),
        Method::GetStatus => Some(
            seq![completed("Success"@, Some(status_json(state.status.0@, state.status.1)))],
        ),
        Method::StartStatus => Some(
            seq![continued("Subscribed"@, Some(status_json(state.status.0@, state.status.1)))],
        ),
        _ => None,
    }
}

/// What comes of a request.
#[derive(Debug)]
pub enum Outcome {
    /// It is answered, and the user is told of a change of the pairing.
    Answered(Reaction, Option<Event>),
    /// The user has to do something, whose replies are the answer.
    Run(usize),
    /// The user has to do something. The answer is that the subscription has ended.
    End(usize),
    /// The user has to show the settings, for a method of theirs.
    Show(Method),
    /// The user has to show the settings with the given values, which are saved or, where the
    /// first part says so, only tried.
    Save(bool, Json),
}

/// What replies to a request come to.
pub open spec fn is_answered(
    r: Result<Outcome, Fault>,
    replies: Seq<(Seq<Seq<char>>, Option<JsonView>)>,
    index: usize,
    req_id: usize,
    sub_types: Table<usize>,
    state: JsonView,
) -> bool {
    match answers(replies, replies.len() as int, index, req_id, sub_types, state) {
        Ok((props, ids, stored)) => {
            &&& r matches Ok(Outcome::Answered(reaction, event))
            &&& replies_view(reaction.props@) == props
            &&& ids_view(reaction.response_ids@) == ids
            &&& match stored {
                Some(state) => event matches Some(
                    (CoreEvent::Nothing, Some((told, Parsed::RoonState))),
                ) && told@ == state,
                None => event is None,
            }
        },
        Err(e) => r == Err::<Outcome, Fault>(e),
    }
}

/// What a service keeps once a request has asked for something: where settings are saved, the
/// request.
pub open spec fn state_after(before: State, step: Step, body: JsonView, req_id: usize) -> State {
    if step == Step::Run(Method::SaveSettings) && at(body, "is_dry_run"@) == JsonView::Bool(
        false,
    ) {
        State { save_req_id: Some(req_id), ..before }
    } else {
        before
    }
}

/// What comes of a method that a request asks for.
pub open spec fn is_run(
    r: Result<Outcome, Fault>,
    before: Hub,
    method: Method,
    index: usize,
    req_id: usize,
    body: JsonView,
    svc: Svc,
    state: JsonView,
) -> bool {
    let core = registered_core(before.cores@, before.conns@[index as int].moo.id);
    let paired = before.api.pairing.paired_core;
    match method {
        Method::User(number) => r == Ok::<Outcome, Fault>(Outcome::Run(number)),
        Method::GetSettings | Method::StartSettings => r == Ok::<Outcome, Fault>(
            Outcome::Show(method),
        ),
        Method::SaveSettings => match at(body, "is_dry_run"@) {
            JsonView::Bool(is_dry_run) => {
                &&& r matches Ok(Outcome::Save(dry, values))
                &&& dry == is_dry_run
                &&& values@ == at(at(body, "settings"@), "values"@)
            },
            _ => r == Err::<Outcome, Fault>(Fault::Body),
        },
        _ => {
            &&& own_replies(method, paired, core, svc.state) matches Some(replies)
            &&& is_answered(r, replies, index, req_id, svc.sub_types, state)
        },
    }
}

/// The pairing once a request has asked for a method.
pub open spec fn pairing_after(before: Hub, after: Hub, index: usize, pairs: bool) -> bool {
    let core = registered_core(before.cores@, before.conns@[index as int].moo.id);
    let paired = before.api.pairing.paired_core;
    if pairs {
        &&& after.api.pairing.paired_core == paired_after(paired, core)
        &&& opt_view(after.api.pairing.lost_core_id) == lost_after(
            opt_view(before.api.pairing.lost_core_id),
            paired,
            core,
        )
    } else {
        after.api.pairing == before.api.pairing
    }
}

/// What comes of a request for a service that the extension provides.
pub open spec fn is_handled(
    r: Result<Outcome, Fault>,
    before: Hub,
    after: Hub,
    index: usize,
    msg: MessageView,
    state: JsonView,
) -> bool {
    let service = msg.service->Some_0;
    let req_id = request_number(msg)->Some_0;
    let svc = before.provided@[service];
    let left = after.provided@[service];
    match handled(
        handlers(svc.methods@),
        svc.sub_types@,
        registered_id(before.cores@, before.conns@[index as int].moo.id),
        msg.name,
        body_of(msg),
        req_id,
    ) {
        Ok((step, sub_types)) => {
            &&& after.provided@ == before.provided@.insert(service, left)
            &&& left.sub_types@ == sub_types
            &&& left.name == svc.name
            &&& left.methods == svc.methods
            &&& left.sub_names == svc.sub_names
            &&& left.state == state_after(svc.state, step, body_of(msg), req_id)
            &&& svc.wf() ==> left.wf()
            &&& match step {
                Step::Run(method) => {
                    &&& pairing_after(before, after, index, method == Method::Pair)
                    &&& is_run(r, before, method, index, req_id, body_of(msg), left, state)
                },
                Step::End(end) => {
                    &&& pairing_after(before, after, index, false)
                    &&& match end {
                        Some(Method::User(number)) => r == Ok::<Outcome, Fault>(
                            Outcome::End(number),
                        ),
                        _ => is_answered(
                            r,
                            seq![completed("Unsubscribed"@, None)],
                            index,
                            req_id,
                            left.sub_types,
                            state,
                        ),
                    }
                },
                Step::Unknown => {
                    &&& pairing_after(before, after, index, false)
                    &&& is_answered(r, seq![no_reply()], index, req_id, left.sub_types, state)
                },
            }
        },
        Err(e) => {
            &&& r == Err::<Outcome, Fault>(e)
            &&& after.provided@ == before.provided@
            &&& pairing_after(before, after, index, false)
        },
    }
}

/// Begins to save the settings of a service.
fn begin_save(provided: &mut Table<Svc>, service: &str, msg: &MooMessage, req_id: usize) -> (r:
    Result<(bool, Json), Fault>)
    requires
        old(provided)@.contains_key(service@),
    ensures
        ({
            let before = old(provided)@[service@];
            let step = Step::Run(Method::SaveSettings);
            final(provided)@ == old(provided)@.insert(
                service@,
                Svc { state: state_after(before.state, step, body_of(msg@), req_id), ..before },
            )
        }),
        match at(body_of(msg@), "is_dry_run"@) {
            JsonView::Bool(is_dry_run) => {
                &&& r matches Ok((dry, values))
                &&& dry == is_dry_run
                &&& values@ == at(at(body_of(msg@), "settings"@), "values"@)
            },
            _ => r == Err::<(bool, Json), Fault>(Fault::Body),
        },
{
    match provided.remove(service) {
        Some(svc) => {
            let mut svc = svc;
            let begun = Settings::begin_save(&mut svc.state, msg, req_id);
            provided.insert(service, svc);
            assert(provided@ =~= old(provided)@.insert(service@, svc));
            begun
        },
        None => Err(Fault::Body),
    }
}

impl Hub {
    /// Takes up a request of a core. `roon_state` is the state that is stored.
    pub fn on_request(&mut self, index: usize, msg: &MooMessage, roon_state: &Json) -> (r: Result<
        Outcome,
        Fault,
    >)
        requires
            index < old(self).conns@.len(),
            request_number(msg@) is Some,
            msg@.service is Some,
        ensures
            final(self).api == (RoonApi { pairing: final(self).api.pairing, ..old(self).api }),
            final(self).services == old(self).services,
            final(self).conns == old(self).conns,
            final(self).user_moos == old(self).user_moos,
            final(self).cores == old(self).cores,
            if old(self).provided@.contains_key(msg@.service->Some_0) {
                is_handled(r, *old(self), *final(self), index, msg@, roon_state@)
            } else {
                &&& r matches Ok(Outcome::Answered(reaction, None))
                &&& replies_view(reaction.props@) == seq![
                    completed("InvalidRequest"@, Some(error_json(msg@.name))),
                ]
                &&& ids_view(reaction.response_ids@) == seq![
                    one_id(index, request_number(msg@)->Some_0),
                ]
                &&& final(self).provided@ == old(self).provided@
                &&& final(self).api.pairing == old(self).api.pairing
            },
            old(self).wf() ==> final(self).wf(),
    {
        let (service, req_id) = match (&msg.service, msg.request_number()) {
            (Some(service), Some(req_id)) => (service, req_id),
            _ => {
                return Err(Fault::Body);
            },
        };
        let asked = match self.begin_request(index, msg) {
            Ok(asked) => asked,
            Err(e) => {
                return Err(e);
            },
        };
        let replies = match asked {
            Asked::Unprovided => {
                return Ok(Outcome::Answered(refuse(index, req_id, msg), None));
            },
            Asked::Provided(Step::Run(Method::User(number))) => {
                return Ok(Outcome::Run(number));
            },
            Asked::Provided(Step::Run(Method::GetSettings)) => {
                return Ok(Outcome::Show(Method::GetSettings));
            },
            Asked::Provided(Step::Run(Method::StartSettings)) => {
                return Ok(Outcome::Show(Method::StartSettings));
            },
            Asked::Provided(Step::Run(Method::SaveSettings)) => {
                let begun = begin_save(&mut self.provided, service.as_str(), msg, req_id);
                assert(self.provided@ =~= old(self).provided@.insert(
                    service@,
                    self.provided@[service@],
                ));
                return match begun {
                    Ok((is_dry_run, values)) => Ok(Outcome::Save(is_dry_run, values)),
                    Err(e) => Err(e),
                };
            },
            Asked::Provided(Step::Run(method)) => match self.run(index, service.as_str(), method) {
                Some(replies) => replies,
                None => Vec::new(),
            },
            Asked::Provided(Step::End(Some(Method::User(number)))) => {
                return Ok(Outcome::End(number));
            },
            Asked::Provided(Step::End(_)) => ended(),
            Asked::Provided(Step::Unknown) => only(no_answer()),
        };
        match self.reply(index, service.as_str(), req_id, replies, roon_state) {
            Ok((reaction, event)) => Ok(Outcome::Answered(reaction, event)),
            Err(e) => Err(e),
        }
    }

    /// Finds what a request asks for, and keeps or drops the subscription that it is about.
    pub fn begin_request(&mut self, index: usize, msg: &MooMessage) -> (r: Result<Asked, Fault>)
        requires
            index < old(self).conns@.len(),
            request_number(msg@) is Some,
            msg@.service is Some,
        ensures
            final(self).api == old(self).api,
            final(self).services == old(self).services,
            final(self).conns == old(self).conns,
            final(self).user_moos == old(self).user_moos,
            final(self).cores == old(self).cores,
            ({
                let service = msg@.service->Some_0;
                let before = old(self).provided@;
                let after = final(self).provided@;
                if before.contains_key(service) {
                    match handled(
                        handlers(before[service].methods@),
                        before[service].sub_types@,
                        registered_id(old(self).cores@, old(self).conns@[index as int].moo.id),
                        msg@.name,
                        body_of(msg@),
                        request_number(msg@)->Some_0,
                    ) {
                        Ok((step, sub_types)) => {
                            &&& r == Ok::<Asked, Fault>(Asked::Provided(step))
                            &&& after == before.insert(service, after[service])
                            &&& after[service].sub_types@ == sub_types
                            &&& after[service].name == before[service].name
                            &&& after[service].methods == before[service].methods
                            &&& after[service].sub_names == before[service].sub_names
                            &&& after[service].state == before[service].state
                            &&& before[service].wf() ==> after[service].wf()
                        },
                        Err(e) => r == Err::<Asked, Fault>(e) && after == before,
                    }
                } else {
                    r == Ok::<Asked, Fault>(Asked::Unprovided) && after == before
                }
            }),
            old(self).wf() ==> final(self).wf(),
    {
        let (service, req_id) = match (&msg.service, msg.request_number()) {
            (Some(service), Some(req_id)) => (service, req_id),
            _ => {
                return Ok(Asked::Unprovided);
            },
        };
        let ghost before = self.provided@;
        let mut svc = match self.provided.remove(service.as_str()) {
            Some(svc) => svc,
            None => {
                assert(before.remove(service@) =~= before);
                return Ok(Asked::Unprovided);
            },
        };
        let moo_id = match self.cores.get(&self.conns[index].moo.id) {
            Some(core) => Some(core.moo.id),
            None => None,
        };
        let step = svc.handle(moo_id, msg, req_id);
        self.provided.insert(service.as_str(), svc);
        match step {
            Ok(step) => {
                assert(self.provided@ =~= before.insert(service@, svc));
                Ok(Asked::Provided(step))
            },
            Err(e) => {
                assert(self.provided@ =~= before);
                Err(e)
            },
        }
    }

    /// Runs a method of a service that the library runs itself.
    pub fn run(&mut self, index: usize, service: &str, method: Method) -> (r: Option<
        Vec<RespProps>,
    >)
        requires
            index < old(self).conns@.len(),
            old(self).provided@.contains_key(service@),
        ensures
            final(self).api == (RoonApi { pairing: final(self).api.pairing, ..old(self).api }),
            final(self).provided == old(self).provided,
            final(self).services == old(self).services,
            final(self).conns == old(self).conns,
            final(self).user_moos == old(self).user_moos,
            final(self).cores == old(self).cores,
            ({
                let core = registered_core(old(self).cores@, old(self).conns@[index as int].moo.id);
                let paired = old(self).api.pairing.paired_core;
                let lost = opt_view(old(self).api.pairing.lost_core_id);
                &&& match own_replies(method, paired, core, old(self).provided@[service@].state) {
                    Some(replies) => r matches Some(found) && replies_view(found@) == replies,
                    None => r is None,
                }
                &&& if method == Method::Pair {
                    &&& final(self).api.pairing.paired_core == paired_after(paired, core)
                    &&& opt_view(final(self).api.pairing.lost_core_id) == lost_after(
                        lost,
                        paired,
                        core,
                    )
                } else {
                    final(self).api.pairing == old(self).api.pairing
                }
            }),
            old(self).wf() ==> final(self).wf(),
    {
        match method {
            Method::Ping => Some(Ping::ping()),
            Method::GetPairing => Some(self.api.pairing.get_pairing()),
            Method::Pair => {
                let core = self.cores.get(&self.conns[index].moo.id);
                Some(self.api.pairing.pair(core))
            },
            Method::StartPairing => Some(self.api.pairing.start()),
            Method::GetStatus => match self.provided.get(service) {
                Some(svc) => Some(Status::get_status(&svc.state)),
                None => None,
            },
            Method::StartStatus => match self.provided.get(service) {
                Some(svc) => Some(Status::start(&svc.state)),
                None => None,
            },
            _ => None,
        }
    }

    /// Answers a request with the replies of the method that it has asked for: whom each of
    /// them goes to, and what the user is told where the pairing has changed. `roon_state` is
    /// the state that is stored.
    pub fn reply(
        &self,
        index: usize,
        service: &str,
        req_id: usize,
        replies: Vec<RespProps>,
        roon_state: &Json,
    ) -> (r: Result<(Reaction, Option<Event>), Fault>)
        requires
            self.provided@.contains_key(service@),
        ensures
            match answers(
                replies_view(replies@),
                replies@.len() as int,
                index,
                req_id,
                self.provided@[service@].sub_types,
                roon_state@,
            ) {
                Ok((props, ids, stored)) => {
                    &&& r matches Ok((reaction, event))
                    &&& replies_view(reaction.props@) == props
                    &&& ids_view(reaction.response_ids@) == ids
                    &&& match stored {
                        Some(state) => event matches Some(
                            (CoreEvent::Nothing, Some((told, Parsed::RoonState))),
                        ) && told@ == state,
                        None => event is None,
                    }
                },
                Err(e) => r == Err::<(Reaction, Option<Event>), Fault>(e),
            },
    {
        let svc = match self.provided.get(service) {
            Some(svc) => svc,
            None => {
                return Err(Fault::Body);
            },
        };
        let ghost sub_types = svc.sub_types;
        let ghost all = replies@;
        let ghost view = replies_view(replies@);
        let mut props: Vec<RespProps> = Vec::new();
        let mut response_ids: Vec<HashMap<usize, usize>> = Vec::new();
        let mut stored: Option<Json> = None;
        assert(replies_view(props@) =~= Seq::<(Seq<Seq<char>>, Option<JsonView>)>::empty());
        assert(ids_view(response_ids@) =~= Seq::<Map<usize, usize>>::empty());
        for reply in it: replies.into_iter()
            invariant
                it.seq() == all,
                all == replies@,
                view == replies_view(all),
                sub_types == svc.sub_types,
                self.provided@.contains_key(service@),
                self.provided@[service@] == *svc,
                answers(view, it.index() as int, index, req_id, sub_types, roon_state@) == Ok::<
                    Answers,
                    Fault,
                >((replies_view(props@), ids_view(response_ids@), opt_json(stored))),
        {
            let ghost n = it.index() as int;
            let (hdr, body) = reply;
            let ghost before = props@;
            let ghost ids_before = response_ids@;
            assert(view[n] == (texts(hdr@), opt_json(body)));
            if hdr.len() > 2 {
                assert(texts(hdr@)[0] == hdr@[0]@);
                stored = match find_state(hdr[0], &body, roon_state, stored) {
                    Ok(stored) => stored,
                    Err(e) => {
                        proof {
                            lemma_answers_fail(
                                view,
                                n + 1,
                                all.len() as int,
                                index,
                                req_id,
                                sub_types,
                                roon_state@,
                            );
                        }
                        return Err(e);
                    },
                };
                let ids = match subscribers(&svc.sub_types, hdr[0]) {
                    Ok(ids) => ids,
                    Err(e) => {
                        proof {
                            lemma_answers_fail(
                                view,
                                n + 1,
                                all.len() as int,
                                index,
                                req_id,
                                sub_types,
                                roon_state@,
                            );
                        }
                        return Err(e);
                    },
                };
                response_ids.push(ids);
                let rest: RespProps = (behind_first(&hdr), body);
                props.push(rest);
                assert(replies_view(props@) =~= replies_view(before).push(reply_view(rest)));
                assert(ids_view(response_ids@) =~= ids_view(ids_before).push(ids@));
            } else {
                let same: RespProps = (hdr, body);
                props.push(same);
                let ids = id_of(index, req_id);
                response_ids.push(ids);
                assert(replies_view(props@) =~= replies_view(before).push(reply_view(same)));
                assert(ids_view(response_ids@) =~= ids_view(ids_before).push(ids@));
            }
        }
        let event = match stored {
            Some(state) => Some((CoreEvent::Nothing, Some((state, Parsed::RoonState)))),
            None => None,
        };
        Ok((Reaction { props, response_ids }, event))
    }
}

/// Each reply goes to those for whom it is: one with a third text in its header, without the
/// first, to all who have subscribed under that first text, each with a request with which it
/// has, and to nobody else; another one, as it is, to the core that has asked, with its request.
pub proof fn replies_go_to_their_receivers(
    replies: Seq<(Seq<Seq<char>>, Option<JsonView>)>,
    n: int,
    index: usize,
    req_id: usize,
    sub_types: Table<usize>,
    state: JsonView,
    names: Seq<Seq<char>>,
    i: int,
)
    requires
        0 <= i < n <= replies.len(),
        answers(replies, n, index, req_id, sub_types, state) is Ok,
        forall|k: int|
            0 <= k < sub_types.keys().len() ==> is_key(#[trigger] sub_types.keys()[k], names),
        forall|k: int| 0 <= k < names.len() ==> !(#[trigger] names[k]).contains(':'),
        replies[i].0.len() > 2 ==> !replies[i].0[0].contains(':'),
    ensures
        ({
            let (props, ids, _) = answers(replies, n, index, req_id, sub_types, state)->Ok_0;
            let (hdr, body) = replies[i];
            let keys = sub_types.keys();
            &&& props.len() == n
            &&& ids.len() == n
            &&& hdr.len() <= 2 ==> {
                &&& props[i] == (hdr, body)
                &&& ids[i] == Map::<usize, usize>::empty().insert(index, req_id)
            }
            &&& hdr.len() > 2 ==> {
                &&& props[i] == (hdr.skip(1), body)
                &&& forall|id: usize| #[trigger]
                    ids[i].contains_key(id) <==> has_subscribed(
                        keys,
                        hdr[0],
                        id,
                        keys.len() as int,
                    )
                &&& forall|id: usize| #[trigger]
                    ids[i].contains_key(id) ==> has_subscribed_with(
                        keys,
                        sub_types@,
                        hdr[0],
                        id,
                        ids[i][id],
                        keys.len() as int,
                    )
            }
        }),
    decreases n,
{
    let keys = sub_types.keys();
    if i < n - 1 {
        replies_go_to_their_receivers(
            replies,
            n - 1,
            index,
            req_id,
            sub_types,
            state,
            names,
            i,
        );
    } else {
        lemma_answers_len(replies, n - 1, index, req_id, sub_types, state);
        if replies[i].0.len() > 2 {
            subscribers_are_found(
                keys,
                sub_types@,
                names,
                replies[i].0[0],
                keys.len() as int,
            );
        }
    }
}

proof fn lemma_answers_len(
    replies: Seq<(Seq<Seq<char>>, Option<JsonView>)>,
    n: int,
    index: usize,
    req_id: usize,
    sub_types: Table<usize>,
    state: JsonView,
)
    requires
        0 <= n <= replies.len(),
        answers(replies, n, index, req_id, sub_types, state) is Ok,
    ensures
        answers(replies, n, index, req_id, sub_types, state)->Ok_0.0.len() == n,
        answers(replies, n, index, req_id, sub_types, state)->Ok_0.1.len() == n,
    decreases n,
{
    if n > 0 {
        lemma_answers_len(replies, n - 1, index, req_id, sub_types, state);
    }
}

/// Replies that are not about the pairing are always answered, and nothing is stored with them.
pub proof fn replies_are_answered(
    replies: Seq<(Seq<Seq<char>>, Option<JsonView>)>,
    n: int,
    index: usize,
    req_id: usize,
    sub_types: Table<usize>,
    state: JsonView,
    names: Seq<Seq<char>>,
)
    requires
        0 <= n <= replies.len(),
        forall|k: int|
            0 <= k < sub_types.keys().len() ==> is_key(#[trigger] sub_types.keys()[k], names),
        forall|k: int| 0 <= k < names.len() ==> !(#[trigger] names[k]).contains(':'),
        forall|k: int|
            0 <= k < n && (#[trigger] replies[k]).0.len() > 2 ==> !replies[k].0[0].contains(':')
                && replies[k].0[0] != "subscribe_pairing"@,
    ensures
        answers(replies, n, index, req_id, sub_types, state) matches Ok((_, _, stored)) && stored
            is None,
    decreases n,
{
    if n > 0 {
        replies_are_answered(replies, n - 1, index, req_id, sub_types, state, names);
        if replies[n - 1].0.len() > 2 {
            subscribers_are_found(
                sub_types.keys(),
                sub_types@,
                names,
                replies[n - 1].0[0],
                sub_types.keys().len() as int,
            );
        }
    }
}

/// With a reply to the subscribers of the pairing the state is stored with the core that the
/// reply names, and as it was otherwise. Such a reply has to have a body, and the state has to
/// take the core.
pub proof fn change_of_pairing_is_stored(
    sub_name: Seq<char>,
    body: Option<JsonView>,
    state: JsonView,
    stored: Option<JsonView>,
    key: Seq<char>,
)
    ensures
        ({
            let r = state_with(sub_name, body, state, stored);
            &&& sub_name != "subscribe_pairing"@ ==> r == Ok::<Option<JsonView>, Fault>(stored)
            &&& sub_name == "subscribe_pairing"@ ==> match body {
                None => r == Err::<Option<JsonView>, Fault>(Fault::Body),
                Some(body) => match member(body, "paired_core_id"@) {
                    None => r == Ok::<Option<JsonView>, Fault>(stored),
                    Some(id) => if state is Null || state is Object {
                        &&& r matches Ok(Some(after))
                        &&& member(after, "paired_core_id"@) == Some(id)
                        &&& key != "paired_core_id"@ ==> member(after, key) == member(state, key)
                    } else {
                        r == Err::<Option<JsonView>, Fault>(Fault::State)
                    },
                },
            }
        }),
{
}

/// A request that the extension does not know is answered with its name.
pub proof fn unknown_request_is_named(name: Seq<char>)
    ensures
        member(error_json(name), "error"@) == Some(JsonView::Text(name)),
{
}

/// The library answers what it can: that the extension is there, what it is paired with, and the
/// status that the service keeps. The rest is left to the user.
pub proof fn library_answers_what_it_can(
    method: Method,
    paired: Option<Core>,
    core: Option<Core>,
    state: State,
)
    ensures
        ({
            let r = own_replies(method, paired, core, state);
            let status = |body: JsonView|
                member(body, "message"@) == Some(JsonView::Text(state.status.0@)) && member(
                    body,
                    "is_error"@,
                ) == Some(JsonView::Bool(state.status.1));
            match method {
                Method::Ping => r == Some(seq![(seq!["COMPLETE"@, "Success"@], None::<JsonView>)]),
                Method::GetPairing => r == Some(get_replies(paired)),
                Method::Pair => r == Some(pair_replies(paired, core)),
                Method::StartPairing => r == Some(start_replies(paired)),
                Method::GetStatus => {
                    &&& r matches Some(replies)
                    &&& replies.len() == 1
                    &&& replies[0].0 == seq!["COMPLETE"@, "Success"@]
                    &&& replies[0].1 matches Some(body) && status(body)
                },
                Method::StartStatus => {
                    &&& r matches Some(replies)
                    &&& replies.len() == 1
                    &&& replies[0].0 == seq!["CONTINUE"@, "Subscribed"@]
                    &&& replies[0].1 matches Some(body) && status(body)
                },
                Method::GetSettings => r is None,
                Method::SaveSettings => r is None,
                Method::StartSettings => r is None,
                Method::User(_) => r is None,
            }
        }),
{
    status_is_told_as_it_is(state.status.0@, state.status.1);
}

/// A request that saves settings is kept by the service, and no other request changes what it
/// keeps.
pub proof fn saving_request_is_kept(before: State, step: Step, body: JsonView, req_id: usize)
    ensures
        ({
            let after = state_after(before, step, body, req_id);
            let saves = step == Step::Run(Method::SaveSettings) && member(body, "is_dry_run"@)
                == Some(JsonView::Bool(false));
            &&& saves ==> after.save_req_id == Some(req_id)
            &&& !saves ==> after.save_req_id == before.save_req_id
            &&& after.number == before.number
            &&& after.status == before.status
        }),
{
}

proof fn lemma_one_answer(
    reply: (Seq<Seq<char>>, Option<JsonView>),
    index: usize,
    req_id: usize,
    sub_types: Table<usize>,
    state: JsonView,
)
    requires
        reply.0.len() <= 2,
    ensures
        answers(seq![reply], 1, index, req_id, sub_types, state) == Ok::<Answers, Fault>(
            (seq![reply], seq![Map::<usize, usize>::empty().insert(index, req_id)], None),
        ),
{
    reveal_with_fuel(answers, 2);
    let none = Seq::<(Seq<Seq<char>>, Option<JsonView>)>::empty();
    assert(none.push(reply) =~= seq![reply]);
    let ids = Seq::<Map<usize, usize>>::empty();
    assert(ids.push(one_id(index, req_id)) =~= seq![
        Map::<usize, usize>::empty().insert(index, req_id),
    ]);
}

/// Whether a request is answered with one reply, which goes to the core that has asked and to no
/// other, and the user is told nothing.
pub open spec fn answered_once(
    r: Result<Outcome, Fault>,
    hdr: Seq<Seq<char>>,
    body: Option<JsonView>,
    index: usize,
    req_id: usize,
) -> bool {
    &&& r matches Ok(Outcome::Answered(reaction, None))
    &&& replies_view(reaction.props@) == seq![(hdr, body)]
    &&& ids_view(reaction.response_ids@) == seq![
        Map::<usize, usize>::empty().insert(index, req_id),
    ]
}

/// A request for a method is answered by the library, or left to the user, as the method says: a
/// core that asks whether the extension is there is told so, one that asks for the status or for
/// the pairing is told it, and settings are shown or saved with the values that the core gives.
/// Nobody is kept or dropped as a subscriber.
pub proof fn method_is_run(
    r: Result<Outcome, Fault>,
    before: Hub,
    after: Hub,
    index: usize,
    msg: MessageView,
    state: JsonView,
    method: Method,
)
    requires
        is_handled(r, before, after, index, msg, state),
        msg.service is Some,
        request_number(msg) is Some,
        ({
            let h = handlers(before.provided@[msg.service->Some_0].methods@);
            h.contains_key(msg.name) && h[msg.name] == HandlerView::Call(method)
        }),
    ensures
        ({
            let req_id = request_number(msg)->Some_0;
            let svc = before.provided@[msg.service->Some_0];
            let left = after.provided@[msg.service->Some_0];
            let paired = before.api.pairing.paired_core;
            let success = seq!["COMPLETE"@, "Success"@];
            &&& left.sub_types@ == svc.sub_types@
            &&& method != Method::Pair ==> after.api.pairing == before.api.pairing
            &&& match method {
                Method::Ping => answered_once(r, success, None, index, req_id),
                Method::GetStatus => answered_once(
                    r,
                    success,
                    Some(status_json(svc.state.status.0@, svc.state.status.1)),
                    index,
                    req_id,
                ),
                Method::GetPairing => answered_once(
                    r,
                    success,
                    match paired {
                        Some(core) => Some(pairing_json(core.id@)),
                        None => None,
                    },
                    index,
                    req_id,
                ),
                Method::GetSettings => r == Ok::<Outcome, Fault>(
                    Outcome::Show(Method::GetSettings),
                ),
                Method::StartSettings => r == Ok::<Outcome, Fault>(
                    Outcome::Show(Method::StartSettings),
                ),
                Method::SaveSettings => match member(body_of(msg), "is_dry_run"@) {
                    Some(JsonView::Bool(dry)) => {
                        &&& r matches Ok(Outcome::Save(tried, values))
                        &&& tried == dry
                        &&& member(body_of(msg), "settings"@) matches Some(settings) ==> (member(
                            settings,
                            "values"@,
                        ) matches Some(given) ==> values@ == given)
                        &&& !dry ==> left.state.save_req_id == Some(req_id)
                        &&& dry ==> left.state.save_req_id == svc.state.save_req_id
                    },
                    _ => r == Err::<Outcome, Fault>(Fault::Body),
                },
                Method::User(number) => r == Ok::<Outcome, Fault>(Outcome::Run(number)),
                _ => true,
            }
        }),
{
    let req_id = request_number(msg)->Some_0;
    let svc = before.provided@[msg.service->Some_0];
    let left = after.provided@[msg.service->Some_0];
    let core = registered_core(before.cores@, before.conns@[index as int].moo.id);
    if let Some(replies) = own_replies(method, before.api.pairing.paired_core, core, left.state) {
        if replies.len() == 1 && replies[0].0.len() <= 2 {
            assert(replies =~= seq![replies[0]]);
            lemma_one_answer(replies[0], index, req_id, left.sub_types, state);
        }
    }
}

/// A core that subscribes to the status or to the pairing is told it first, under the request
/// with which it subscribes.
pub proof fn subscriber_is_told_first(
    r: Result<Outcome, Fault>,
    before: Hub,
    after: Hub,
    index: usize,
    msg: MessageView,
    state: JsonView,
    sub_name: Seq<char>,
    method: Method,
)
    requires
        is_handled(r, before, after, index, msg, state),
        msg.service is Some,
        request_number(msg) is Some,
        method == Method::StartStatus || method == Method::StartPairing,
        ({
            let h = handlers(before.provided@[msg.service->Some_0].methods@);
            h.contains_key(msg.name) && h[msg.name] == HandlerView::Subscribe(sub_name, method)
        }),
        member(body_of(msg), "subscription_key"@) matches Some(v) && v is Text,
        before.cores@.contains_key(before.conns@[index as int].moo.id),
    ensures
        ({
            let req_id = request_number(msg)->Some_0;
            let svc = before.provided@[msg.service->Some_0];
            answered_once(
                r,
                seq!["CONTINUE"@, "Subscribed"@],
                Some(
                    if method == Method::StartStatus {
                        status_json(svc.state.status.0@, svc.state.status.1)
                    } else {
                        match before.api.pairing.paired_core {
                            Some(core) => pairing_json(core.id@),
                            None => pairing_json("undefined"@),
                        }
                    },
                ),
                index,
                req_id,
            )
        }),
{
    let req_id = request_number(msg)->Some_0;
    let left = after.provided@[msg.service->Some_0];
    let core = registered_core(before.cores@, before.conns@[index as int].moo.id);
    let replies = own_replies(
        method,
        before.api.pairing.paired_core,
        core,
        left.state,
    )->Some_0;
    assert(replies =~= seq![replies[0]]);
    lemma_one_answer(replies[0], index, req_id, left.sub_types, state);
}

/// A core that ends a subscription is told so, unless the user has something to do first.
pub proof fn end_of_subscription_is_told(
    r: Result<Outcome, Fault>,
    before: Hub,
    after: Hub,
    index: usize,
    msg: MessageView,
    state: JsonView,
    sub_name: Seq<char>,
    end: Option<Method>,
)
    requires
        is_handled(r, before, after, index, msg, state),
        msg.service is Some,
        request_number(msg) is Some,
        ({
            let h = handlers(before.provided@[msg.service->Some_0].methods@);
            h.contains_key(msg.name) && h[msg.name] == HandlerView::Unsubscribe(sub_name, end)
        }),
        member(body_of(msg), "subscription_key"@) matches Some(v) && v is Text,
        before.cores@.contains_key(before.conns@[index as int].moo.id),
    ensures
        end matches Some(Method::User(number)) ==> r == Ok::<Outcome, Fault>(
            Outcome::End(number),
        ),
        !(end matches Some(Method::User(_))) ==> answered_once(
            r,
            seq!["COMPLETE"@, "Unsubscribed"@],
            None,
            index,
            request_number(msg)->Some_0,
        ),
{
    let left = after.provided@[msg.service->Some_0];
    let reply = completed("Unsubscribed"@, None);
    lemma_one_answer(reply, index, request_number(msg)->Some_0, left.sub_types, state);
}

/// A core is known by its connection once it is registered.
pub proof fn registered_core_is_known(cores: Map<usize, Core>, moo_id: usize)
    ensures
        cores.contains_key(moo_id) ==> registered_core(cores, moo_id) == Some(cores[moo_id])
            && registered_id(cores, moo_id) == Some(cores[moo_id].moo.id),
        !cores.contains_key(moo_id) ==> registered_core(cores, moo_id) is None && registered_id(
            cores,
            moo_id,
        ) is None,
{
}

/// A request that the service does not know is answered with a reply without a header, and
/// changes nothing.
pub proof fn unknown_request_changes_nothing(
    r: Result<Outcome, Fault>,
    before: Hub,
    after: Hub,
    index: usize,
    msg: MessageView,
    state: JsonView,
)
    requires
        is_handled(r, before, after, index, msg, state),
        msg.service is Some,
        request_number(msg) is Some,
        !handlers(before.provided@[msg.service->Some_0].methods@).contains_key(msg.name),
    ensures
        answered_once(r, Seq::empty(), None, index, request_number(msg)->Some_0),
        after.api.pairing == before.api.pairing,
        after.provided@[msg.service->Some_0].sub_types@
            == before.provided@[msg.service->Some_0].sub_types@,
        after.provided@[msg.service->Some_0].state == before.provided@[msg.service->Some_0].state,
{
    let left = after.provided@[msg.service->Some_0];
    lemma_one_answer(no_reply(), index, request_number(msg)->Some_0, left.sub_types, state);
}

/// A request to begin or to end a subscription is refused without a key, and from a core that is
/// not registered. Nothing changes with it.
pub proof fn subscription_needs_a_key_and_a_core(
    r: Result<Outcome, Fault>,
    before: Hub,
    after: Hub,
    index: usize,
    msg: MessageView,
    state: JsonView,
)
    requires
        is_handled(r, before, after, index, msg, state),
        ({
            let h = handlers(before.provided@[msg.service->Some_0].methods@);
            h.contains_key(msg.name) && !(h[msg.name] is Call)
        }),
        !(member(body_of(msg), "subscription_key"@) matches Some(JsonView::Text(_)))
            || !before.cores@.contains_key(before.conns@[index as int].moo.id),
    ensures
        member(body_of(msg), "subscription_key"@) matches Some(JsonView::Text(_)) ==> r == Err::<
            Outcome,
            Fault,
        >(Fault::NoCore),
        !(member(body_of(msg), "subscription_key"@) matches Some(JsonView::Text(_))) ==> r
            == Err::<Outcome, Fault>(Fault::SubscriptionKey),
        after.provided@ == before.provided@,
        after.api.pairing == before.api.pairing,
{
}

/// A request changes no service but the one that it is for.
pub proof fn other_services_stay(
    r: Result<Outcome, Fault>,
    before: Hub,
    after: Hub,
    index: usize,
    msg: MessageView,
    state: JsonView,
    other: Seq<char>,
)
    requires
        is_handled(r, before, after, index, msg, state),
        other != msg.service->Some_0,
    ensures
        after.provided@.contains_key(other) <==> before.provided@.contains_key(other),
        before.provided@.contains_key(other) ==> after.provided@[other] == before.provided@[other],
{
}

/// A registered core that asks to be paired is the one that is paired then, and the one that was
/// paired before is lost. One that is paired already changes nothing.
pub proof fn asking_core_is_paired(
    r: Result<Outcome, Fault>,
    before: Hub,
    after: Hub,
    index: usize,
    msg: MessageView,
    state: JsonView,
    core: Core,
)
    requires
        is_handled(r, before, after, index, msg, state),
        ({
            let h = handlers(before.provided@[msg.service->Some_0].methods@);
            h.contains_key(msg.name) && h[msg.name] == HandlerView::Call(Method::Pair)
        }),
        before.cores@.contains_key(before.conns@[index as int].moo.id),
        before.cores@[before.conns@[index as int].moo.id] == core,
    ensures
        after.api.pairing.paired_core matches Some(now) && now.id@ == core.id@,
        ({
            let lost = after.api.pairing.lost_core_id;
            let lost_before = before.api.pairing.lost_core_id;
            match before.api.pairing.paired_core {
                Some(old) => if old.id@ == core.id@ {
                    &&& after.api.pairing.paired_core == Some(old)
                    &&& opt_view(lost) == opt_view(lost_before)
                } else {
                    &&& after.api.pairing.paired_core == Some(core)
                    &&& lost matches Some(id)
                    &&& id@ == old.id@
                },
                None => {
                    &&& after.api.pairing.paired_core == Some(core)
                    &&& opt_view(lost) == opt_view(lost_before)
                },
            }
        }),
{
}

/// A request leaves what its service is and what it offers as they are.
pub proof fn service_stays_offered(
    r: Result<Outcome, Fault>,
    before: Hub,
    after: Hub,
    index: usize,
    msg: MessageView,
    state: JsonView,
)
    requires
        is_handled(r, before, after, index, msg, state),
        before.provided@.contains_key(msg.service->Some_0),
    ensures
        ({
            let svc = before.provided@[msg.service->Some_0];
            let left = after.provided@[msg.service->Some_0];
            &&& after.provided@.contains_key(msg.service->Some_0)
            &&& left.name == svc.name
            &&& left.methods == svc.methods
            &&& left.sub_names == svc.sub_names
            &&& svc.wf() ==> left.wf()
        }),
{
}

/// Once a registered core is paired that was not, all who have subscribed to the pairing are
/// told its id, and the user is told the state to store, with that id. A state that takes no
/// members is refused.
pub proof fn asking_core_is_stored(
    r: Result<Outcome, Fault>,
    before: Hub,
    after: Hub,
    index: usize,
    msg: MessageView,
    state: JsonView,
    core: Core,
    names: Seq<Seq<char>>,
    key: Seq<char>,
)
    requires
        is_handled(r, before, after, index, msg, state),
        ({
            let h = handlers(before.provided@[msg.service->Some_0].methods@);
            h.contains_key(msg.name) && h[msg.name] == HandlerView::Call(Method::Pair)
        }),
        before.cores@.contains_key(before.conns@[index as int].moo.id),
        before.cores@[before.conns@[index as int].moo.id] == core,
        before.api.pairing.paired_core matches Some(old) ==> old.id@ != core.id@,
        ({
            let keys = after.provided@[msg.service->Some_0].sub_types.keys();
            forall|k: int| 0 <= k < keys.len() ==> is_key(#[trigger] keys[k], names)
        }),
        forall|k: int| 0 <= k < names.len() ==> !(#[trigger] names[k]).contains(':'),
    ensures
        state is Null || state is Object ==> {
            let keys = after.provided@[msg.service->Some_0].sub_types.keys();
            &&& r matches Ok(Outcome::Answered(reaction, Some((happened, Some((told, said))))))
            &&& happened is Nothing
            &&& said is RoonState
            &&& member(told@, "paired_core_id"@) == Some(JsonView::Text(core.id@))
            &&& key != "paired_core_id"@ ==> member(told@, key) == member(state, key)
            &&& replies_view(reaction.props@) == seq![
                (seq!["CONTINUE"@, "Changed"@], Some(pairing_json(core.id@))),
            ]
            &&& reaction.response_ids@.len() == 1
            &&& forall|id: usize| #[trigger]
                reaction.response_ids@[0]@.contains_key(id) <==> has_subscribed(
                    keys,
                    "subscribe_pairing"@,
                    id,
                    keys.len() as int,
                )
        },
        !(state is Null || state is Object) ==> r == Err::<Outcome, Fault>(Fault::State),
{
    reveal_with_fuel(answers, 2);
    let req_id = request_number(msg)->Some_0;
    let left = after.provided@[msg.service->Some_0];
    let sub_types = left.sub_types;
    let replies = pair_replies(before.api.pairing.paired_core, Some(core));
    assert(own_replies(
        Method::Pair,
        before.api.pairing.paired_core,
        Some(core),
        left.state,
    ) == Some(replies));
    assert(!"subscribe_pairing"@.contains(':')) by {
        reveal_strlit("subscribe_pairing");
    }
    let hdr = replies[0].0;
    assert(hdr =~= seq!["subscribe_pairing"@, "CONTINUE"@, "Changed"@]);
    assert(hdr.skip(1) =~= seq!["CONTINUE"@, "Changed"@]);
    assert(member(pairing_json(core.id@), "paired_core_id"@) == Some(JsonView::Text(core.id@)));
    subscribers_are_found(
        sub_types.keys(),
        sub_types@,
        names,
        "subscribe_pairing"@,
        sub_types.keys().len() as int,
    );
    assert(is_answered(r, replies, index, req_id, sub_types, state));
    if state is Null || state is Object {
        let none = Seq::<(Seq<Seq<char>>, Option<JsonView>)>::empty();
        let told = (seq!["CONTINUE"@, "Changed"@], Some(pairing_json(core.id@)));
        assert(none.push(told) =~= seq![told]);
        let ids = r->Ok_0->Answered_0.response_ids@;
        assert(ids_view(ids).len() == 1);
        assert(ids_view(ids)[0] == ids[0]@);
    }
}

} // verus!
