//! What goes out over the connections, and what happens when one of them is lost.

use vstd::prelude::*;
use crate::api::RoonApi;
use crate::cores::{first_status, first_status_is_found, Core, CoreEvent, Services};
use crate::hub::register::{conn_at, find_conn};
use crate::hub::request::{own_replies, registered_core};
use crate::hub::{ids_apart, Conn, Event, Hub};
use crate::json::{empty_object, member, Json, JsonView};
use crate::moo::frame::{frame, sent_line};
use crate::moo::{body_text, logs, ref_json, without_first, Moo, Outgoing, Session};
use crate::parsed::Parsed;
use crate::service::{completed, continued, find_named, named, Fault, Method, Svc};
use crate::settings::{at, Settings};
use crate::status::{is_set, status_json, Status};
use crate::table::Table;
use crate::text::strings;

verus! {

broadcast use vstd::std_specs::hash::group_hash_axioms;

/// What goes out with a reply: what the user is told, and the message with the line to log.
#[derive(Debug)]
pub struct Answer {
    pub saved: Option<Event>,
    pub send: Option<(String, String)>,
}

/// The first settings of a list, from position `from` on.
pub open spec fn first_settings(s: Seq<Services>, from: int) -> int
    decreases s.len() - from,
{
    if from >= s.len() {
        s.len() as int
    } else if s[from] is Settings {
        from
    } else {
        first_settings(s, from + 1)
    }
}

/// The request with which settings were saved: those that are among the services, as far as
/// their service is provided.
pub open spec fn saved_request(
    services: Option<Vec<Services>>,
    provided: Table<Svc>,
) -> Option<usize> {
    match services {
        Some(list) => {
            let i = first_settings(list@, 0);
            if i < list@.len() {
                match named(
                    provided,
                    crate::settings::SVCNAME@,
                    list@[i]->Settings_0.number,
                ) {
                    Some(name) => provided@[name].state.save_req_id,
                    None => None,
                }
            } else {
                None
            }
        },
        None => None,
    }
}

/// Whether the user is told of settings that were saved: with the reply to the request that has
/// saved them, their values.
pub open spec fn tells_saved(
    event: Option<Event>,
    services: Option<Vec<Services>>,
    provided: Table<Svc>,
    req_id: usize,
    body: Option<JsonView>,
) -> bool {
    match (body, event) {
        (Some(body), Some(event)) => {
            &&& saved_request(services, provided) == Some(req_id)
            &&& event matches (CoreEvent::Nothing, Some((told, Parsed::SettingsSaved(values))))
            &&& told@ == empty_object()
            &&& values@ == at(at(body, "settings"@), "values"@)
        },
        (Some(_), None) => saved_request(services, provided) != Some(req_id),
        (None, event) => event is None,
    }
}

/// Finds the first settings of a list.
pub fn find_settings(services: &Option<Vec<Services>>) -> (r: Option<Settings>)
    ensures
        match r {
            Some(s) => {
                &&& *services matches Some(list)
                &&& first_settings(list@, 0) < list@.len()
                &&& s == list@[first_settings(list@, 0)]->Settings_0
            },
            None => *services matches Some(list) ==> first_settings(list@, 0) >= list@.len(),
        },
{
    match services {
        Some(list) => {
            let mut i: usize = 0;
            while i < list.len()
                invariant
                    *services == Some(*list),
                    i <= list@.len(),
                    first_settings(list@, 0) == first_settings(list@, i as int),
                decreases list@.len() - i,
            {
                if let Services::Settings(s) = &list[i] {
                    return Some(*s);
                }
                i += 1;
            }
            None
        },
        None => None,
    }
}

/// A list without the item at a position, where there is one.
pub open spec fn without<A>(s: Seq<A>, index: int) -> Seq<A> {
    if 0 <= index < s.len() {
        s.remove(index)
    } else {
        s
    }
}

/// A core that was found is the one that is lost with its connection, once.
pub proof fn found_core_is_lost(cores: Map<usize, Core>, core: Core)
    ensures
        registered_core(cores.insert(core.moo.id, core), core.moo.id) == Some(core),
        registered_core(cores.insert(core.moo.id, core).remove(core.moo.id), core.moo.id) is None,
{
}

/// What comes of a new status: its service keeps it, as far as that is provided.
pub open spec fn status_kept(
    r: Result<Option<Outgoing>, Fault>,
    before: Table<Svc>,
    after: Table<Svc>,
    status: Status,
    message: String,
    is_error: bool,
) -> bool {
    match named(before, crate::status::SVCNAME@, status.number) {
        Some(name) => {
            &&& after@ == before@.insert(name, after@[name])
            &&& is_set(r, before@[name], after@[name], status.moo, message, is_error)
        },
        None => {
            &&& r == Ok::<Option<Outgoing>, Fault>(None)
            &&& after == before
        },
    }
}

/// What comes of a new status that the user of a core sets. The one among the services is
/// connected with the core, and its service keeps the new one, as far as it is provided.
pub open spec fn status_set(
    r: Result<Option<Outgoing>, Fault>,
    before: Hub,
    after: Hub,
    moo: Moo,
    message: String,
    is_error: bool,
) -> bool {
    let list = match before.services {
        Some(list) => list@,
        None => Seq::empty(),
    };
    let i = first_status(list, 0);
    if i < list.len() {
        let status = Status { moo: Some(moo), ..list[i]->Status_0 };
        &&& after.services matches Some(left)
        &&& left@ == list.update(i, Services::Status(status))
        &&& status_kept(r, before.provided, after.provided, status, message, is_error)
    } else {
        &&& r == Ok::<Option<Outgoing>, Fault>(None)
        &&& after.services == before.services
        &&& after.provided == before.provided
    }
}

/// A status that was set is what a core is told that asks for it or subscribes to it.
pub proof fn status_is_answered(
    r: Result<Option<Outgoing>, Fault>,
    before: Svc,
    after: Svc,
    moo: Option<Moo>,
    message: String,
    is_error: bool,
    paired: Option<Core>,
    core: Option<Core>,
)
    requires
        is_set(r, before, after, moo, message, is_error),
        r is Ok,
    ensures
        own_replies(Method::GetStatus, paired, core, after.state) == Some(
            seq![completed("Success"@, Some(status_json(message@, is_error)))],
        ),
        own_replies(Method::StartStatus, paired, core, after.state) == Some(
            seq![continued("Subscribed"@, Some(status_json(message@, is_error)))],
        ),
{
}

impl Hub {
    /// Sets the status for the user of a core, and gives the message that tells the core of it,
    /// where that has subscribed.
    pub fn set_status(&mut self, core: &Core, message: String, is_error: bool) -> (r: Result<
        Option<Outgoing>,
        Fault,
    >)
        ensures
            final(self).api == old(self).api,
            final(self).conns == old(self).conns,
            final(self).user_moos == old(self).user_moos,
            final(self).cores == old(self).cores,
            status_set(r, *old(self), *final(self), core.moo, message, is_error),
            old(self).wf() ==> final(self).wf(),
    {
        let status = match core.get_status(&mut self.services) {
            Some(status) => *status,
            None => {
                return Ok(None);
            },
        };
        self.keep_status(&status, message, is_error)
    }

    /// Sets a status, and gives the message that tells the core that it is connected with of it,
    /// where it is and that has subscribed.
    pub fn keep_status(&mut self, status: &Status, message: String, is_error: bool) -> (r: Result<
        Option<Outgoing>,
        Fault,
    >)
        ensures
            final(self).api == old(self).api,
            final(self).services == old(self).services,
            final(self).conns == old(self).conns,
            final(self).user_moos == old(self).user_moos,
            final(self).cores == old(self).cores,
            status_kept(
                r,
                old(self).provided,
                final(self).provided,
                *status,
                message,
                is_error,
            ),
            old(self).wf() ==> final(self).wf(),
    {
        let found = find_named(&self.provided, crate::status::SVCNAME, status.number);
        let name = match found {
            Some((name, _)) => name.clone(),
            None => {
                return Ok(None);
            },
        };
        match self.provided.remove(name.as_str()) {
            Some(svc) => {
                let mut svc = svc;
                let r = status.set_status(&mut svc, message, is_error);
                self.provided.insert(name.as_str(), svc);
                assert(self.provided@ =~= old(self).provided@.insert(name@, svc));
                r
            },
            None => Ok(None),
        }
    }

    /// What goes out when a reply is sent over a connection: nothing where that is gone.
    pub fn answer(&self, moo_index: usize, req_id: usize, hdr: &[&str], body: Option<&Json>) -> (r:
        Option<Answer>)
        ensures
            match r {
                Some(answer) => {
                    let text = body_text(ref_json(body));
                    &&& moo_index < self.conns@.len()
                    &&& tells_saved(
                        answer.saved,
                        self.services,
                        self.provided,
                        req_id,
                        ref_json(body),
                    )
                    &&& match answer.send {
                        Some((msg, log)) => {
                            &&& hdr@.len() > 1
                            &&& msg@ == frame(req_id as nat, hdr@[0]@, hdr@[1]@, text)
                            &&& log@ == sent_line(req_id as nat, hdr@[0]@, hdr@[1]@, text)
                        },
                        None => hdr@.len() <= 1,
                    }
                },
                None => moo_index >= self.conns@.len(),
            },
    {
        if moo_index >= self.conns.len() {
            return None;
        }
        let parsed = match find_settings(&self.services) {
            Some(settings) => match find_named(
                &self.provided,
                crate::settings::SVCNAME,
                settings.number,
            ) {
                Some((_, svc)) => Settings::parse_msg(&svc.state, req_id, body),
                None => Parsed::Nothing,
            },
            None => Parsed::Nothing,
        };
        let saved = match parsed {
            Parsed::Nothing => None,
            _ => Some((CoreEvent::Nothing, Some((Json::object(), parsed)))),
        };
        let send = self.conns[moo_index].moo.send_msg(req_id, hdr, body);
        Some(Answer { saved, send })
    }

    /// Notes that a reply was sent over a connection, and tells whether it is logged.
    pub fn answered(&mut self, moo_index: usize, req_id: usize, hdr: &[&str]) -> (r: bool)
        requires
            moo_index < old(self).conns@.len(),
            hdr@.len() > 1 && hdr@[0]@ == "REQUEST"@ ==> old(
                self,
            ).conns@[moo_index as int].session.req_id < usize::MAX,
        ensures
            final(self).api == old(self).api,
            final(self).provided == old(self).provided,
            final(self).services == old(self).services,
            final(self).user_moos == old(self).user_moos,
            final(self).cores == old(self).cores,
            ({
                let i = moo_index as int;
                let before = old(self).conns@[i];
                let after = final(self).conns@[i];
                &&& final(self).conns@ == old(self).conns@.update(i, after)
                &&& after.moo == before.moo
                &&& if hdr@.len() > 1 {
                    &&& r == logs(
                        before.moo.log_level,
                        before.session.quiet_reqs@.contains(req_id),
                    )
                    &&& after.session.req_id == before.session.req_id + if hdr@[0]@ == "REQUEST"@ {
                        1int
                    } else {
                        0int
                    }
                    &&& after.session.quiet_reqs@ == if hdr@[0]@ == "COMPLETE"@ {
                        without_first(before.session.quiet_reqs@, req_id)
                    } else {
                        before.session.quiet_reqs@
                    }
                } else {
                    r == false && after == before
                }
            }),
            old(self).wf() ==> final(self).wf(),
    {
        if hdr.len() > 1 {
            let moo = self.conns[moo_index].moo;
            let verb = hdr[0];
            moo.msg_sent(&mut self.conns[moo_index].session, req_id, verb)
        } else {
            assert(self.conns@ =~= old(self).conns@.update(
                moo_index as int,
                old(self).conns@[moo_index as int],
            ));
            false
        }
    }

    /// What the users of a connection share, as long as it is there.
    pub fn session<'a>(&'a mut self, moo_id: usize) -> (r: Option<&'a mut Session>)
        ensures
            final(self).api == old(self).api,
            final(self).provided == old(self).provided,
            final(self).services == old(self).services,
            final(self).user_moos == old(self).user_moos,
            final(self).cores == old(self).cores,
            ({
                let i = conn_at(old(self).conns@, moo_id, 0);
                if i < old(self).conns@.len() {
                    &&& r matches Some(session)
                    &&& *session == old(self).conns@[i].session
                    &&& final(self).conns@ == old(self).conns@.update(
                        i,
                        Conn { moo: old(self).conns@[i].moo, session: *final(session) },
                    )
                } else {
                    r is None && final(self).conns@ == old(self).conns@
                }
            }),
            old(self).wf() ==> final(self).wf(),
    {
        match find_conn(&self.conns, moo_id) {
            Some(i) => Some(&mut self.conns[i].session),
            None => None,
        }
    }

    /// Gives up a connection that is lost: the core that was lost with it, and whether it was
    /// the last.
    pub fn on_closed(&mut self, index: usize) -> (r: (Option<Event>, bool))
        requires
            index < old(self).conns@.len(),
        ensures
            final(self).api == (RoonApi {
                sood_conns: final(self).api.sood_conns,
                ..old(self).api
            }),
            strings(final(self).api.sood_conns@) == without(
                strings(old(self).api.sood_conns@),
                index as int,
            ),
            final(self).provided == old(self).provided,
            final(self).services == old(self).services,
            final(self).user_moos == old(self).user_moos,
            final(self).conns@ == old(self).conns@.remove(index as int),
            ({
                let id = old(self).conns@[index as int].moo.id;
                &&& final(self).cores@ == old(self).cores@.remove(id)
                &&& match registered_core(old(self).cores@, id) {
                    Some(core) => r.0 matches Some((CoreEvent::Lost(lost), None)) && lost == core,
                    None => r.0 is None,
                }
            }),
            r.1 == (old(self).conns@.len() == 1),
            ids_apart(old(self).conns@) ==> ids_apart(final(self).conns@),
            old(self).wf() ==> final(self).wf(),
    {
        let conn = self.conns.remove(index);
        let ghost before = self.api.sood_conns@;
        if index < self.api.sood_conns.len() {
            let _ = self.api.sood_conns.remove(index);
        }
        assert(strings(self.api.sood_conns@) =~= without(strings(before), index as int));
        let event = match self.cores.remove(&conn.moo.id) {
            Some(core) => Some((CoreEvent::Lost(core), None)),
            None => None,
        };
        (event, self.conns.len() == 0)
    }
}

/// The first settings of a list are found, and none where there is none.
pub proof fn first_settings_is_found(s: Seq<Services>, from: int)
    requires
        0 <= from <= s.len(),
    ensures
        from <= first_settings(s, from) <= s.len(),
        first_settings(s, from) < s.len() ==> s[first_settings(s, from)] is Settings,
        forall|i: int| from <= i < first_settings(s, from) ==> !(#[trigger] s[i] is Settings),
    decreases s.len() - from,
{
    if from < s.len() && !(s[from] is Settings) {
        first_settings_is_found(s, from + 1);
    }
}

/// The user is told of settings that were saved exactly with a reply that has a body and goes to
/// the request with which they were saved last, as their service keeps it: the values that the
/// body shows.
pub proof fn saved_settings_are_told(
    event: Option<Event>,
    services: Option<Vec<Services>>,
    provided: Table<Svc>,
    req_id: usize,
    body: Option<JsonView>,
    i: int,
    name: Seq<char>,
)
    requires
        tells_saved(event, services, provided, req_id, body),
        services is Some,
        0 <= i < services->Some_0@.len(),
        services->Some_0@[i] is Settings,
        forall|j: int| 0 <= j < i ==> !(#[trigger] services->Some_0@[j] is Settings),
        named(
            provided,
            "com.roonlabs.settings:1"@,
            services->Some_0@[i]->Settings_0.number,
        ) == Some(name),
    ensures
        event is Some <==> body is Some && provided@[name].state.save_req_id == Some(req_id),
        event matches Some(event) ==> {
            &&& event.0 is Nothing
            &&& event.1 matches Some((_, Parsed::SettingsSaved(values)))
            &&& member(body->Some_0, "settings"@) matches Some(settings) ==> (member(
                settings,
                "values"@,
            ) matches Some(shown) ==> values@ == shown)
        },
{
    let list = services->Some_0@;
    first_settings_is_found(list, 0);
    let k = first_settings(list, 0);
    assert(k == i) by {
        if i < k {
            assert(!(list[i] is Settings));
        }
        if k < i {
            assert(!(services->Some_0@[k] is Settings));
        }
    }
}

/// Without the settings among the services the user is not told of any.
pub proof fn unlisted_settings_are_not_told(
    event: Option<Event>,
    services: Option<Vec<Services>>,
    provided: Table<Svc>,
    req_id: usize,
    body: Option<JsonView>,
)
    requires
        tells_saved(event, services, provided, req_id, body),
        services matches Some(list) ==> forall|j: int|
            0 <= j < list@.len() ==> !(#[trigger] list@[j] is Settings),
    ensures
        event is None,
{
    if services is Some {
        first_settings_is_found(services->Some_0@, 0);
    }
}

/// With a connection the item at its position goes, and no other.
pub proof fn item_at_position_goes<A>(a: Seq<A>, x: A, b: Seq<A>)
    ensures
        without(a.push(x) + b, a.len() as int) == a + b,
        without(a, a.len() as int) == a,
{
    assert((a.push(x) + b).remove(a.len() as int) =~= a + b);
}

/// A status that the user sets is kept by the service of the first status among the services,
/// which is connected with the core from then on. No other service is changed.
pub proof fn set_status_is_kept_by_its_service(
    r: Result<Option<Outgoing>, Fault>,
    before: Hub,
    after: Hub,
    moo: Moo,
    message: String,
    is_error: bool,
    i: int,
    name: Seq<char>,
    other: Seq<char>,
)
    requires
        status_set(r, before, after, moo, message, is_error),
        r is Ok,
        before.services is Some,
        0 <= i < before.services->Some_0@.len(),
        before.services->Some_0@[i] is Status,
        forall|j: int| 0 <= j < i ==> !(#[trigger] before.services->Some_0@[j] is Status),
        named(
            before.provided,
            "com.roonlabs.status:1"@,
            before.services->Some_0@[i]->Status_0.number,
        ) == Some(name),
    ensures
        ({
            let list = before.services->Some_0@;
            &&& after.provided@[name].state.status == (message, is_error)
            &&& other != name ==> {
                &&& after.provided@.contains_key(other) <==> before.provided@.contains_key(other)
                &&& before.provided@.contains_key(other) ==> after.provided@[other]
                    == before.provided@[other]
            }
            &&& after.services matches Some(left)
            &&& left@.len() == list.len()
            &&& left@[i] matches Services::Status(status)
            &&& status.moo == Some(moo)
            &&& status.number == list[i]->Status_0.number
            &&& forall|j: int| 0 <= j < list.len() && j != i ==> #[trigger] left@[j] == list[j]
        }),
{
    let list = before.services->Some_0@;
    first_status_is_found(list, 0);
    let k = first_status(list, 0);
    assert(k == i) by {
        if i < k {
            assert(!(list[i] is Status));
        }
        if k < i {
            assert(!(before.services->Some_0@[k] is Status));
        }
    }
}

/// Without a status among the services nothing is told, and nothing changes.
pub proof fn unlisted_status_is_not_set(
    r: Result<Option<Outgoing>, Fault>,
    before: Hub,
    after: Hub,
    moo: Moo,
    message: String,
    is_error: bool,
)
    requires
        status_set(r, before, after, moo, message, is_error),
        before.services matches Some(list) ==> forall|j: int|
            0 <= j < list@.len() ==> !(#[trigger] list@[j] is Status),
    ensures
        r == Ok::<Option<Outgoing>, Fault>(None),
        after.services == before.services,
        after.provided == before.provided,
{
    if before.services is Some {
        first_status_is_found(before.services->Some_0@, 0);
    }
}

/// A status whose service is not provided is not kept, nobody is told of it, and nothing changes.
pub proof fn status_without_service_is_not_kept(
    r: Result<Option<Outgoing>, Fault>,
    before: Table<Svc>,
    after: Table<Svc>,
    status: Status,
    message: String,
    is_error: bool,
)
    requires
        status_kept(r, before, after, status, message, is_error),
        named(before, "com.roonlabs.status:1"@, status.number) is None,
    ensures
        r == Ok::<Option<Outgoing>, Fault>(None),
        after == before,
{
}

} // verus!
