//! What happens on the connections with cores: how the extension registers, what it answers, and
//! what it tells the user.

pub mod register;
pub mod request;
pub mod response;
pub mod send;

use std::collections::HashMap;
use vstd::prelude::*;
use crate::api::{RegInfo, RoonApi};
use crate::cores::{Core, CoreEvent, Services};
use crate::hub::register::{conn_at, lemma_conn_gone};
use crate::json::{member, member_text, opt_json, Json, JsonView};
use crate::moo::frame::{frame, sent_line};
use crate::moo::message::{body_of, MessageView, MooMessage};
use crate::moo::{Moo, MooSender, Session};
use crate::pairing::{pairing_handlers, Pairing};
use crate::parsed::Parsed;
use crate::ping::Ping;
use crate::service::{
    handlers, is_key, key_text, only, replies_view, HandlerView, Method, RespProps, Svc,
};
use crate::table::Table;
use crate::text::{same_text, strings, texts};

verus! {

broadcast use vstd::std_specs::hash::group_hash_axioms;

/// A connection with a core.
#[derive(Debug)]
pub struct Conn {
    pub moo: MooSender,
    pub session: Session,
}

/// Whether no two connections have the same id.
pub open spec fn ids_apart(conns: Seq<Conn>) -> bool {
    forall|i: int, j: int|
        0 <= i < j < conns.len() ==> (#[trigger] conns[i]).moo.id != (#[trigger] conns[j]).moo.id
}

/// What the user is told: what happened to a core, and what a message says.
pub type Event = (CoreEvent, Option<(Json, Parsed)>);

/// The extension while it is connected: the services that it provides, those that it uses, the
/// connections, those of them that are not registered yet, by their position, and the cores that
/// are, by their connection.
#[derive(Debug)]
pub struct Hub {
    pub api: RoonApi,
    pub provided: Table<Svc>,
    pub services: Option<Vec<Services>>,
    pub conns: Vec<Conn>,
    pub user_moos: HashMap<usize, Moo>,
    pub cores: HashMap<usize, Core>,
}

impl Hub {
    /// Each core is kept under its connection, and each service keeps subscribers only under
    /// keys of the subscriptions that it offers.
    pub open spec fn wf(self) -> bool {
        &&& forall|id: usize| #[trigger]
            self.cores@.contains_key(id) ==> self.cores@[id].moo.id == id
        &&& all_wf(self.provided@)
    }
}

/// Whether each service keeps subscribers only under keys of the subscriptions that it offers.
pub open spec fn all_wf(provided: Map<Seq<char>, Svc>) -> bool {
    forall|name: Seq<char>| #[trigger] provided.contains_key(name) ==> provided[name].wf()
}

/// What is sent in answer to a message: replies, and for each of them the connections to which it
/// goes, with the ids of the requests that it answers.
///
/// A reply goes over the connection at a position. The one to a core that has asked, and the one
/// to those who have subscribed to the pairing when a core registers, name the position. A reply
/// of a service to all who have subscribed names the ids of their connections, which are taken
/// as positions. The two are the same as long as each connection that was tried is there: once a
/// connection was lost, or an attempt to connect has failed, such a reply goes to the connection
/// whose position is the id of the subscriber's, where there is one.
#[derive(Debug)]
pub struct Reaction {
    pub props: Vec<RespProps>,
    pub response_ids: Vec<HashMap<usize, usize>>,
}

/// To whom replies go.
pub open spec fn ids_view(s: Seq<HashMap<usize, usize>>) -> Seq<Map<usize, usize>> {
    Seq::new(s.len(), |i: int| s[i]@)
}

/// To one connection.
pub open spec fn one_id(index: usize, req_id: usize) -> Map<usize, usize> {
    Map::empty().insert(index, req_id)
}

/// To one connection.
pub fn id_of(index: usize, req_id: usize) -> (r: HashMap<usize, usize>)
    ensures
        r@ == one_id(index, req_id),
{
    let mut ids: HashMap<usize, usize> = HashMap::new();
    let _ = ids.insert(index, req_id);
    ids
}

impl RoonApi {
    /// Begins to listen to cores. Besides the services of the user, the extension provides the
    /// one with which a core looks for it and, where it is to be paired, the one with which a
    /// core is. It is paired with no core.
    pub fn start_moo_receiver(self, provided: Table<Svc>, services: Option<Vec<Services>>) -> (r:
        Hub)
        ensures
            r.api.reg_info == self.reg_info,
            r.api.sood_conns == self.sood_conns,
            r.api.with_pairing == self.with_pairing,
            r.api.pairing.paired_core is None,
            r.api.pairing.lost_core_id is None,
            r.services == services,
            r.conns@ == Seq::<Conn>::empty(),
            r.user_moos@ == Map::<usize, Moo>::empty(),
            r.cores@ == Map::<usize, Core>::empty(),
            ({
                let ping = crate::ping::SVCNAME@;
                let pairing = crate::pairing::SVCNAME@;
                &&& r.provided@ == if self.with_pairing {
                    provided@.insert(ping, r.provided@[ping]).insert(
                        pairing,
                        r.provided@[pairing],
                    )
                } else {
                    provided@.insert(ping, r.provided@[ping])
                }
                &&& handlers(r.provided@[ping].methods@) == Map::<
                    Seq<char>,
                    HandlerView,
                >::empty().insert("ping"@, HandlerView::Call(Method::Ping))
                &&& r.provided@[ping].sub_types@ == Map::<Seq<char>, usize>::empty()
                &&& r.provided@[ping].wf()
                &&& self.with_pairing ==> {
                    &&& handlers(r.provided@[pairing].methods@) == pairing_handlers()
                    &&& r.provided@[pairing].sub_types@ == Map::<Seq<char>, usize>::empty()
                    &&& strings(r.provided@[pairing].sub_names@) == seq!["subscribe_pairing"@]
                    &&& r.provided@[pairing].wf()
                }
            }),
            all_wf(provided@) ==> r.wf(),
    {
        let mut provided = provided;
        let ghost before = provided@;
        provided.insert(crate::ping::SVCNAME, Ping::create());
        if self.with_pairing {
            provided.insert(crate::pairing::SVCNAME, Pairing::create());
        }
        proof {
            reveal_strlit("com.roonlabs.ping:1");
            reveal_strlit("com.roonlabs.pairing:1");
            assert(crate::ping::SVCNAME@.len() != crate::pairing::SVCNAME@.len());
            let ping = crate::ping::SVCNAME@;
            let pairing = crate::pairing::SVCNAME@;
            if self.with_pairing {
                assert(provided@ =~= before.insert(ping, provided@[ping]).insert(
                    pairing,
                    provided@[pairing],
                ));
            } else {
                assert(provided@ =~= before.insert(ping, provided@[ping]));
            }
        }
        let mut api = self;
        api.pairing = Pairing::new();
        Hub {
            api,
            provided,
            services,
            conns: Vec::new(),
            user_moos: HashMap::new(),
            cores: HashMap::new(),
        }
    }
}

/// What a message is about.
#[derive(Clone, Copy, Debug, PartialEq, Eq, Structural)]
pub enum Topic {
    /// A core that tells who it is.
    CoreInfo,
    /// A core that has registered the extension.
    Registered,
    /// A request of a core.
    Request,
    /// An answer of a core.
    Response,
}

/// What a message is about.
pub open spec fn topic_of(m: MessageView) -> Topic {
    if m.request_id == Some("0"@) && member_text(body_of(m), "core_id"@) is Some {
        Topic::CoreInfo
    } else if m.name == "Registered"@ {
        Topic::Registered
    } else if m.verb == "REQUEST"@ {
        Topic::Request
    } else {
        Topic::Response
    }
}

/// Finds what a message is about.
pub fn topic(msg: &MooMessage) -> (r: Topic)
    ensures
        r == topic_of(msg@),
{
    let first = match &msg.request_id {
        Some(id) => same_text(id.as_str(), "0"),
        None => false,
    };
    if first && msg.body_text("core_id").is_some() {
        Topic::CoreInfo
    } else if same_text(msg.name.as_str(), "Registered") {
        Topic::Registered
    } else if same_text(msg.verb.as_str(), "REQUEST") {
        Topic::Request
    } else {
        Topic::Response
    }
}

/// The names of the services that the extension needs, in the order of a list.
pub open spec fn required_names(s: Seq<Services>, n: int) -> Seq<Seq<char>>
    decreases n,
{
    if n <= 0 {
        Seq::empty()
    } else {
        let rest = required_names(s, n - 1);
        match s[n - 1] {
            Services::Transport(_) => rest.push(crate::transport::SVCNAME@),
            Services::Browse(_) => rest.push(crate::browse::SVCNAME@),
            Services::Image(_) => rest.push(crate::image::SVCNAME@),
            _ => rest,
        }
    }
}

/// The names of the services that the extension needs.
pub open spec fn required_of(services: Option<Vec<Services>>) -> Seq<Seq<char>> {
    match services {
        Some(list) => required_names(list@, list@.len() as int),
        None => Seq::empty(),
    }
}

/// The token that a state holds for a core.
pub open spec fn token_for(state: JsonView, core_id: Seq<char>) -> Option<JsonView> {
    match member(state, "tokens"@) {
        Some(tokens) => member(tokens, core_id),
        None => None,
    }
}

/// The request with which a core is asked who it is.
pub fn info_request(sender: &MooSender, session: &Session) -> (r: (usize, String, String))
    ensures
        r.0 == session.req_id,
        r.1@ == frame(session.req_id as nat, "REQUEST"@, "com.roonlabs.registry:1/info"@, None),
        r.2@ == sent_line(
            session.req_id as nat,
            "REQUEST"@,
            "com.roonlabs.registry:1/info"@,
            None,
        ),
{
    sender.send_req(session, "com.roonlabs.registry:1/info", None)
}

/// Appends the names of the services that the extension needs.
fn add_required(names: &mut Vec<String>, services: &Option<Vec<Services>>)
    ensures
        strings(final(names)@) == strings(old(names)@) + required_of(*services),
{
    let ghost before = strings(names@);
    match services {
        Some(list) => {
            let mut i: usize = 0;
            while i < list.len()
                invariant
                    i <= list@.len(),
                    strings(names@) == before + required_names(list@, i as int),
                decreases list@.len() - i,
            {
                let ghost now = names@;
                let name = match &list[i] {
                    Services::Transport(_) => Some(crate::transport::SVCNAME),
                    Services::Browse(_) => Some(crate::browse::SVCNAME),
                    Services::Image(_) => Some(crate::image::SVCNAME),
                    _ => None,
                };
                if let Some(name) = name {
                    names.push(name.to_owned());
                    assert(strings(names@) =~= strings(now).push(name@));
                }
                i += 1;
            }
        },
        None => {
            assert(before + Seq::<Seq<char>>::empty() =~= before);
        },
    }
}

/// Appends the names of the services that the extension provides.
fn add_provided(names: &mut Vec<String>, provided: &Table<Svc>)
    ensures
        strings(final(names)@) == strings(old(names)@) + provided.keys(),
{
    let ghost before = strings(names@);
    let ghost keys = provided.keys();
    let n = provided.len();
    let mut i: usize = 0;
    assert(before + keys.take(0) =~= before);
    while i < n
        invariant
            i <= n,
            n == keys.len(),
            keys == provided.keys(),
            strings(names@) == before + keys.take(i as int),
        decreases n - i,
    {
        let ghost now = names@;
        names.push(provided.entry(i).0.clone());
        assert(strings(names@) =~= strings(now).push(keys[i as int]));
        assert(keys.take(i + 1) =~= keys.take(i as int).push(keys[i as int]));
        i += 1;
    }
    assert(keys.take(i as int) =~= keys);
}

/// The registration once a core has told who it is.
pub open spec fn registering(
    before: RegInfo,
    after: RegInfo,
    required: Seq<Seq<char>>,
    provided: Seq<Seq<char>>,
    token: Option<JsonView>,
) -> bool {
    &&& after.info == before.info
    &&& strings(after.required_services@) == strings(before.required_services@) + required
    &&& strings(after.provided_services@) == strings(before.provided_services@) + provided
    &&& opt_json(after.token) == match token {
        Some(token) => Some(token),
        None => opt_json(before.token),
    }
}

impl Hub {
    /// Takes up a connection.
    pub fn connected(&mut self, moo: Moo, sender: MooSender, session: Session)
        ensures
            final(self).api == old(self).api,
            final(self).provided == old(self).provided,
            final(self).services == old(self).services,
            final(self).cores == old(self).cores,
            final(self).user_moos@ == old(self).user_moos@.insert(
                old(self).conns@.len() as usize,
                moo,
            ),
            final(self).conns@ == old(self).conns@.push(Conn { moo: sender, session }),
            ids_apart(old(self).conns@) && conn_at(old(self).conns@, sender.id, 0) == old(
                self,
            ).conns@.len() ==> ids_apart(final(self).conns@),
            old(self).wf() ==> final(self).wf(),
    {
        proof {
            if conn_at(self.conns@, sender.id, 0) == self.conns@.len() {
                lemma_conn_gone(self.conns@, sender.id, 0);
            }
        }
        let n = self.conns.len();
        let _ = self.user_moos.insert(n, moo);
        self.conns.push(Conn { moo: sender, session });
    }

    /// Registers with a core that tells who it is. What the extension registers with is kept, so
    /// that the services are listed once more for each core.
    pub fn on_core_info(&mut self, index: usize, msg: &MooMessage, roon_state: &Json) -> (r:
        Reaction)
        requires
            index < old(self).conns@.len(),
            topic_of(msg@) == Topic::CoreInfo,
        ensures
            final(self).api == (RoonApi { reg_info: final(self).api.reg_info, ..old(self).api }),
            final(self).provided == old(self).provided,
            final(self).services == old(self).services,
            final(self).conns == old(self).conns,
            final(self).user_moos == old(self).user_moos,
            final(self).cores == old(self).cores,
            registering(
                old(self).api.reg_info,
                final(self).api.reg_info,
                required_of(old(self).services),
                old(self).provided.keys(),
                token_for(roon_state@, member_text(body_of(msg@), "core_id"@)->Some_0),
            ),
            replies_view(r.props@) == seq![
                (
                    seq!["REQUEST"@, "com.roonlabs.registry:1/register"@],
                    Some(final(self).api.reg_info.json()),
                ),
            ],
            ids_view(r.response_ids@) == seq![
                one_id(index, old(self).conns@[index as int].session.req_id),
            ],
            old(self).wf() ==> final(self).wf(),
    {
        add_required(&mut self.api.reg_info.required_services, &self.services);
        add_provided(&mut self.api.reg_info.provided_services, &self.provided);
        if let Some(core_id) = msg.body_text("core_id") {
            if let Some(tokens) = roon_state.get("tokens") {
                if let Some(token) = tokens.get(core_id) {
                    self.api.reg_info.token = Some(token.clone());
                }
            }
        }
        let req_id = self.conns[index].session.req_id;
        let hdr: Vec<&'static str> = vec!["REQUEST", "com.roonlabs.registry:1/register"];
        assert(texts(hdr@) =~= seq!["REQUEST"@, "com.roonlabs.registry:1/register"@]);
        let props = only((hdr, Some(self.api.reg_info.to_json())));
        let mut response_ids: Vec<HashMap<usize, usize>> = Vec::new();
        response_ids.push(id_of(index, req_id));
        assert(ids_view(response_ids@) =~= seq![one_id(index, req_id)]);
        Reaction { props, response_ids }
    }
}

/// The services have the names by which cores know them.
pub proof fn names_of_services()
    ensures
        crate::transport::SVCNAME@ == "com.roonlabs.transport:2"@,
        crate::browse::SVCNAME@ == "com.roonlabs.browse:1"@,
        crate::image::SVCNAME@ == "com.roonlabs.image:1"@,
        crate::status::SVCNAME@ == "com.roonlabs.status:1"@,
        crate::settings::SVCNAME@ == "com.roonlabs.settings:1"@,
        crate::pairing::SVCNAME@ == "com.roonlabs.pairing:1"@,
        crate::ping::SVCNAME@ == "com.roonlabs.ping:1"@,
        crate::sood::SERVICE_ID@ == "00720724-5143-4a9b-abac-0e50cba674bb"@,
{
}

/// The first answer of a core tells who it is where it names the core. Otherwise a message is
/// about a registration, or a request, as its name and its verb say, and else it is an answer.
pub proof fn messages_are_told_apart(m: MessageView)
    ensures
        ({
            let names_core = member(body_of(m), "core_id"@) matches Some(JsonView::Text(_));
            &&& topic_of(m) == Topic::CoreInfo <==> m.request_id == Some("0"@) && names_core
            &&& topic_of(m) == Topic::Registered <==> m.name == "Registered"@ && !(m.request_id
                == Some("0"@) && names_core)
            &&& topic_of(m) == Topic::Request <==> m.verb == "REQUEST"@ && m.name
                != "Registered"@ && !(m.request_id == Some("0"@) && names_core)
        }),
{
}

/// The extension needs each service of a core that it uses, in the order in which it uses them,
/// and no other.
pub proof fn used_services_are_needed(s: Seq<Services>, n: int)
    requires
        0 < n <= s.len(),
    ensures
        required_names(s, 0) == Seq::<Seq<char>>::empty(),
        ({
            let before = required_names(s, n - 1);
            let after = required_names(s, n);
            match s[n - 1] {
                Services::Transport(_) => after == before.push("com.roonlabs.transport:2"@),
                Services::Browse(_) => after == before.push("com.roonlabs.browse:1"@),
                Services::Image(_) => after == before.push("com.roonlabs.image:1"@),
                Services::Status(_) => after == before,
                Services::Settings(_) => after == before,
            }
        }),
{
    assert(required_names(s, 0) =~= Seq::<Seq<char>>::empty());
}

/// All the services that are used are needed, and without any none is.
pub proof fn all_used_services_are_needed(services: Option<Vec<Services>>)
    ensures
        services matches Some(list) ==> required_of(services) == required_names(
            list@,
            list@.len() as int,
        ),
        services is None ==> required_of(services) == Seq::<Seq<char>>::empty(),
{
}

/// The token for a core is the one that the state holds under its id, among the tokens.
pub proof fn token_stands_under_its_core(state: JsonView, core_id: Seq<char>)
    ensures
        member(state, "tokens"@) matches Some(tokens) ==> token_for(state, core_id) == member(
            tokens,
            core_id,
        ),
        member(state, "tokens"@) is None ==> token_for(state, core_id) is None,
{
}

/// The extension registers with what it tells about itself, with the services that it needs and
/// provides behind those of before, and with the token for the core, where there is one.
pub proof fn extension_registers_with_its_services(
    before: RegInfo,
    after: RegInfo,
    required: Seq<Seq<char>>,
    provided: Seq<Seq<char>>,
    token: Option<JsonView>,
)
    requires
        registering(before, after, required, provided, token),
    ensures
        after.info == before.info,
        strings(after.required_services@) == strings(before.required_services@) + required,
        strings(after.provided_services@) == strings(before.provided_services@) + provided,
        token matches Some(t) ==> (after.token matches Some(j) && j@ == t),
        token is None ==> opt_json(after.token) == opt_json(before.token),
{
}

/// What goes to one connection goes to no other, with the id of its request.
pub proof fn one_connection_is_named(index: usize, req_id: usize, other: usize)
    ensures
        one_id(index, req_id).contains_key(other) <==> other == index,
        one_id(index, req_id)[index] == req_id,
{
}

/// Connections that are apart have ids of their own.
pub proof fn connections_have_their_own_ids(conns: Seq<Conn>, i: int, j: int)
    requires
        ids_apart(conns),
        0 <= i < conns.len(),
        0 <= j < conns.len(),
        conns[i].moo.id == conns[j].moo.id,
    ensures
        i == j,
{
    if i < j {
        assert(conns[i].moo.id != conns[j].moo.id);
    }
    if j < i {
        assert(conns[j].moo.id != conns[i].moo.id);
    }
}

/// Each core is known by the connection that it has, and each subscriber is kept under the name
/// of a subscription that its service offers, a connection and a key.
pub proof fn cores_and_subscribers_are_kept_under_their_ids(
    hub: Hub,
    id: usize,
    service: Seq<char>,
    k: Seq<char>,
)
    requires
        hub.wf(),
    ensures
        hub.cores@.contains_key(id) ==> hub.cores@[id].moo.id == id,
        hub.provided@.contains_key(service) && hub.provided@[service].sub_types@.contains_key(k)
            ==> exists|i: int, moo_id: usize, key: Seq<char>|
            0 <= i < hub.provided@[service].sub_names@.len() && k == #[trigger] key_text(
                hub.provided@[service].sub_names@[i]@,
                moo_id as nat,
                key,
            ),
{
    if hub.provided@.contains_key(service) && hub.provided@[service].sub_types@.contains_key(k) {
        let svc = hub.provided@[service];
        assert(svc.wf());
        let names = strings(svc.sub_names@);
        assert(is_key(k, names));
        let (i, moo_id, key) = choose|i: int, moo_id: usize, key: Seq<char>|
            0 <= i < names.len() && k == #[trigger] key_text(names[i], moo_id as nat, key);
        assert(k == key_text(svc.sub_names@[i]@, moo_id as nat, key));
    }
}

} // verus!
