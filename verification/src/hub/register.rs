//! What happens when a core has registered the extension.

use std::collections::HashMap;
use vstd::prelude::*;
use crate::api::RoonApi;
use crate::cores::{Core, CoreEvent};
use crate::hub::{ids_view, token_for, Conn, Event, Hub, Reaction};
use crate::json::{member, member_text, takes_members, text_of, with_member, Json, JsonView};
use crate::moo::message::{body_of, MooMessage};
use crate::pairing::{pairing_body, pairing_json};
use crate::parsed::Parsed;
use crate::service::{
    continued, is_key, key_text, keys_apart, lemma_key_split, only, replies_view, send_continue, Fault,
    RespProps,
};
use crate::settings::at;
use crate::table::Table;
use crate::text::{
    contains_text, decimal, decimal_round_trip, has_part, parse_unsigned, same_text, split,
    split_text, stands_at, texts, unsigned_value,
};

verus! {

broadcast use vstd::std_specs::hash::group_hash_axioms;

/// The state with the token of a core: none where it is not of the form that it has to have.
pub open spec fn with_token(state: JsonView, core_id: Seq<char>, token: Seq<char>) -> Option<
    JsonView,
> {
    if takes_members(state) && takes_members(at(state, "tokens"@)) {
        Some(
            with_member(
                state,
                "tokens"@,
                with_member(at(state, "tokens"@), core_id, JsonView::Text(token)),
            ),
        )
    } else {
        None
    }
}

/// Whether a core that registers is paired: as long as none is, the one that the state names or,
/// where it names none, the first.
pub open spec fn is_paired_with(paired: bool, state: JsonView, core_id: Seq<char>) -> Option<bool> {
    if paired {
        Some(false)
    } else {
        match member(state, "paired_core_id"@) {
            Some(v) => match text_of(v) {
                Some(id) => Some(id == core_id),
                None => None,
            },
            None => Some(true),
        }
    }
}

/// The state with the id of a core that is paired.
pub open spec fn with_paired(state: JsonView, pairs: bool, core_id: Seq<char>) -> JsonView {
    if pairs && member(state, "paired_core_id"@) is None {
        with_member(state, "paired_core_id"@, JsonView::Text(core_id))
    } else {
        state
    }
}

/// The position of a connection, from position `from` on.
pub open spec fn conn_at(conns: Seq<Conn>, moo_id: usize, from: int) -> int
    decreases conns.len() - from,
{
    if from >= conns.len() {
        conns.len() as int
    } else if conns[from].moo.id == moo_id {
        from
    } else {
        conn_at(conns, moo_id, from + 1)
    }
}

/// To whom a change of the pairing goes: those of the first `n` subscribers whose connections are
/// still there. Of two on the same connection the later counts. There is no answer where a key
/// names no connection.
pub open spec fn pairing_ids(
    keys: Seq<Seq<char>>,
    sub_types: Map<Seq<char>, usize>,
    conns: Seq<Conn>,
    n: int,
) -> Option<Map<usize, usize>>
    decreases n,
{
    if n <= 0 {
        Some(Map::empty())
    } else {
        match pairing_ids(keys, sub_types, conns, n - 1) {
            None => None,
            Some(ids) => {
                let key = keys[n - 1];
                let parts = split(key, ':');
                if !has_part(key, "subscribe_pairing"@) {
                    Some(ids)
                } else if parts.len() < 2 {
                    None
                } else {
                    match unsigned_value(parts[1]) {
                        Some(moo_id) => {
                            let i = conn_at(conns, moo_id, 0);
                            if i < conns.len() {
                                Some(ids.insert(i as usize, sub_types[key]))
                            } else {
                                Some(ids)
                            }
                        },
                        None => None,
                    }
                }
            },
        }
    }
}

/// What comes of a registration: the core, the state to store, whether the core is paired, and
/// who is told of it, if anyone is to be.
pub struct Registration {
    pub display_name: Seq<char>,
    pub display_version: Seq<char>,
    pub id: Seq<char>,
    pub state: JsonView,
    pub pairs: bool,
    pub told: Option<Map<usize, usize>>,
}

/// What comes of a registration.
pub open spec fn registration(hub: Hub, index: usize, body: JsonView, state: JsonView) -> Result<
    Registration,
    Fault,
> {
    if !hub.user_moos@.contains_key(index) {
        Err(Fault::NoUser)
    } else {
        match (
            member_text(body, "display_name"@),
            member_text(body, "display_version"@),
            member_text(body, "core_id"@),
            member_text(body, "token"@),
        ) {
            (Some(display_name), Some(display_version), Some(id), Some(token)) => {
                match with_token(state, id, token) {
                    None => Err(Fault::State),
                    Some(state) => match is_paired_with(
                        hub.api.pairing.paired_core is Some || !hub.api.with_pairing,
                        state,
                        id,
                    ) {
                        None => Err(Fault::State),
                        Some(pairs) => {
                            let name = crate::pairing::SVCNAME@;
                            let state = with_paired(state, pairs, id);
                            if pairs && hub.provided@.contains_key(name) {
                                let table = hub.provided@[name].sub_types;
                                match pairing_ids(
                                    table.keys(),
                                    table@,
                                    hub.conns@,
                                    table.keys().len() as int,
                                ) {
                                    None => Err(Fault::Key),
                                    Some(ids) => Ok(
                                        Registration {
                                            display_name,
                                            display_version,
                                            id,
                                            state,
                                            pairs,
                                            told: Some(ids),
                                        },
                                    ),
                                }
                            } else {
                                Ok(
                                    Registration {
                                        display_name,
                                        display_version,
                                        id,
                                        state,
                                        pairs,
                                        told: None,
                                    },
                                )
                            }
                        },
                    },
                }
            },
            _ => Err(Fault::Body),
        }
    }
}

/// A connection that is not found is not there.
pub proof fn lemma_conn_gone(conns: Seq<Conn>, moo_id: usize, from: int)
    requires
        0 <= from <= conns.len(),
        conn_at(conns, moo_id, from) == conns.len(),
    ensures
        forall|i: int| from <= i < conns.len() ==> (#[trigger] conns[i]).moo.id != moo_id,
    decreases conns.len() - from,
{
    if from < conns.len() {
        lemma_conn_gone(conns, moo_id, from + 1);
    }
}

/// Finds a connection.
pub fn find_conn(conns: &Vec<Conn>, moo_id: usize) -> (r: Option<usize>)
    ensures
        match r {
            Some(i) => {
                &&& i < conns@.len()
                &&& i == conn_at(conns@, moo_id, 0)
                &&& conns@[i as int].moo.id == moo_id
            },
            None => conn_at(conns@, moo_id, 0) == conns@.len(),
        },
{
    let mut i: usize = 0;
    while i < conns.len()
        invariant
            i <= conns@.len(),
            conn_at(conns@, moo_id, 0) == conn_at(conns@, moo_id, i as int),
        decreases conns@.len() - i,
    {
        if conns[i].moo.id == moo_id {
            return Some(i);
        }
        i += 1;
    }
    None
}

proof fn lemma_pairing_ids_fails(
    keys: Seq<Seq<char>>,
    sub_types: Map<Seq<char>, usize>,
    conns: Seq<Conn>,
    n: int,
    m: int,
)
    requires
        n <= m,
        pairing_ids(keys, sub_types, conns, n) is None,
    ensures
        pairing_ids(keys, sub_types, conns, m) is None,
    decreases m - n,
{
    if n < m {
        lemma_pairing_ids_fails(keys, sub_types, conns, n, m - 1);
    }
}

/// Whether a subscriber to the pairing, according to the first `n` keys, is at a position.
pub open spec fn subscribes_at(
    keys: Seq<Seq<char>>,
    conns: Seq<Conn>,
    position: int,
    n: int,
) -> bool {
    exists|i: int, id: usize, key: Seq<char>|
        0 <= i < n && (#[trigger] keys[i]) == #[trigger] key_text(
            "subscribe_pairing"@,
            id as nat,
            key,
        ) && position == conn_at(conns, id, 0)
}

/// The subscribers to the pairing are found: the keys under which the service keeps them name
/// their connections, and a change goes exactly to those that are still there.
pub proof fn pairing_subscribers_are_found(
    keys: Seq<Seq<char>>,
    sub_types: Map<Seq<char>, usize>,
    conns: Seq<Conn>,
    n: int,
)
    requires
        0 <= n <= keys.len(),
        conns.len() <= usize::MAX,
        forall|i: int|
            0 <= i < keys.len() ==> is_key(#[trigger] keys[i], seq!["subscribe_pairing"@]),
    ensures
        pairing_ids(keys, sub_types, conns, n) matches Some(ids) && forall|position: usize|
            #[trigger]
            ids.contains_key(position) <==> position < conns.len() && subscribes_at(
                keys,
                conns,
                position as int,
                n,
            ),
    decreases n,
{
    if n > 0 {
        pairing_subscribers_are_found(keys, sub_types, conns, n - 1);
        let before = pairing_ids(keys, sub_types, conns, n - 1)->Some_0;
        let names = seq!["subscribe_pairing"@];
        let k = keys[n - 1];
        assert(is_key(k, names));
        let (j, moo_id, key) = choose|j: int, id: usize, key: Seq<char>|
            0 <= j < names.len() && k == #[trigger] key_text(names[j], id as nat, key);
        assert(!"subscribe_pairing"@.contains(':')) by {
            reveal_strlit("subscribe_pairing");
        }
        lemma_key_split(names[j], moo_id as nat, key);
        decimal_round_trip(moo_id);
        assert(split(k, ':')[1] == decimal(moo_id as nat));
        assert(has_part(k, "subscribe_pairing"@)) by {
            assert(k.subrange(0, names[j].len() as int) =~= names[j]);
            assert(stands_at(k, names[j], 0));
        }
        lemma_conn_at(conns, moo_id, 0);
        let ids = pairing_ids(keys, sub_types, conns, n)->Some_0;
        assert forall|position: usize| #[trigger] ids.contains_key(position) <==> position
            < conns.len() && subscribes_at(keys, conns, position as int, n) by {
            if position < conns.len() && subscribes_at(keys, conns, position as int, n) {
                let (i, id, other) = choose|i: int, id: usize, other: Seq<char>|
                    0 <= i < n && (#[trigger] keys[i]) == #[trigger] key_text(
                        "subscribe_pairing"@,
                        id as nat,
                        other,
                    ) && position == conn_at(conns, id, 0);
                if i == n - 1 {
                    keys_apart("subscribe_pairing"@, id as nat, other, moo_id as nat, key);
                } else {
                    assert(subscribes_at(keys, conns, position as int, n - 1));
                }
            }
            if ids.contains_key(position) {
                if before.contains_key(position) {
                    let (i, id, other) = choose|i: int, id: usize, other: Seq<char>|
                        0 <= i < n - 1 && (#[trigger] keys[i]) == #[trigger] key_text(
                            "subscribe_pairing"@,
                            id as nat,
                            other,
                        ) && position == conn_at(conns, id, 0);
                    assert(keys[i] == key_text("subscribe_pairing"@, id as nat, other));
                } else {
                    assert(keys[n - 1] == key_text("subscribe_pairing"@, moo_id as nat, key));
                }
            }
        }
    }
}

proof fn lemma_conn_at(conns: Seq<Conn>, moo_id: usize, from: int)
    requires
        0 <= from <= conns.len(),
    ensures
        from <= conn_at(conns, moo_id, from) <= conns.len(),
    decreases conns.len() - from,
{
    if from < conns.len() {
        lemma_conn_at(conns, moo_id, from + 1);
    }
}

/// An extension that is not to be paired is paired with no core that registers: nobody is told,
/// and what is stored of the core is its token.
pub proof fn nothing_is_paired(hub: Hub, index: usize, body: JsonView, state: JsonView)
    requires
        !hub.api.with_pairing,
    ensures
        registration(hub, index, body, state) matches Ok(reg) ==> {
            &&& !reg.pairs
            &&& reg.told is None
            &&& with_token(state, reg.id, member_text(body, "token"@)->Some_0) == Some(reg.state)
        },
{
}

/// Finds to whom a change of the pairing goes, and whether there is anyone.
fn find_pairing_ids(sub_types: &Table<usize>, conns: &Vec<Conn>) -> (r: Option<
    (HashMap<usize, usize>, bool),
>)
    ensures
        match pairing_ids(sub_types.keys(), sub_types@, conns@, sub_types.keys().len() as int) {
            Some(ids) => r matches Some((found, any)) && found@ == ids && any == (ids
                != Map::<usize, usize>::empty()),
            None => r is None,
        },
{
    let ghost keys = sub_types.keys();
    let mut ids: HashMap<usize, usize> = HashMap::new();
    let mut any = false;
    let n = sub_types.len();
    let mut i: usize = 0;
    while i < n
        invariant
            i <= n,
            n == keys.len(),
            keys == sub_types.keys(),
            pairing_ids(keys, sub_types@, conns@, i as int) == Some(ids@),
            any == (ids@ != Map::<usize, usize>::empty()),
        decreases n - i,
    {
        let (key, req_id) = sub_types.entry(i);
        if contains_text(key.as_str(), "subscribe_pairing") {
            let parts = split_text(key.as_str(), ':');
            let moo_id = if parts.len() < 2 {
                None
            } else {
                assert(texts(parts@)[1] == parts@[1]@);
                parse_unsigned(parts[1])
            };
            match moo_id {
                Some(moo_id) => {
                    if let Some(index) = find_conn(conns, moo_id) {
                        let _ = ids.insert(index, *req_id);
                        any = true;
                        assert(ids@.contains_key(index));
                    }
                },
                None => {
                    proof {
                        lemma_pairing_ids_fails(keys, sub_types@, conns@, i + 1, n as int);
                    }
                    return None;
                },
            }
        }
        i += 1;
    }
    Some((ids, any))
}

/// Puts the token of a core into a state.
fn add_token(state: Json, core_id: &str, token: &str) -> (r: Option<Json>)
    ensures
        match r {
            Some(after) => with_token(state@, core_id@, token@) == Some(after@),
            None => with_token(state@, core_id@, token@) is None,
        },
{
    if !state.is_settable() {
        return None;
    }
    let mut tokens = match state.get("tokens") {
        Some(tokens) => tokens.clone(),
        None => Json::Null,
    };
    if !tokens.is_settable() {
        return None;
    }
    tokens.set(core_id, Json::text(token));
    let mut state = state;
    state.set("tokens", tokens);
    Some(state)
}

/// Finds whether a core that registers is paired.
fn find_pairs(paired: bool, state: &Json, core_id: &str) -> (r: Option<bool>)
    ensures
        r == is_paired_with(paired, state@, core_id@),
{
    if paired {
        return Some(false);
    }
    match state.get("paired_core_id") {
        Some(v) => match v.as_str() {
            Some(id) => Some(same_text(id, core_id)),
            None => None,
        },
        None => Some(true),
    }
}

/// The token that a core gives with its registration is the one that it is sent the next time.
pub proof fn token_is_sent_back(
    state: JsonView,
    core_id: Seq<char>,
    token: Seq<char>,
    pairs: bool,
)
    requires
        with_token(state, core_id, token) is Some,
    ensures
        token_for(
            with_paired(with_token(state, core_id, token)->Some_0, pairs, core_id),
            core_id,
        ) == Some(JsonView::Text(token)),
{
    reveal_strlit("tokens");
    reveal_strlit("paired_core_id");
    assert("tokens"@.len() != "paired_core_id"@.len());
}

/// The tokens of the other cores stay as they are.
pub proof fn other_tokens_stay(
    state: JsonView,
    core_id: Seq<char>,
    token: Seq<char>,
    pairs: bool,
    other: Seq<char>,
)
    requires
        with_token(state, core_id, token) is Some,
        other != core_id,
    ensures
        token_for(
            with_paired(with_token(state, core_id, token)->Some_0, pairs, core_id),
            other,
        ) == token_for(state, other),
{
    reveal_strlit("tokens");
    reveal_strlit("paired_core_id");
    assert("tokens"@.len() != "paired_core_id"@.len());
}

/// A core that was paired at its registration is paired again the next time, and no other core
/// is.
pub proof fn paired_core_stays(
    state: JsonView,
    core_id: Seq<char>,
    token: Seq<char>,
    other: Seq<char>,
    other_token: Seq<char>,
)
    requires
        with_token(state, core_id, token) is Some,
        is_paired_with(
            false,
            with_token(state, core_id, token)->Some_0,
            core_id,
        ) == Some(true),
    ensures
        ({
            let stored = with_paired(with_token(state, core_id, token)->Some_0, true, core_id);
            &&& with_token(stored, other, other_token) matches Some(next)
            &&& is_paired_with(false, next, other) == Some(other == core_id)
        }),
{
    reveal_strlit("tokens");
    reveal_strlit("paired_core_id");
    assert("tokens"@.len() != "paired_core_id"@.len());
}

impl Hub {
    /// Takes up a core that has registered the extension: the user is told of it, with the state
    /// to store, and where the core is paired, so are those who have subscribed to the pairing.
    ///
    /// There is one reply for all these subscribers. A hub that has failed is left as it was.
    pub fn on_registered(&mut self, index: usize, msg: &MooMessage, roon_state: Json) -> (r: Result<
        (Reaction, Event),
        Fault,
    >)
        ensures
            match registration(*old(self), index, body_of(msg@), roon_state@) {
                Ok(reg) => {
                    let moo = old(self).user_moos@[index];
                    &&& r matches Ok((reaction, event))
                    &&& event matches (CoreEvent::Found(core), Some((state, Parsed::RoonState)))
                    &&& core.display_name@ == reg.display_name
                    &&& core.display_version@ == reg.display_version
                    &&& core.id@ == reg.id
                    &&& core.moo == moo
                    &&& state@ == reg.state
                    &&& match reg.told {
                        Some(ids) => {
                            &&& replies_view(reaction.props@) == seq![
                                continued("Changed"@, Some(pairing_json(reg.id))),
                            ]
                            &&& ids_view(reaction.response_ids@) == if ids == Map::<
                                usize,
                                usize,
                            >::empty() {
                                Seq::<Map<usize, usize>>::empty()
                            } else {
                                seq![ids]
                            }
                        },
                        None => {
                            &&& reaction.props@ == Seq::<RespProps>::empty()
                            &&& reaction.response_ids@ == Seq::<HashMap<usize, usize>>::empty()
                        },
                    }
                    &&& final(self).user_moos@ == old(self).user_moos@.remove(index)
                    &&& final(self).cores@ == old(self).cores@.insert(moo.id, core)
                    &&& final(self).api.pairing.paired_core == if reg.pairs {
                        Some(core)
                    } else {
                        old(self).api.pairing.paired_core
                    }
                    &&& final(self).api.pairing.lost_core_id == old(
                        self,
                    ).api.pairing.lost_core_id
                    &&& final(self).api == (RoonApi {
                        pairing: final(self).api.pairing,
                        ..old(self).api
                    })
                    &&& final(self).provided == old(self).provided
                    &&& final(self).services == old(self).services
                    &&& final(self).conns == old(self).conns
                },
                Err(e) => {
                    &&& r == Err::<(Reaction, Event), Fault>(e)
                    &&& *final(self) == *old(self)
                },
            },
            old(self).wf() ==> final(self).wf(),
    {
        let moo = match self.user_moos.get(&index) {
            Some(moo) => *moo,
            None => {
                return Err(Fault::NoUser);
            },
        };
        let (display_name, display_version, id, token) = match (
            msg.body_text("display_name"),
            msg.body_text("display_version"),
            msg.body_text("core_id"),
            msg.body_text("token"),
        ) {
            (Some(name), Some(version), Some(id), Some(token)) => (name, version, id, token),
            _ => {
                return Err(Fault::Body);
            },
        };
        let mut state = match add_token(roon_state, id, token) {
            Some(state) => state,
            None => {
                return Err(Fault::State);
            },
        };
        let paired = self.api.pairing.paired_core.is_some() || !self.api.with_pairing;
        let pairs = match find_pairs(paired, &state, id) {
            Some(pairs) => pairs,
            None => {
                return Err(Fault::State);
            },
        };
        if pairs && state.get("paired_core_id").is_none() {
            state.set("paired_core_id", Json::text(id));
        }
        let mut props: Vec<RespProps> = Vec::new();
        let mut response_ids: Vec<HashMap<usize, usize>> = Vec::new();
        if pairs {
            if let Some(svc) = self.provided.get(crate::pairing::SVCNAME) {
                match find_pairing_ids(&svc.sub_types, &self.conns) {
                    Some((ids, any)) => {
                        if any {
                            response_ids.push(ids);
                            assert(ids_view(response_ids@) =~= seq![ids@]);
                        } else {
                            assert(ids_view(response_ids@) =~= Seq::<Map<usize, usize>>::empty());
                        }
                        props = only(send_continue("Changed", Some(pairing_body(id))));
                    },
                    None => {
                        return Err(Fault::Key);
                    },
                }
            }
        }
        let core = Core {
            display_name: display_name.to_owned(),
            display_version: display_version.to_owned(),
            id: id.to_owned(),
            moo,
        };
        let _ = self.user_moos.remove(&index);
        if pairs {
            self.api.pairing.paired_core = Some(core.clone());
        }
        let _ = self.cores.insert(moo.id, core.clone());
        Ok(
            (
                Reaction { props, response_ids },
                (CoreEvent::Found(core), Some((state, Parsed::RoonState))),
            ),
        )
    }
}

/// A connection is found at the first position at which it is.
pub proof fn connection_is_found(conns: Seq<Conn>, moo_id: usize, at: int, from: int)
    requires
        0 <= from <= at <= conns.len(),
        at < conns.len() ==> conns[at].moo.id == moo_id,
        forall|i: int| from <= i < at ==> (#[trigger] conns[i]).moo.id != moo_id,
    ensures
        conn_at(conns, moo_id, from) == at,
    decreases at - from,
{
    if from < at {
        assert(conns[from].moo.id != moo_id);
        connection_is_found(conns, moo_id, at, from + 1);
    }
}

/// A core that registers is taken up with what it says of itself. It is paired exactly where the
/// extension is to be paired, is not yet, and the state names that core or none. Then the state
/// names it, and those who have subscribed to the pairing are told. What else is stored stays.
pub proof fn core_is_taken_up(
    hub: Hub,
    index: usize,
    body: JsonView,
    state: JsonView,
    name: Seq<char>,
    version: Seq<char>,
    id: Seq<char>,
    token: Seq<char>,
    key: Seq<char>,
)
    requires
        hub.user_moos@.contains_key(index),
        member(body, "display_name"@) == Some(JsonView::Text(name)),
        member(body, "display_version"@) == Some(JsonView::Text(version)),
        member(body, "core_id"@) == Some(JsonView::Text(id)),
        member(body, "token"@) == Some(JsonView::Text(token)),
        state is Null || state is Object,
        member(state, "tokens"@) matches Some(tokens) ==> tokens is Null || tokens is Object,
        member(state, "paired_core_id"@) matches Some(v) ==> v is Text,
        hub.conns@.len() <= usize::MAX,
        hub.provided@.contains_key("com.roonlabs.pairing:1"@) ==> forall|i: int|
            0 <= i < hub.provided@["com.roonlabs.pairing:1"@].sub_types.keys().len() ==> is_key(
                #[trigger] hub.provided@["com.roonlabs.pairing:1"@].sub_types.keys()[i],
                seq!["subscribe_pairing"@],
            ),
    ensures
        ({
            let stored = member(state, "paired_core_id"@);
            let pairs = hub.api.with_pairing && hub.api.pairing.paired_core is None && (stored
                is None || stored == Some(JsonView::Text(id)));
            &&& registration(hub, index, body, state) matches Ok(reg)
            &&& reg.display_name == name
            &&& reg.display_version == version
            &&& reg.id == id
            &&& reg.pairs == pairs
            &&& reg.told is Some <==> pairs && hub.provided@.contains_key(
                "com.roonlabs.pairing:1"@,
            )
            &&& member(reg.state, "paired_core_id"@) == if pairs {
                Some(JsonView::Text(id))
            } else {
                stored
            }
            &&& token_for(reg.state, id) == Some(JsonView::Text(token))
            &&& key != "tokens"@ && key != "paired_core_id"@ ==> member(reg.state, key) == member(
                state,
                key,
            )
        }),
{
    reveal_strlit("tokens");
    reveal_strlit("paired_core_id");
    assert("tokens"@.len() != "paired_core_id"@.len());
    let svc = "com.roonlabs.pairing:1"@;
    if hub.provided@.contains_key(svc) {
        let table = hub.provided@[svc].sub_types;
        pairing_subscribers_are_found(
            table.keys(),
            table@,
            hub.conns@,
            table.keys().len() as int,
        );
    }
}

/// A registration fails where nobody waits for it, and where the core does not say who it is and
/// which token it gives. It does not fail otherwise but for what is stored.
pub proof fn core_has_to_say_who_it_is(hub: Hub, index: usize, body: JsonView, state: JsonView)
    ensures
        !hub.user_moos@.contains_key(index) ==> registration(hub, index, body, state) == Err::<
            Registration,
            Fault,
        >(Fault::NoUser),
        hub.user_moos@.contains_key(index) && (member_text(body, "display_name"@) is None
            || member_text(body, "display_version"@) is None || member_text(body, "core_id"@)
            is None || member_text(body, "token"@) is None) ==> registration(
            hub,
            index,
            body,
            state,
        ) == Err::<Registration, Fault>(Fault::Body),
{
}

} // verus!
