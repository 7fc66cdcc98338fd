//! Services that the extension provides, and the subscriptions to them.

use std::collections::HashMap;
use vstd::prelude::*;
use crate::json::{member_text, opt_json, Json, JsonView};
use crate::moo::message::{body_of, MooMessage};
use crate::table::Table;
use crate::text::{
    decimal, decimal_injective, decimal_round_trip, has_part, is_digit, lemma_decimal_digits,
    lemma_split_at, parse_unsigned, same_text, split, split_text, strings, texts, to_decimal,
    unsigned_value,
};

verus! {

broadcast use vstd::std_specs::hash::group_hash_axioms;

/// A reply: its header, and its body. The header holds the verb and the name; where it holds a
/// third text, the first is the subscription whose subscribers are told. An empty header stands
/// for no reply.
pub type RespProps = (Vec<&'static str>, Option<Json>);

/// What a reply says.
pub open spec fn reply_view(r: RespProps) -> (Seq<Seq<char>>, Option<JsonView>) {
    (texts(r.0@), opt_json(r.1))
}

/// What replies say.
pub open spec fn replies_view(s: Seq<RespProps>) -> Seq<(Seq<Seq<char>>, Option<JsonView>)> {
    Seq::new(s.len(), |i: int| reply_view(s[i]))
}

/// The reply that is none.
pub open spec fn no_reply() -> (Seq<Seq<char>>, Option<JsonView>) {
    (Seq::empty(), None)
}

/// A reply after which more follow.
pub open spec fn continued(name: Seq<char>, body: Option<JsonView>) -> (
    Seq<Seq<char>>,
    Option<JsonView>,
) {
    (seq!["CONTINUE"@, name], body)
}

/// The last reply.
pub open spec fn completed(name: Seq<char>, body: Option<JsonView>) -> (
    Seq<Seq<char>>,
    Option<JsonView>,
) {
    (seq!["COMPLETE"@, name], body)
}

/// A reply to all who have subscribed, after which more follow.
pub open spec fn continued_all(sub: Seq<char>, name: Seq<char>, body: Option<JsonView>) -> (
    Seq<Seq<char>>,
    Option<JsonView>,
) {
    (seq![sub, "CONTINUE"@, name], body)
}

/// The last reply to all who have subscribed.
pub open spec fn completed_all(sub: Seq<char>, name: Seq<char>, body: Option<JsonView>) -> (
    Seq<Seq<char>>,
    Option<JsonView>,
) {
    (seq![sub, "COMPLETE"@, name], body)
}

/// The reply that is none.
pub fn no_answer() -> (r: RespProps)
    ensures
        reply_view(r) == no_reply(),
{
    let r: RespProps = (Vec::new(), None);
    assert(texts(r.0@) =~= Seq::<Seq<char>>::empty());
    r
}

/// Makes a reply after which more follow.
pub fn send_continue(name: &'static str, body: Option<Json>) -> (r: RespProps)
    ensures
        reply_view(r) == continued(name@, opt_json(body)),
{
    let hdr: Vec<&'static str> = vec!["CONTINUE", name];
    assert(texts(hdr@) =~= seq!["CONTINUE"@, name@]);
    (hdr, body)
}

/// Makes the last reply.
pub fn send_complete(name: &'static str, body: Option<Json>) -> (r: RespProps)
    ensures
        reply_view(r) == completed(name@, opt_json(body)),
{
    let hdr: Vec<&'static str> = vec!["COMPLETE", name];
    assert(texts(hdr@) =~= seq!["COMPLETE"@, name@]);
    (hdr, body)
}

/// Makes a reply to all who have subscribed, after which more follow.
pub fn send_continue_all(sub_type: &'static str, name: &'static str, body: Option<Json>) -> (r:
    RespProps)
    ensures
        reply_view(r) == continued_all(sub_type@, name@, opt_json(body)),
{
    let hdr: Vec<&'static str> = vec![sub_type, "CONTINUE", name];
    assert(texts(hdr@) =~= seq![sub_type@, "CONTINUE"@, name@]);
    (hdr, body)
}

/// Makes the last reply to all who have subscribed.
pub fn send_complete_all(sub_type: &'static str, name: &'static str, body: Option<Json>) -> (r:
    RespProps)
    ensures
        reply_view(r) == completed_all(sub_type@, name@, opt_json(body)),
{
    let hdr: Vec<&'static str> = vec![sub_type, "COMPLETE", name];
    assert(texts(hdr@) =~= seq![sub_type@, "COMPLETE"@, name@]);
    (hdr, body)
}

/// The list of one reply.
pub fn only(reply: RespProps) -> (r: Vec<RespProps>)
    ensures
        replies_view(r@) == seq![reply_view(reply)],
{
    let mut r: Vec<RespProps> = Vec::new();
    r.push(reply);
    assert(replies_view(r@) =~= seq![reply_view(reply)]);
    r
}

/// What a service does when it is asked: one of the things that the library does itself, or
/// something of the user, by its number.
#[derive(Clone, Copy, Debug, PartialEq, Eq, Structural)]
pub enum Method {
    Ping,
    GetPairing,
    Pair,
    StartPairing,
    GetStatus,
    StartStatus,
    GetSettings,
    SaveSettings,
    StartSettings,
    User(usize),
}

/// What a name stands for in a service.
#[derive(Debug)]
pub enum Handler {
    Call(Method),
    /// The name under which subscribers are kept, and what to do first.
    Subscribe(String, Method),
    /// The name under which subscribers are kept, and what to do last.
    Unsubscribe(String, Option<Method>),
}

/// Handlers by their view.
pub enum HandlerView {
    Call(Method),
    Subscribe(Seq<char>, Method),
    Unsubscribe(Seq<char>, Option<Method>),
}

impl View for Handler {
    type V = HandlerView;

    open spec fn view(&self) -> HandlerView {
        match *self {
            Handler::Call(m) => HandlerView::Call(m),
            Handler::Subscribe(name, m) => HandlerView::Subscribe(name@, m),
            Handler::Unsubscribe(name, m) => HandlerView::Unsubscribe(name@, m),
        }
    }
}

/// A subscription that a service offers.
#[derive(Debug)]
pub struct Sub {
    pub subscribe_name: String,
    pub unsubscribe_name: String,
    pub start: Method,
    pub end: Option<Method>,
}

/// What a service offers.
#[derive(Debug)]
pub struct SvcSpec {
    pub name: &'static str,
    pub methods: Table<Method>,
    pub subs: Vec<Sub>,
}

/// What a service keeps from one request to the next: the message of the status and whether it
/// is about an error, and the request with which settings were saved last. Whoever shares it
/// with the service knows the service by its number.
#[derive(Debug)]
pub struct State {
    pub number: Option<usize>,
    pub status: (String, bool),
    pub save_req_id: Option<usize>,
}

impl State {
    /// Whether nothing was kept yet.
    pub open spec fn is_new(self) -> bool {
        &&& self.status.0@ == Seq::<char>::empty()
        &&& self.status.1 == false
        &&& self.save_req_id is None
    }
}

/// A service: who has subscribed, by the key of the subscription with the id of its request,
/// what the names in it stand for, and what it keeps.
#[derive(Debug)]
pub struct Svc {
    pub sub_types: Table<usize>,
    pub name: &'static str,
    pub methods: Table<Handler>,
    pub sub_names: Vec<String>,
    pub state: State,
}

/// Whether a service is the one of its kind with a number.
pub open spec fn is_numbered(svc: Svc, kind: Seq<char>, number: usize) -> bool {
    svc.name@ == kind && svc.state.number == Some(number)
}

/// The name under which the service of a kind with a number is provided, from position `from` on.
pub open spec fn named_from(
    keys: Seq<Seq<char>>,
    provided: Map<Seq<char>, Svc>,
    kind: Seq<char>,
    number: usize,
    from: int,
) -> Option<Seq<char>>
    decreases keys.len() - from,
{
    if from >= keys.len() {
        None
    } else if is_numbered(provided[keys[from]], kind, number) {
        Some(keys[from])
    } else {
        named_from(keys, provided, kind, number, from + 1)
    }
}

/// The name under which the service of a kind with a number is provided.
pub open spec fn named(provided: Table<Svc>, kind: Seq<char>, number: usize) -> Option<Seq<char>> {
    named_from(provided.keys(), provided@, kind, number, 0)
}

/// Finds the service of a kind with a number, and the name under which it is provided.
pub fn find_named<'a>(provided: &'a Table<Svc>, kind: &str, number: usize) -> (r: Option<
    (&'a String, &'a Svc),
>)
    ensures
        match r {
            Some((name, svc)) => {
                &&& named(*provided, kind@, number) == Some(name@)
                &&& provided@.contains_key(name@)
                &&& provided@[name@] == *svc
                &&& is_numbered(*svc, kind@, number)
            },
            None => named(*provided, kind@, number) is None,
        },
{
    let n = provided.len();
    let mut i: usize = 0;
    while i < n
        invariant
            i <= n,
            n == provided.keys().len(),
            named(*provided, kind@, number) == named_from(
                provided.keys(),
                provided@,
                kind@,
                number,
                i as int,
            ),
        decreases n - i,
    {
        let (name, svc) = provided.entry(i);
        if let Some(found) = svc.state.number {
            if found == number && same_text(svc.name, kind) {
                return Some((name, svc));
            }
        }
        i += 1;
    }
    None
}

/// The service of a kind with a number is found wherever it is provided, as long as no other one
/// has the number.
pub proof fn service_is_found(
    keys: Seq<Seq<char>>,
    provided: Map<Seq<char>, Svc>,
    kind: Seq<char>,
    number: usize,
    at: int,
    from: int,
)
    requires
        0 <= from <= at < keys.len(),
        is_numbered(provided[keys[at]], kind, number),
        forall|i: int|
            0 <= i < keys.len() && is_numbered(provided[#[trigger] keys[i]], kind, number) ==> i
                == at,
    ensures
        named_from(keys, provided, kind, number, from) == Some(keys[at]),
    decreases at - from,
{
    if from < at {
        assert(!is_numbered(provided[keys[from]], kind, number));
        service_is_found(keys, provided, kind, number, at, from + 1);
    }
}

impl SvcSpec {
    /// A service that offers nothing yet.
    pub fn new(name: &'static str) -> (r: Self)
        ensures
            r.name == name,
            r.methods@ == Map::<Seq<char>, Method>::empty(),
            r.subs@ == Seq::<Sub>::empty(),
    {
        SvcSpec { name, methods: Table::new(), subs: Vec::new() }
    }

    /// Adds a method, in place of the one that had the name.
    pub fn add_method(&mut self, name: &str, method: Method)
        ensures
            final(self).name == old(self).name,
            final(self).methods@ == old(self).methods@.insert(name@, method),
            final(self).subs == old(self).subs,
    {
        self.methods.insert(name, method);
    }

    /// Adds a subscription.
    pub fn add_sub(&mut self, sub: Sub)
        ensures
            final(self).name == old(self).name,
            final(self).methods == old(self).methods,
            final(self).subs@ == old(self).subs@.push(sub),
    {
        self.subs.push(sub);
    }
}

/// Handlers of a table.
pub open spec fn handlers(m: Map<Seq<char>, Handler>) -> Map<Seq<char>, HandlerView> {
    Map::new(|k: Seq<char>| m.contains_key(k), |k: Seq<char>| m[k]@)
}

/// Methods as handlers.
pub open spec fn calls(m: Map<Seq<char>, Method>) -> Map<Seq<char>, HandlerView> {
    Map::new(|k: Seq<char>| m.contains_key(k), |k: Seq<char>| HandlerView::Call(m[k]))
}

/// The handlers of a service with its methods and its first `n` subscriptions. Of two with the
/// same name the later counts.
pub open spec fn with_subs(
    methods: Map<Seq<char>, HandlerView>,
    subs: Seq<Sub>,
    n: int,
) -> Map<Seq<char>, HandlerView>
    decreases n,
{
    if n <= 0 {
        methods
    } else {
        let sub = subs[n - 1];
        with_subs(methods, subs, n - 1).insert(
            sub.subscribe_name@,
            HandlerView::Subscribe(sub.subscribe_name@, sub.start),
        ).insert(
            sub.unsubscribe_name@,
            HandlerView::Unsubscribe(sub.subscribe_name@, sub.end),
        )
    }
}

/// The names under which subscribers are kept.
pub open spec fn subscribe_names(subs: Seq<Sub>) -> Seq<Seq<char>> {
    Seq::new(subs.len(), |i: int| subs[i].subscribe_name@)
}

proof fn lemma_with_subs_names(
    methods: Map<Seq<char>, HandlerView>,
    subs: Seq<Sub>,
    n: int,
    name: Seq<char>,
)
    requires
        0 <= n <= subs.len(),
        forall|k: Seq<char>| #[trigger] methods.contains_key(k) ==> methods[k] is Call,
        with_subs(methods, subs, n).contains_key(name),
    ensures
        with_subs(methods, subs, n)[name] matches HandlerView::Subscribe(sub_name, _) ==> exists|
            j: int,
        | 0 <= j < n && (#[trigger] subs[j]).subscribe_name@ == sub_name,
    decreases n,
{
    if n > 0 {
        let sub = subs[n - 1];
        if name != sub.subscribe_name@ && name != sub.unsubscribe_name@ {
            lemma_with_subs_names(methods, subs, n - 1, name);
        }
    }
}

/// Makes the service that offers what `spec` says. It has no subscribers, and keeps nothing yet.
pub fn register_service(spec: SvcSpec) -> (r: Svc)
    ensures
        r.name == spec.name,
        r.sub_types@ == Map::<Seq<char>, usize>::empty(),
        handlers(r.methods@) == with_subs(
            calls(spec.methods@),
            spec.subs@,
            spec.subs@.len() as int,
        ),
        strings(r.sub_names@) == subscribe_names(spec.subs@),
        r.state.is_new(),
        r.state.number is None,
        r.wf(),
{
    let mut methods: Table<Handler> = Table::new();
    let n = spec.methods.len();
    let ghost keys = spec.methods.keys();
    let mut i: usize = 0;
    while i < n
        invariant
            n == keys.len(),
            keys == spec.methods.keys(),
            keys.no_duplicates(),
            i <= n,
            forall|k: Seq<char>| #[trigger]
                handlers(methods@).contains_key(k) ==> spec.methods@.contains_key(k)
                    && handlers(methods@)[k] == HandlerView::Call(spec.methods@[k]),
            forall|j: int| 0 <= j < i ==> handlers(methods@).contains_key(#[trigger] keys[j]),
        decreases n - i,
    {
        let (name, method) = spec.methods.entry(i);
        let ghost before = methods@;
        methods.insert(name.as_str(), Handler::Call(*method));
        assert(handlers(methods@) =~= handlers(before).insert(name@, HandlerView::Call(*method)));
        i += 1;
    }
    assert(handlers(methods@) =~= calls(spec.methods@)) by {
        assert forall|k: Seq<char>| spec.methods@.contains_key(k) implies handlers(
            methods@,
        ).contains_key(k) by {
            assert(keys.contains(k));
            let j = choose|j: int| 0 <= j < keys.len() && keys[j] == k;
            assert(handlers(methods@).contains_key(keys[j]));
        }
    }
    let mut sub_names: Vec<String> = Vec::new();
    i = 0;
    while i < spec.subs.len()
        invariant
            i <= spec.subs@.len(),
            handlers(methods@) == with_subs(calls(spec.methods@), spec.subs@, i as int),
            strings(sub_names@) == subscribe_names(spec.subs@.take(i as int)),
        decreases spec.subs@.len() - i,
    {
        let sub = &spec.subs[i];
        let ghost before = methods@;
        methods.insert(
            sub.subscribe_name.as_str(),
            Handler::Subscribe(sub.subscribe_name.clone(), sub.start),
        );
        assert(handlers(methods@) =~= handlers(before).insert(
            sub.subscribe_name@,
            HandlerView::Subscribe(sub.subscribe_name@, sub.start),
        ));
        let ghost between = methods@;
        methods.insert(
            sub.unsubscribe_name.as_str(),
            Handler::Unsubscribe(sub.subscribe_name.clone(), sub.end),
        );
        assert(handlers(methods@) =~= handlers(between).insert(
            sub.unsubscribe_name@,
            HandlerView::Unsubscribe(sub.subscribe_name@, sub.end),
        ));
        let ghost names = sub_names@;
        sub_names.push(sub.subscribe_name.clone());
        assert(strings(sub_names@) =~= strings(names).push(sub.subscribe_name@));
        assert(subscribe_names(spec.subs@.take(i + 1)) =~= subscribe_names(
            spec.subs@.take(i as int),
        ).push(sub.subscribe_name@));
        i += 1;
    }
    assert(spec.subs@.take(i as int) =~= spec.subs@);
    assert forall|name: Seq<char>| #[trigger]
        methods@.contains_key(name) implies match methods@[name]@ {
        HandlerView::Subscribe(sub_name, _) => strings(sub_names@).contains(sub_name),
        _ => true,
    } by {
        lemma_with_subs_names(calls(spec.methods@), spec.subs@, spec.subs@.len() as int, name);
        assert(handlers(methods@)[name] == methods@[name]@);
        if let HandlerView::Subscribe(sub_name, _) = methods@[name]@ {
            let j = choose|j: int|
                0 <= j < spec.subs@.len() && (#[trigger] spec.subs@[j]).subscribe_name@
                    == sub_name;
            assert(strings(sub_names@)[j] == sub_name);
        }
    }
    let state = State { number: None, status: (String::new(), false), save_req_id: None };
    Svc { sub_types: Table::new(), name: spec.name, methods, sub_names, state }
}

/// The key under which a subscription of a core is kept.
pub open spec fn key_text(sub_name: Seq<char>, moo_id: nat, sub_key: Seq<char>) -> Seq<char> {
    sub_name + ":"@ + decimal(moo_id) + ":"@ + sub_key
}

/// What the keys of all subscriptions of a core under a name begin with.
pub open spec fn core_part(sub_name: Seq<char>, moo_id: nat) -> Seq<char> {
    sub_name + ":"@ + decimal(moo_id)
}

/// Writes the key under which a subscription of a core is kept.
fn write_key(sub_name: &str, moo_id: usize, sub_key: &str) -> (r: String)
    ensures
        r@ == key_text(sub_name@, moo_id as nat, sub_key@),
{
    let mut key = sub_name.to_owned();
    key.append(":");
    key.append(to_decimal(moo_id).as_str());
    key.append(":");
    key.append(sub_key);
    key
}

/// Why a request cannot be handled.
#[derive(Clone, Copy, Debug, PartialEq, Eq, Structural)]
pub enum Fault {
    /// The body of the request has no key of a subscription.
    SubscriptionKey,
    /// The core that subscribes is not registered.
    NoCore,
    /// The body of a message lacks what it has to hold.
    Body,
    /// The connection is not one of a core that is still to be registered.
    NoUser,
    /// The stored state is not of the form that it has to have.
    State,
    /// A subscription is kept under a key that names no core.
    Key,
}

/// What a request asks for.
#[derive(Clone, Copy, Debug, PartialEq, Eq, Structural)]
pub enum Step {
    /// To run a method, whose replies are the answer.
    Run(Method),
    /// To run a method, if any. The answer is that the subscription has ended.
    End(Option<Method>),
    /// Nothing that the service offers.
    Unknown,
}

/// What a request asks for, and the subscribers after it.
pub open spec fn handled(
    methods: Map<Seq<char>, HandlerView>,
    sub_types: Map<Seq<char>, usize>,
    moo_id: Option<usize>,
    name: Seq<char>,
    body: JsonView,
    req_id: usize,
) -> Result<(Step, Map<Seq<char>, usize>), Fault> {
    if !methods.contains_key(name) {
        Ok((Step::Unknown, sub_types))
    } else {
        match methods[name] {
            HandlerView::Call(m) => Ok((Step::Run(m), sub_types)),
            HandlerView::Subscribe(sub_name, start) => match (
                member_text(body, "subscription_key"@),
                moo_id,
            ) {
                (None, _) => Err(Fault::SubscriptionKey),
                (_, None) => Err(Fault::NoCore),
                (Some(key), Some(id)) => Ok(
                    (
                        Step::Run(start),
                        sub_types.insert(key_text(sub_name, id as nat, key), req_id),
                    ),
                ),
            },
            HandlerView::Unsubscribe(sub_name, end) => match (
                member_text(body, "subscription_key"@),
                moo_id,
            ) {
                (None, _) => Err(Fault::SubscriptionKey),
                (_, None) => Err(Fault::NoCore),
                (Some(key), Some(id)) => Ok(
                    (Step::End(end), sub_types.remove(key_text(sub_name, id as nat, key))),
                ),
            },
        }
    }
}

/// Whether a key is that of a subscription under one of the names.
pub open spec fn is_key(k: Seq<char>, names: Seq<Seq<char>>) -> bool {
    exists|i: int, id: usize, key: Seq<char>|
        0 <= i < names.len() && k == #[trigger] key_text(names[i], id as nat, key)
}

impl Svc {
    /// Subscribers are kept only under keys of the subscriptions that the service offers.
    pub open spec fn wf(self) -> bool {
        &&& forall|k: Seq<char>| #[trigger]
            self.sub_types@.contains_key(k) ==> is_key(k, strings(self.sub_names@))
        &&& forall|name: Seq<char>|
            #![trigger self.methods@.contains_key(name)]
            self.methods@.contains_key(name) ==> match self.methods@[name]@ {
                HandlerView::Subscribe(sub_name, _) => strings(self.sub_names@).contains(sub_name),
                _ => true,
            }
    }

    /// Finds what a request asks for, and keeps or drops the subscription that it is about.
    /// `moo_id` is the connection of the core that asks, where it is registered.
    pub fn handle(&mut self, moo_id: Option<usize>, msg: &MooMessage, req_id: usize) -> (r: Result<
        Step,
        Fault,
    >)
        ensures
            final(self).name == old(self).name,
            final(self).methods == old(self).methods,
            final(self).sub_names == old(self).sub_names,
            final(self).state == old(self).state,
            match handled(
                handlers(old(self).methods@),
                old(self).sub_types@,
                moo_id,
                msg@.name,
                body_of(msg@),
                req_id,
            ) {
                Ok((step, sub_types)) => r == Ok::<Step, Fault>(step) && final(self).sub_types@
                    == sub_types,
                Err(e) => r == Err::<Step, Fault>(e) && *final(self) == *old(self),
            },
            old(self).wf() ==> final(self).wf(),
    {
        let handler = match self.methods.get(msg.name.as_str()) {
            Some(handler) => handler,
            None => {
                return Ok(Step::Unknown);
            },
        };
        assert(handlers(self.methods@)[msg@.name] == handler@);
        match handler {
            Handler::Call(m) => Ok(Step::Run(*m)),
            Handler::Subscribe(sub_name, start) => {
                let key = match msg.body_text("subscription_key") {
                    Some(key) => key,
                    None => {
                        return Err(Fault::SubscriptionKey);
                    },
                };
                match moo_id {
                    Some(id) => {
                        let start = *start;
                        let key_str = write_key(sub_name.as_str(), id, key);
                        let ghost names = strings(self.sub_names@);
                        proof {
                            if self.wf() {
                                let i = choose|i: int|
                                    0 <= i < names.len() && names[i] == sub_name@;
                                assert(key_str@ == key_text(names[i], id as nat, key@));
                            }
                        }
                        self.sub_types.insert(key_str.as_str(), req_id);
                        Ok(Step::Run(start))
                    },
                    None => Err(Fault::NoCore),
                }
            },
            Handler::Unsubscribe(sub_name, end) => {
                let key = match msg.body_text("subscription_key") {
                    Some(key) => key,
                    None => {
                        return Err(Fault::SubscriptionKey);
                    },
                };
                match moo_id {
                    Some(id) => {
                        let end = *end;
                        let key_str = write_key(sub_name.as_str(), id, key);
                        let _ = self.sub_types.remove(key_str.as_str());
                        Ok(Step::End(end))
                    },
                    None => Err(Fault::NoCore),
                }
            },
        }
    }

    /// Drops the subscriptions of a core that is gone.
    pub fn drop_core(&mut self, moo_id: usize)
        ensures
            final(self).name == old(self).name,
            final(self).methods == old(self).methods,
            final(self).sub_names == old(self).sub_names,
            final(self).state == old(self).state,
            forall|k: Seq<char>| #[trigger]
                final(self).sub_types@.contains_key(k) <==> old(self).sub_types@.contains_key(k)
                    && forall|i: int|
                    0 <= i < old(self).sub_names@.len() ==> !has_part(
                        k,
                        core_part(#[trigger] old(self).sub_names@[i]@, moo_id as nat),
                    ),
            forall|k: Seq<char>| #[trigger]
                final(self).sub_types@.contains_key(k) ==> final(self).sub_types@[k] == old(
                    self,
                ).sub_types@[k],
            old(self).wf() ==> final(self).wf(),
    {
        let ghost names = self.sub_names@;
        let ghost all = self.sub_types@;
        let ghost before = *self;
        let mut i: usize = 0;
        while i < self.sub_names.len()
            invariant
                i <= names.len(),
                names == self.sub_names@,
                self.name == before.name,
                self.methods == before.methods,
                self.sub_names == before.sub_names,
                self.state == before.state,
                forall|k: Seq<char>| #[trigger]
                    self.sub_types@.contains_key(k) <==> all.contains_key(k) && forall|j: int|
                        0 <= j < i ==> !has_part(k, core_part(#[trigger] names[j]@, moo_id as nat)),
                forall|k: Seq<char>| #[trigger]
                    self.sub_types@.contains_key(k) ==> self.sub_types@[k] == all[k],
            decreases names.len() - i,
        {
            let mut part = self.sub_names[i].clone();
            part.append(":");
            part.append(to_decimal(moo_id).as_str());
            assert(part@ == core_part(names[i as int]@, moo_id as nat));
            self.sub_types.remove_containing(part.as_str());
            i += 1;
        }
    }
}

/// A request to subscribe, and the one that ends the subscription, leave the subscribers as
/// they were.
pub proof fn unsubscribe_undoes_subscribe(
    methods: Map<Seq<char>, HandlerView>,
    sub_types: Map<Seq<char>, usize>,
    subscribe: Seq<char>,
    unsubscribe: Seq<char>,
    sub_name: Seq<char>,
    start: Method,
    end: Option<Method>,
    moo_id: usize,
    body: JsonView,
    req_id: usize,
    end_id: usize,
)
    requires
        methods.contains_key(subscribe),
        methods[subscribe] == HandlerView::Subscribe(sub_name, start),
        methods.contains_key(unsubscribe),
        methods[unsubscribe] == HandlerView::Unsubscribe(sub_name, end),
        member_text(body, "subscription_key"@) is Some,
        !sub_types.contains_key(
            key_text(sub_name, moo_id as nat, member_text(body, "subscription_key"@)->Some_0),
        ),
    ensures
        handled(methods, sub_types, Some(moo_id), subscribe, body, req_id) matches Ok((step, kept))
            && step == Step::Run(start) && handled(
            methods,
            kept,
            Some(moo_id),
            unsubscribe,
            body,
            end_id,
        ) == Ok::<(Step, Map<Seq<char>, usize>), Fault>((Step::End(end), sub_types)),
{
    let k = key_text(sub_name, moo_id as nat, member_text(body, "subscription_key"@)->Some_0);
    assert(sub_types.insert(k, req_id).remove(k) =~= sub_types);
}

proof fn lemma_no_colon(n: nat)
    ensures
        !decimal(n).contains(':'),
{
    lemma_decimal_digits(n);
    assert forall|i: int| 0 <= i < decimal(n).len() implies decimal(n)[i] != ':' by {
        assert(is_digit(decimal(n)[i]));
    }
}

/// A key is split into the name, the connection, and the key of the core.
pub proof fn lemma_key_split(sub_name: Seq<char>, moo_id: nat, sub_key: Seq<char>)
    requires
        !sub_name.contains(':'),
    ensures
        split(key_text(sub_name, moo_id, sub_key), ':') == seq![sub_name, decimal(moo_id)] + split(
            sub_key,
            ':',
        ),
{
    reveal_strlit(":");
    lemma_no_colon(moo_id);
    let rest = decimal(moo_id) + seq![':'] + sub_key;
    assert(key_text(sub_name, moo_id, sub_key) =~= sub_name + seq![':'] + rest);
    lemma_split_at(sub_name, ':', rest);
    lemma_split_at(decimal(moo_id), ':', sub_key);
    assert(seq![sub_name] + (seq![decimal(moo_id)] + split(sub_key, ':')) =~= seq![
        sub_name,
        decimal(moo_id),
    ] + split(sub_key, ':'));
}

/// Subscriptions of different cores, or with different keys, are kept apart.
pub proof fn keys_apart(
    sub_name: Seq<char>,
    moo_id: nat,
    sub_key: Seq<char>,
    other_id: nat,
    other_key: Seq<char>,
)
    requires
        !sub_name.contains(':'),
        key_text(sub_name, moo_id, sub_key) == key_text(sub_name, other_id, other_key),
    ensures
        moo_id == other_id,
        sub_key == other_key,
{
    lemma_key_split(sub_name, moo_id, sub_key);
    lemma_key_split(sub_name, other_id, other_key);
    let k = key_text(sub_name, moo_id, sub_key);
    assert(split(k, ':')[1] == decimal(moo_id));
    assert(split(k, ':')[1] == decimal(other_id));
    decimal_injective(moo_id, other_id);
    reveal_strlit(":");
    let from = core_part(sub_name, moo_id).len() + 1;
    assert(k.skip(from as int) =~= sub_key);
    assert(k.skip(from as int) =~= other_key);
}

/// The connections, with the ids of the requests, that the first `n` keys name under a
/// subscription. Of two for the same connection the later counts.
pub open spec fn fan_out(
    keys: Seq<Seq<char>>,
    sub_types: Map<Seq<char>, usize>,
    sub_name: Seq<char>,
    n: int,
) -> Option<Map<usize, usize>>
    decreases n,
{
    if n <= 0 {
        Some(Map::empty())
    } else {
        match fan_out(keys, sub_types, sub_name, n - 1) {
            None => None,
            Some(ids) => {
                let key = keys[n - 1];
                let parts = split(key, ':');
                if parts[0] != sub_name {
                    Some(ids)
                } else if parts.len() < 2 {
                    None
                } else {
                    match unsigned_value(parts[1]) {
                        Some(id) => Some(ids.insert(id, sub_types[key])),
                        None => None,
                    }
                }
            },
        }
    }
}

/// Finds who has subscribed: the connections, with the ids of the requests.
pub fn subscribers(sub_types: &Table<usize>, sub_name: &str) -> (r: Result<
    HashMap<usize, usize>,
    Fault,
>)
    ensures
        match fan_out(
            sub_types.keys(),
            sub_types@,
            sub_name@,
            sub_types.keys().len() as int,
        ) {
            Some(ids) => r matches Ok(found) && found@ == ids,
            None => r matches Err(e) && e == Fault::Key,
        },
{
    let ghost keys = sub_types.keys();
    let mut ids: HashMap<usize, usize> = HashMap::new();
    let n = sub_types.len();
    let mut i: usize = 0;
    while i < n
        invariant
            i <= n,
            n == keys.len(),
            keys == sub_types.keys(),
            fan_out(keys, sub_types@, sub_name@, i as int) == Some(ids@),
        decreases n - i,
    {
        let (key, req_id) = sub_types.entry(i);
        let parts = split_text(key.as_str(), ':');
        assert(split(key@, ':').len() > 0);
        assert(texts(parts@)[0] == parts@[0]@);
        if same_text(parts[0], sub_name) {
            let id = if parts.len() < 2 {
                None
            } else {
                assert(texts(parts@)[1] == parts@[1]@);
                parse_unsigned(parts[1])
            };
            match id {
                Some(id) => {
                    let _ = ids.insert(id, *req_id);
                },
                None => {
                    proof {
                        lemma_fan_out_fails(keys, sub_types@, sub_name@, i + 1, n as int);
                    }
                    return Err(Fault::Key);
                },
            }
        }
        i += 1;
    }
    Ok(ids)
}

proof fn lemma_fan_out_fails(
    keys: Seq<Seq<char>>,
    sub_types: Map<Seq<char>, usize>,
    sub_name: Seq<char>,
    n: int,
    m: int,
)
    requires
        n <= m,
        fan_out(keys, sub_types, sub_name, n) is None,
    ensures
        fan_out(keys, sub_types, sub_name, m) is None,
    decreases m - n,
{
    if n < m {
        lemma_fan_out_fails(keys, sub_types, sub_name, n, m - 1);
    }
}

/// Whether a core has subscribed under a name, according to the first `n` keys.
pub open spec fn has_subscribed(
    keys: Seq<Seq<char>>,
    sub_name: Seq<char>,
    moo_id: usize,
    n: int,
) -> bool {
    exists|i: int, key: Seq<char>|
        0 <= i < n && (#[trigger] keys[i]) == #[trigger] key_text(sub_name, moo_id as nat, key)
}

/// Whether a core has subscribed under a name with a request, according to the first `n` keys.
pub open spec fn has_subscribed_with(
    keys: Seq<Seq<char>>,
    sub_types: Map<Seq<char>, usize>,
    sub_name: Seq<char>,
    moo_id: usize,
    req_id: usize,
    n: int,
) -> bool {
    exists|i: int, key: Seq<char>|
        0 <= i < n && (#[trigger] keys[i]) == #[trigger] key_text(sub_name, moo_id as nat, key)
            && sub_types[keys[i]] == req_id
}

/// Where no name of a subscription holds a colon, exactly the connections that have subscribed
/// under a name are found, each with a request with which it has.
pub proof fn subscribers_are_found(
    keys: Seq<Seq<char>>,
    sub_types: Map<Seq<char>, usize>,
    names: Seq<Seq<char>>,
    sub_name: Seq<char>,
    n: int,
)
    requires
        0 <= n <= keys.len(),
        forall|i: int| 0 <= i < keys.len() ==> is_key(#[trigger] keys[i], names),
        forall|i: int| 0 <= i < names.len() ==> !(#[trigger] names[i]).contains(':'),
        !sub_name.contains(':'),
    ensures
        fan_out(keys, sub_types, sub_name, n) matches Some(ids) && {
            &&& forall|id: usize| #[trigger]
                ids.contains_key(id) <==> has_subscribed(keys, sub_name, id, n)
            &&& forall|id: usize| #[trigger]
                ids.contains_key(id) ==> has_subscribed_with(
                    keys,
                    sub_types,
                    sub_name,
                    id,
                    ids[id],
                    n,
                )
        },
    decreases n,
{
    if n > 0 {
        subscribers_are_found(keys, sub_types, names, sub_name, n - 1);
        let before = fan_out(keys, sub_types, sub_name, n - 1)->Some_0;
        let k = keys[n - 1];
        assert(is_key(k, names));
        let (j, moo_id, key) = choose|j: int, id: usize, key: Seq<char>|
            0 <= j < names.len() && k == #[trigger] key_text(names[j], id as nat, key);
        lemma_key_split(names[j], moo_id as nat, key);
        decimal_round_trip(moo_id);
        assert(split(k, ':')[0] == names[j]);
        assert(split(k, ':')[1] == decimal(moo_id as nat));
        let ids = fan_out(keys, sub_types, sub_name, n)->Some_0;
        assert forall|id: usize| #[trigger] ids.contains_key(id) <==> has_subscribed(
            keys,
            sub_name,
            id,
            n,
        ) by {
            if has_subscribed(keys, sub_name, id, n) {
                let (i, other) = choose|i: int, other: Seq<char>|
                    0 <= i < n && (#[trigger] keys[i]) == #[trigger] key_text(
                        sub_name,
                        id as nat,
                        other,
                    );
                if i == n - 1 {
                    lemma_key_split(sub_name, id as nat, other);
                    assert(split(k, ':')[0] == sub_name);
                    assert(split(k, ':')[1] == decimal(id as nat));
                    decimal_injective(id as nat, moo_id as nat);
                } else {
                    assert(has_subscribed(keys, sub_name, id, n - 1));
                }
            }
            if ids.contains_key(id) {
                if before.contains_key(id) {
                    let (i, other) = choose|i: int, other: Seq<char>|
                        0 <= i < n - 1 && (#[trigger] keys[i]) == #[trigger] key_text(
                            sub_name,
                            id as nat,
                            other,
                        );
                    assert(has_subscribed(keys, sub_name, id, n));
                } else {
                    assert(id == moo_id && names[j] == sub_name);
                    assert(keys[n - 1] == key_text(sub_name, id as nat, key));
                }
            }
        }
        assert forall|id: usize| #[trigger] ids.contains_key(id) implies has_subscribed_with(
            keys,
            sub_types,
            sub_name,
            id,
            ids[id],
            n,
        ) by {
            if names[j] == sub_name && id == moo_id {
                assert(keys[n - 1] == key_text(sub_name, id as nat, key));
                assert(ids[id] == sub_types[keys[n - 1]]);
            } else {
                assert(before.contains_key(id) && before[id] == ids[id]);
                let (i, other) = choose|i: int, other: Seq<char>|
                    0 <= i < n - 1 && (#[trigger] keys[i]) == #[trigger] key_text(
                        sub_name,
                        id as nat,
                        other,
                    ) && sub_types[keys[i]] == ids[id];
                assert(keys[i] == key_text(sub_name, id as nat, other));
            }
        }
    }
}

/// A reply has its verb and its name as its header, one to all who have subscribed behind the
/// name of the subscription, and no reply has no header.
pub proof fn replies_have_their_headers(sub: Seq<char>, name: Seq<char>, body: Option<JsonView>)
    ensures
        continued(name, body) == (seq!["CONTINUE"@, name], body),
        completed(name, body) == (seq!["COMPLETE"@, name], body),
        continued_all(sub, name, body) == (seq![sub, "CONTINUE"@, name], body),
        completed_all(sub, name, body) == (seq![sub, "COMPLETE"@, name], body),
        no_reply() == (Seq::<Seq<char>>::empty(), None::<JsonView>),
{
}

/// A subscription is offered under its names: the one begins it with what is to be done first,
/// the other ends it with what is to be done last, and both keep subscribers under the first.
pub proof fn subscription_is_offered(
    methods: Map<Seq<char>, HandlerView>,
    subs: Seq<Sub>,
    n: int,
    i: int,
)
    requires
        0 <= i < n <= subs.len(),
        subs[i].subscribe_name@ != subs[i].unsubscribe_name@,
        forall|j: int|
            i < j < n ==> {
                &&& (#[trigger] subs[j]).subscribe_name@ != subs[i].subscribe_name@
                &&& subs[j].subscribe_name@ != subs[i].unsubscribe_name@
                &&& subs[j].unsubscribe_name@ != subs[i].subscribe_name@
                &&& subs[j].unsubscribe_name@ != subs[i].unsubscribe_name@
            },
    ensures
        ({
            let all = with_subs(methods, subs, n);
            let sub = subs[i];
            &&& all.contains_key(sub.subscribe_name@)
            &&& all[sub.subscribe_name@] == HandlerView::Subscribe(sub.subscribe_name@, sub.start)
            &&& all.contains_key(sub.unsubscribe_name@)
            &&& all[sub.unsubscribe_name@] == HandlerView::Unsubscribe(
                sub.subscribe_name@,
                sub.end,
            )
        }),
    decreases n,
{
    if i < n - 1 {
        subscription_is_offered(methods, subs, n - 1, i);
        assert(subs[n - 1].subscribe_name@ != subs[i].subscribe_name@);
    }
}

/// A method is offered under its name, unless a subscription has the name, and nothing else is
/// offered.
pub proof fn method_is_offered(
    methods: Map<Seq<char>, HandlerView>,
    subs: Seq<Sub>,
    n: int,
    name: Seq<char>,
)
    requires
        0 <= n <= subs.len(),
        forall|j: int|
            0 <= j < n ==> (#[trigger] subs[j]).subscribe_name@ != name && subs[j].unsubscribe_name@
                != name,
    ensures
        with_subs(methods, subs, n).contains_key(name) <==> methods.contains_key(name),
        methods.contains_key(name) ==> with_subs(methods, subs, n)[name] == methods[name],
    decreases n,
{
    if n > 0 {
        assert(subs[n - 1].subscribe_name@ != name);
        method_is_offered(methods, subs, n - 1, name);
    }
}

/// A method is called under its name.
pub proof fn method_is_called(m: Map<Seq<char>, Method>, name: Seq<char>)
    ensures
        calls(m).contains_key(name) <==> m.contains_key(name),
        m.contains_key(name) ==> calls(m)[name] == HandlerView::Call(m[name]),
{
}

/// A request runs the method that its name stands for. One that the service does not know runs
/// none. Neither changes who has subscribed.
pub proof fn call_keeps_subscribers(
    methods: Map<Seq<char>, HandlerView>,
    sub_types: Map<Seq<char>, usize>,
    moo_id: Option<usize>,
    name: Seq<char>,
    body: JsonView,
    req_id: usize,
    method: Method,
)
    ensures
        methods.contains_key(name) && methods[name] == HandlerView::Call(method) ==> handled(
            methods,
            sub_types,
            moo_id,
            name,
            body,
            req_id,
        ) == Ok::<(Step, Map<Seq<char>, usize>), Fault>((Step::Run(method), sub_types)),
        !methods.contains_key(name) ==> handled(
            methods,
            sub_types,
            moo_id,
            name,
            body,
            req_id,
        ) == Ok::<(Step, Map<Seq<char>, usize>), Fault>((Step::Unknown, sub_types)),
{
}

/// A core that subscribes is kept with the id of its request, under the name of the subscription,
/// its connection and its key, and nobody else is kept or dropped. One that ends its subscription
/// is dropped, and nobody else. Neither is done without a key, or for a core that is not
/// registered.
pub proof fn subscriber_is_kept_and_dropped(
    methods: Map<Seq<char>, HandlerView>,
    sub_types: Map<Seq<char>, usize>,
    moo_id: Option<usize>,
    name: Seq<char>,
    body: JsonView,
    req_id: usize,
    sub_name: Seq<char>,
    start: Method,
    end: Option<Method>,
    other: Seq<char>,
)
    requires
        methods.contains_key(name),
        methods[name] == HandlerView::Subscribe(sub_name, start) || methods[name]
            == HandlerView::Unsubscribe(sub_name, end),
    ensures
        ({
            let r = handled(methods, sub_types, moo_id, name, body, req_id);
            match (member_text(body, "subscription_key"@), moo_id) {
                (Some(key), Some(id)) => {
                    let kept_under = sub_name + ":"@ + decimal(id as nat) + ":"@ + key;
                    &&& r matches Ok((step, after))
                    &&& methods[name] is Subscribe ==> {
                        &&& step == Step::Run(start)
                        &&& after.contains_key(kept_under)
                        &&& after[kept_under] == req_id
                    }
                    &&& methods[name] is Unsubscribe ==> {
                        &&& step == Step::End(end)
                        &&& !after.contains_key(kept_under)
                    }
                    &&& other != kept_under ==> {
                        &&& after.contains_key(other) <==> sub_types.contains_key(other)
                        &&& sub_types.contains_key(other) ==> after[other] == sub_types[other]
                    }
                },
                (None, _) => r == Err::<(Step, Map<Seq<char>, usize>), Fault>(
                    Fault::SubscriptionKey,
                ),
                (_, None) => r == Err::<(Step, Map<Seq<char>, usize>), Fault>(Fault::NoCore),
            }
        }),
{
}

/// The service that is found is the first that is of the kind and has the number.
pub proof fn named_service_is_found(provided: Table<Svc>, kind: Seq<char>, number: usize, i: int)
    requires
        0 <= i < provided.keys().len(),
        provided@[provided.keys()[i]].name@ == kind,
        provided@[provided.keys()[i]].state.number == Some(number),
        forall|j: int|
            0 <= j < i ==> provided@[#[trigger] provided.keys()[j]].name@ != kind
                || provided@[provided.keys()[j]].state.number != Some(number),
    ensures
        named(provided, kind, number) == Some(provided.keys()[i]),
{
    lemma_named_from(provided.keys(), provided@, kind, number, 0, i);
}

proof fn lemma_named_from(
    keys: Seq<Seq<char>>,
    provided: Map<Seq<char>, Svc>,
    kind: Seq<char>,
    number: usize,
    from: int,
    i: int,
)
    requires
        0 <= from <= i <= keys.len(),
        i < keys.len() ==> is_numbered(provided[keys[i]], kind, number),
        forall|j: int| from <= j < i ==> !is_numbered(provided[#[trigger] keys[j]], kind, number),
    ensures
        named_from(keys, provided, kind, number, from) == if i < keys.len() {
            Some(keys[i])
        } else {
            None
        },
    decreases i - from,
{
    if from < i {
        assert(!is_numbered(provided[keys[from]], kind, number));
        lemma_named_from(keys, provided, kind, number, from + 1, i);
    }
}

/// No service is found where none that is provided is of the kind and has the number.
pub proof fn missing_service_is_not_found(provided: Table<Svc>, kind: Seq<char>, number: usize)
    requires
        forall|j: int|
            0 <= j < provided.keys().len() ==> provided@[#[trigger] provided.keys()[j]].name@
                != kind || provided@[provided.keys()[j]].state.number != Some(number),
    ensures
        named(provided, kind, number) is None,
{
    lemma_named_from(
        provided.keys(),
        provided@,
        kind,
        number,
        0,
        provided.keys().len() as int,
    );
}

/// A new service has the empty text as its status, which is no error, and no settings were saved
/// in it.
pub proof fn new_service_keeps_nothing(state: State)
    requires
        state.is_new(),
    ensures
        state.status.0@.len() == 0,
        !state.status.1,
        state.save_req_id is None,
{
}

} // verus!
