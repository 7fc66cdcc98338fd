//! Pairing with one core.

use vstd::prelude::*;
use crate::cores::Core;
use crate::json::{empty_object, member, opt_view, with_member, Json, JsonView};
use crate::service::{
    calls, completed, continued, continued_all, handlers, no_answer, no_reply, only,
    register_service, replies_view, send_complete, send_continue, send_continue_all, with_subs,
    HandlerView, Method, RespProps, Sub, Svc, SvcSpec,
};
use crate::text::{same_text, strings};

verus! {

pub const SVCNAME: &'static str = "com.roonlabs.pairing:1";

/// What the extension is paired with: a core, and the core that it was paired with before.
#[derive(Debug)]
pub struct Pairing {
    pub paired_core: Option<Core>,
    pub lost_core_id: Option<String>,
}

/// The body of a message about the pairing.
pub open spec fn pairing_json(core_id: Seq<char>) -> JsonView {
    with_member(empty_object(), "paired_core_id"@, JsonView::Text(core_id))
}

/// What the names of the pairing service stand for.
pub open spec fn pairing_handlers() -> Map<Seq<char>, HandlerView> {
    Map::empty().insert("get_pairing"@, HandlerView::Call(Method::GetPairing)).insert(
        "pair"@,
        HandlerView::Call(Method::Pair),
    ).insert(
        "subscribe_pairing"@,
        HandlerView::Subscribe("subscribe_pairing"@, Method::StartPairing),
    ).insert("unsubscribe_pairing"@, HandlerView::Unsubscribe("subscribe_pairing"@, None))
}

/// The answer to a core that asks for the pairing.
pub open spec fn get_replies(paired: Option<Core>) -> Seq<(Seq<Seq<char>>, Option<JsonView>)> {
    match paired {
        Some(core) => seq![completed("Success"@, Some(pairing_json(core.id@)))],
        None => seq![completed("Success"@, None)],
    }
}

/// The answer to a core that subscribes to the pairing.
pub open spec fn start_replies(paired: Option<Core>) -> Seq<(Seq<Seq<char>>, Option<JsonView>)> {
    match paired {
        Some(core) => seq![continued("Subscribed"@, Some(pairing_json(core.id@)))],
        None => seq![continued("Subscribed"@, Some(pairing_json("undefined"@)))],
    }
}

/// The answer to a core that wants to be paired, which all who have subscribed are told: none
/// where nothing changes.
pub open spec fn pair_replies(paired: Option<Core>, core: Option<Core>) -> Seq<
    (Seq<Seq<char>>, Option<JsonView>),
> {
    match core {
        Some(core) => if paired matches Some(old) && old.id@ == core.id@ {
            seq![no_reply()]
        } else {
            seq![
                continued_all("subscribe_pairing"@, "Changed"@, Some(pairing_json(core.id@))),
            ]
        },
        None => seq![no_reply()],
    }
}

/// The core that is paired once `core` wants to be.
pub open spec fn paired_after(paired: Option<Core>, core: Option<Core>) -> Option<Core> {
    match core {
        Some(core) => if paired matches Some(old) && old.id@ == core.id@ {
            paired
        } else {
            Some(core)
        },
        None => paired,
    }
}

/// The id of the core that is lost once `core` wants to be paired.
pub open spec fn lost_after(
    lost: Option<Seq<char>>,
    paired: Option<Core>,
    core: Option<Core>,
) -> Option<Seq<char>> {
    match (paired, core) {
        (Some(old), Some(core)) => if old.id@ == core.id@ {
            lost
        } else {
            Some(old.id@)
        },
        _ => lost,
    }
}

/// Makes the body of a message about the pairing.
pub fn pairing_body(core_id: &str) -> (r: Json)
    ensures
        r@ == pairing_json(core_id@),
{
    let mut body = Json::object();
    body.set("paired_core_id", Json::text(core_id));
    body
}

impl Pairing {
    /// No pairing.
    pub fn new() -> (r: Pairing)
        ensures
            r.paired_core is None,
            r.lost_core_id is None,
    {
        Pairing { paired_core: None, lost_core_id: None }
    }

    /// The service with which a core can be paired.
    pub fn create() -> (r: Svc)
        ensures
            r.name@ == SVCNAME@,
            r.sub_types@ == Map::<Seq<char>, usize>::empty(),
            handlers(r.methods@) == pairing_handlers(),
            strings(r.sub_names@) == seq!["subscribe_pairing"@],
            r.wf(),
    {
        let mut spec = SvcSpec::new(SVCNAME);
        spec.add_method("get_pairing", Method::GetPairing);
        spec.add_method("pair", Method::Pair);
        spec.add_sub(
            Sub {
                subscribe_name: "subscribe_pairing".to_owned(),
                unsubscribe_name: "unsubscribe_pairing".to_owned(),
                start: Method::StartPairing,
                end: None,
            },
        );
        let ghost methods = spec.methods@;
        let svc = register_service(spec);
        proof {
            reveal_with_fuel(with_subs, 2);
            assert(calls(methods) =~= Map::empty().insert(
                "get_pairing"@,
                HandlerView::Call(Method::GetPairing),
            ).insert("pair"@, HandlerView::Call(Method::Pair)));
            assert(handlers(svc.methods@) =~= pairing_handlers());
            assert(strings(svc.sub_names@) =~= seq!["subscribe_pairing"@]);
        }
        svc
    }

    /// Answers a core that asks for the pairing.
    pub fn get_pairing(&self) -> (r: Vec<RespProps>)
        ensures
            replies_view(r@) == get_replies(self.paired_core),
    {
        match &self.paired_core {
            Some(core) => only(send_complete("Success", Some(pairing_body(core.id.as_str())))),
            None => only(send_complete("Success", None)),
        }
    }

    /// Answers a core that subscribes to the pairing.
    pub fn start(&self) -> (r: Vec<RespProps>)
        ensures
            replies_view(r@) == start_replies(self.paired_core),
    {
        match &self.paired_core {
            Some(core) => only(
                send_continue("Subscribed", Some(pairing_body(core.id.as_str()))),
            ),
            None => only(send_continue("Subscribed", Some(pairing_body("undefined")))),
        }
    }

    /// Pairs with a core that wants it.
    pub fn pair(&mut self, core: Option<&Core>) -> (r: Vec<RespProps>)
        ensures
            ({
                let wants = match core {
                    Some(core) => Some(*core),
                    None => None,
                };
                &&& replies_view(r@) == pair_replies(old(self).paired_core, wants)
                &&& final(self).paired_core == paired_after(old(self).paired_core, wants)
                &&& opt_view(final(self).lost_core_id) == lost_after(
                    opt_view(old(self).lost_core_id),
                    old(self).paired_core,
                    wants,
                )
            }),
    {
        let core = match core {
            Some(core) => core,
            None => {
                return only(no_answer());
            },
        };
        if let Some(paired) = &self.paired_core {
            if same_text(paired.id.as_str(), core.id.as_str()) {
                return only(no_answer());
            }
            self.lost_core_id = Some(paired.id.clone());
        }
        self.paired_core = Some(core.clone());
        only(
            send_continue_all(
                "subscribe_pairing",
                "Changed",
                Some(pairing_body(core.id.as_str())),
            ),
        )
    }
}

/// A core that wants to be paired is paired then.
pub proof fn pair_pairs(paired: Option<Core>, core: Core)
    ensures
        paired_after(paired, Some(core)) matches Some(now) && now.id@ == core.id@,
        get_replies(paired_after(paired, Some(core))) == seq![
            completed("Success"@, Some(pairing_json(core.id@))),
        ],
{
}

/// To be paired again changes nothing and tells nobody.
pub proof fn pair_twice(paired: Option<Core>, core: Core)
    ensures
        paired_after(paired_after(paired, Some(core)), Some(core)) == paired_after(
            paired,
            Some(core),
        ),
        pair_replies(paired_after(paired, Some(core)), Some(core)) == seq![no_reply()],
{
}

/// A core that asks for the pairing is told the id of the core that is paired, or nothing. One
/// that subscribes is told that id, or that it is undefined.
pub proof fn pairing_is_told(paired: Option<Core>)
    ensures
        get_replies(paired).len() == 1,
        get_replies(paired)[0].0 == seq!["COMPLETE"@, "Success"@],
        paired matches Some(core) ==> (get_replies(paired)[0].1 matches Some(body) && member(
            body,
            "paired_core_id"@,
        ) == Some(JsonView::Text(core.id@))),
        paired is None ==> get_replies(paired)[0].1 is None,
        start_replies(paired).len() == 1,
        start_replies(paired)[0].0 == seq!["CONTINUE"@, "Subscribed"@],
        start_replies(paired)[0].1 matches Some(body) && member(body, "paired_core_id"@) == Some(
            JsonView::Text(
                match paired {
                    Some(core) => core.id@,
                    None => "undefined"@,
                },
            ),
        ),
{
}

/// Where another core is paired than before, all who have subscribed are told its id, and the
/// one that was paired before is lost. Otherwise nobody is told, and nothing changes.
pub proof fn change_of_pairing_is_told(
    paired: Option<Core>,
    core: Option<Core>,
    lost: Option<Seq<char>>,
)
    ensures
        ({
            let replies = pair_replies(paired, core);
            let changes = core matches Some(new) && (paired matches Some(old) ==> old.id@
                != new.id@);
            &&& replies.len() == 1
            &&& changes ==> {
                &&& replies[0].0 == seq!["subscribe_pairing"@, "CONTINUE"@, "Changed"@]
                &&& replies[0].1 matches Some(body)
                &&& member(body, "paired_core_id"@) == Some(JsonView::Text(core->Some_0.id@))
                &&& paired_after(paired, core) == core
                &&& lost_after(lost, paired, core) == match paired {
                    Some(old) => Some(old.id@),
                    None => lost,
                }
            }
            &&& !changes ==> {
                &&& replies[0].0.len() == 0
                &&& replies[0].1 is None
                &&& paired_after(paired, core) == paired
                &&& lost_after(lost, paired, core) == lost
            }
        }),
{
}

/// The names of the pairing service stand for what they say.
pub proof fn pairing_service_offers(name: Seq<char>)
    ensures
        ({
            let h = pairing_handlers();
            &&& h.contains_key("get_pairing"@) && h["get_pairing"@] == HandlerView::Call(
                Method::GetPairing,
            )
            &&& h.contains_key("pair"@) && h["pair"@] == HandlerView::Call(Method::Pair)
            &&& h.contains_key("subscribe_pairing"@) && h["subscribe_pairing"@]
                == HandlerView::Subscribe("subscribe_pairing"@, Method::StartPairing)
            &&& h.contains_key("unsubscribe_pairing"@) && h["unsubscribe_pairing"@]
                == HandlerView::Unsubscribe("subscribe_pairing"@, None)
            &&& h.contains_key(name) ==> name == "get_pairing"@ || name == "pair"@ || name
                == "subscribe_pairing"@ || name == "unsubscribe_pairing"@
        }),
{
    reveal_strlit("get_pairing");
    reveal_strlit("pair");
    reveal_strlit("subscribe_pairing");
    reveal_strlit("unsubscribe_pairing");
    assert("get_pairing"@.len() != "pair"@.len());
    assert("get_pairing"@.len() != "subscribe_pairing"@.len());
    assert("get_pairing"@.len() != "unsubscribe_pairing"@.len());
    assert("pair"@.len() != "subscribe_pairing"@.len());
    assert("pair"@.len() != "unsubscribe_pairing"@.len());
    assert("subscribe_pairing"@.len() != "unsubscribe_pairing"@.len());
}

} // verus!
