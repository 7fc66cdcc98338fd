//! Browsing through what a core offers.

use std::collections::HashMap;
use vstd::prelude::*;
use crate::json::{
    empty_object, member, opt_view, optional_int, optional_text, with_member, Json, JsonView,
};
use crate::moo::message::{request_number, MooMessage};
use crate::moo::{asks, request, Moo, Outgoing, Session};
use crate::parsed::{Parsed, RoonApiError};
use crate::text::same_text;

verus! {

broadcast use vstd::std_specs::hash::group_hash_axioms;

pub const SVCNAME: &'static str = "com.roonlabs.browse:1";

/// What is to be done with the result of a step.
#[derive(Clone, Copy, Debug, PartialEq, Eq, Structural)]
pub enum Action {
    Nothing,
    Message,
    List,
    ReplaceItem,
    RemoveItem,
}

/// What a list holds.
#[derive(Clone, Copy, Debug, PartialEq, Eq, Structural)]
pub enum ListHint {
    Nothing,
    ActionList,
}

/// What an item leads to.
#[derive(Clone, Copy, Debug, PartialEq, Eq, Structural)]
pub enum ItemHint {
    Nothing,
    Action,
    ActionList,
    List,
    Header,
}

/// A step through the lists of a core.
#[derive(Clone, Debug)]
pub struct BrowseOpts {
    pub multi_session_key: Option<String>,
    pub item_key: Option<String>,
    pub input: Option<String>,
    pub zone_or_output_id: Option<String>,
    pub pop_all: bool,
    pub pop_levels: Option<u32>,
    pub refresh_list: bool,
    pub set_display_offset: Option<usize>,
}

/// A part of a list to load.
#[derive(Clone, Debug)]
pub struct LoadOpts {
    pub multi_session_key: Option<String>,
    pub level: Option<u32>,
    pub offset: usize,
    pub count: Option<usize>,
    pub set_display_offset: usize,
}

/// A list.
#[derive(Clone, Debug)]
pub struct List {
    pub title: String,
    pub count: usize,
    pub level: u32,
    pub subtitle: Option<String>,
    pub image_key: Option<String>,
    pub display_offset: Option<usize>,
    pub hint: Option<ListHint>,
}

/// What the user is asked for.
#[derive(Clone, Debug)]
pub struct InputPrompt {
    pub prompt: String,
    pub action: String,
    pub value: Option<String>,
    pub is_password: Option<bool>,
}

/// An item of a list.
#[derive(Clone, Debug)]
pub struct Item {
    pub title: String,
    pub subtitle: Option<String>,
    pub image_key: Option<String>,
    pub item_key: Option<String>,
    pub hint: Option<ItemHint>,
    pub input_prompt: Option<InputPrompt>,
}

/// The result of a step.
#[derive(Clone, Debug)]
pub struct BrowseResult {
    pub action: Action,
    pub item: Option<Item>,
    pub list: Option<List>,
    pub message: Option<String>,
    pub is_error: Option<bool>,
}

/// A part of a list.
#[derive(Clone, Debug)]
pub struct LoadResult {
    pub items: Vec<Item>,
    pub offset: usize,
    pub list: List,
}

impl Default for BrowseOpts {
    fn default() -> (r: Self)
        ensures
            r == (BrowseOpts {
                multi_session_key: None,
                item_key: None,
                input: None,
                zone_or_output_id: None,
                pop_all: false,
                pop_levels: None,
                refresh_list: false,
                set_display_offset: None,
            }),
    {
        BrowseOpts {
            multi_session_key: None,
            item_key: None,
            input: None,
            zone_or_output_id: None,
            pop_all: false,
            pop_levels: None,
            refresh_list: false,
            set_display_offset: None,
        }
    }
}

impl Default for LoadOpts {
    fn default() -> (r: Self)
        ensures
            r == (LoadOpts {
                multi_session_key: None,
                level: None,
                offset: 0,
                count: None,
                set_display_offset: 0,
            }),
    {
        LoadOpts {
            multi_session_key: None,
            level: None,
            offset: 0,
            count: None,
            set_display_offset: 0,
        }
    }
}

impl Default for List {
    fn default() -> (r: Self)
        ensures
            r.title@ == Seq::<char>::empty(),
            r.count == 0,
            r.level == 0,
            r.subtitle is None,
            r.image_key is None,
            r.display_offset is None,
            r.hint is None,
    {
        List {
            title: String::new(),
            count: 0,
            level: 0,
            subtitle: None,
            image_key: None,
            display_offset: None,
            hint: None,
        }
    }
}

impl Default for InputPrompt {
    fn default() -> (r: Self)
        ensures
            r.prompt@ == Seq::<char>::empty(),
            r.action@ == Seq::<char>::empty(),
            r.value is None,
            r.is_password is None,
    {
        InputPrompt { prompt: String::new(), action: String::new(), value: None, is_password: None }
    }
}

impl Default for Item {
    fn default() -> (r: Self)
        ensures
            r.title@ == Seq::<char>::empty(),
            r.subtitle is None,
            r.image_key is None,
            r.item_key is None,
            r.hint is None,
            r.input_prompt is None,
    {
        Item {
            title: String::new(),
            subtitle: None,
            image_key: None,
            item_key: None,
            hint: None,
            input_prompt: None,
        }
    }
}

/// An optional number of 32 bits as an integer.
pub open spec fn opt_u32(n: Option<u32>) -> Option<int> {
    match n {
        Some(n) => Some(n as int),
        None => None,
    }
}

/// An optional number as an integer.
pub open spec fn opt_usize(n: Option<usize>) -> Option<int> {
    match n {
        Some(n) => Some(n as int),
        None => None,
    }
}

fn u32_json(n: Option<u32>) -> (r: Json)
    ensures
        r@ == optional_int(opt_u32(n)),
{
    match n {
        Some(n) => Json::Uint(n as u64),
        None => Json::Null,
    }
}

fn usize_json(n: Option<usize>) -> (r: Json)
    ensures
        r@ == optional_int(opt_usize(n)),
{
    match n {
        Some(n) => Json::uint(n),
        None => Json::Null,
    }
}

impl BrowseOpts {
    /// The step as a document. What is not set is `null`.
    pub open spec fn json(self) -> JsonView {
        let v = empty_object();
        let v = with_member(
            v,
            "multi_session_key"@,
            optional_text(opt_view(self.multi_session_key)),
        );
        let v = with_member(v, "item_key"@, optional_text(opt_view(self.item_key)));
        let v = with_member(v, "input"@, optional_text(opt_view(self.input)));
        let v = with_member(
            v,
            "zone_or_output_id"@,
            optional_text(opt_view(self.zone_or_output_id)),
        );
        let v = with_member(v, "pop_all"@, JsonView::Bool(self.pop_all));
        let v = with_member(v, "pop_levels"@, optional_int(opt_u32(self.pop_levels)));
        let v = with_member(v, "refresh_list"@, JsonView::Bool(self.refresh_list));
        with_member(v, "set_display_offset"@, optional_int(opt_usize(self.set_display_offset)))
    }

    /// The step as a document.
    pub fn to_json(&self) -> (r: Json)
        ensures
            r@ == self.json(),
    {
        let mut v = Json::object();
        v.set("multi_session_key", Json::opt_text(&self.multi_session_key));
        v.set("item_key", Json::opt_text(&self.item_key));
        v.set("input", Json::opt_text(&self.input));
        v.set("zone_or_output_id", Json::opt_text(&self.zone_or_output_id));
        v.set("pop_all", Json::Bool(self.pop_all));
        v.set("pop_levels", u32_json(self.pop_levels));
        v.set("refresh_list", Json::Bool(self.refresh_list));
        v.set("set_display_offset", usize_json(self.set_display_offset));
        v
    }
}

impl LoadOpts {
    /// The part as a document. What is not set is `null`.
    pub open spec fn json(self) -> JsonView {
        let v = empty_object();
        let v = with_member(
            v,
            "multi_session_key"@,
            optional_text(opt_view(self.multi_session_key)),
        );
        let v = with_member(v, "level"@, optional_int(opt_u32(self.level)));
        let v = with_member(v, "offset"@, JsonView::Int(self.offset as int));
        let v = with_member(v, "count"@, optional_int(opt_usize(self.count)));
        with_member(v, "set_display_offset"@, JsonView::Int(self.set_display_offset as int))
    }

    /// The part as a document.
    pub fn to_json(&self) -> (r: Json)
        ensures
            r@ == self.json(),
    {
        let mut v = Json::object();
        v.set("multi_session_key", Json::opt_text(&self.multi_session_key));
        v.set("level", u32_json(self.level));
        v.set("offset", Json::uint(self.offset));
        v.set("count", usize_json(self.count));
        v.set("set_display_offset", Json::uint(self.set_display_offset));
        v
    }
}

/// The document with which the service is asked.
pub open spec fn browse_args(opts: JsonView) -> JsonView {
    with_member(opts, "hierarchy"@, JsonView::Text("browse"@))
}

/// The browse service of a core: the connection, and the session of each open request.
#[derive(Debug)]
pub struct Browse {
    pub moo: Option<Moo>,
    pub session_keys: HashMap<usize, Option<String>>,
}

/// What an answer without a result says.
pub open spec fn browse_failure(name: Seq<char>, req_id: usize, key: Option<String>) -> Parsed {
    if name == "InvalidItemKey"@ {
        Parsed::Error(RoonApiError::BrowseInvalidItemKey((req_id, key)))
    } else if name == "InvalidLevels"@ {
        Parsed::Error(RoonApiError::BrowseInvalidLevels((req_id, key)))
    } else if name == "UnexpectedError"@ {
        Parsed::Error(RoonApiError::BrowseUnexpectedError((req_id, key)))
    } else if name == "ZoneNotFound"@ {
        Parsed::Error(RoonApiError::BrowseZoneNotFound((req_id, key)))
    } else {
        Parsed::Nothing
    }
}

/// What an answer to an open request says. A result counts before the name of the answer.
pub open spec fn browse_answer(
    name: Seq<char>,
    req_id: usize,
    key: Option<String>,
    browse: Option<BrowseResult>,
    load: Option<LoadResult>,
) -> Parsed {
    match (browse, load) {
        (Some(result), _) => Parsed::BrowseResult(result, key),
        (None, Some(result)) => Parsed::LoadResult(result, key),
        (None, None) => browse_failure(name, req_id, key),
    }
}

/// The answer to a request comes with the session that the request was for, and a request is
/// answered once.
pub proof fn answer_has_its_session(
    keys: Map<usize, Option<String>>,
    req_id: usize,
    key: Option<String>,
    name: Seq<char>,
    browse: Option<BrowseResult>,
    load: Option<LoadResult>,
)
    ensures
        keys.insert(req_id, key).contains_key(req_id),
        !keys.insert(req_id, key).remove(req_id).contains_key(req_id),
        match browse_answer(name, req_id, keys.insert(req_id, key)[req_id], browse, load) {
            Parsed::BrowseResult(_, k) => k == key,
            Parsed::LoadResult(_, k) => k == key,
            Parsed::Error(RoonApiError::BrowseInvalidItemKey((id, k))) => id == req_id && k == key,
            Parsed::Error(RoonApiError::BrowseInvalidLevels((id, k))) => id == req_id && k == key,
            Parsed::Error(RoonApiError::BrowseUnexpectedError((id, k))) => id == req_id && k
                == key,
            Parsed::Error(RoonApiError::BrowseZoneNotFound((id, k))) => id == req_id && k == key,
            Parsed::Nothing => true,
            _ => false,
        },
{
}

impl Default for Browse {
    fn default() -> (r: Self)
        ensures
            r.moo is None,
            r.session_keys@ == Map::<usize, Option<String>>::empty(),
    {
        Browse::new()
    }
}

impl Browse {
    /// The service without a connection.
    pub fn new() -> (r: Self)
        ensures
            r.moo is None,
            r.session_keys@ == Map::<usize, Option<String>>::empty(),
    {
        Browse { moo: None, session_keys: HashMap::new() }
    }

    /// Connects the service.
    pub fn set_moo(&mut self, moo: Moo)
        ensures
            final(self).moo == Some(moo),
            final(self).session_keys == old(self).session_keys,
    {
        self.moo = Some(moo);
    }

    /// Asks for a step.
    pub fn browse(&self, session: &Session, opts: &BrowseOpts) -> (r: Option<Outgoing>)
        ensures
            asks(
                r,
                self.moo,
                session.req_id,
                SVCNAME@ + "/browse"@,
                Some(browse_args(opts.json())),
            ),
    {
        let mut args = opts.to_json();
        args.set("hierarchy", Json::text("browse"));
        request(&self.moo, session, SVCNAME, "/browse", Some(&args))
    }

    /// Asks for a part of a list.
    pub fn load(&self, session: &Session, opts: &LoadOpts) -> (r: Option<Outgoing>)
        ensures
            asks(
                r,
                self.moo,
                session.req_id,
                SVCNAME@ + "/load"@,
                Some(browse_args(opts.json())),
            ),
    {
        let mut args = opts.to_json();
        args.set("hierarchy", Json::text("browse"));
        request(&self.moo, session, SVCNAME, "/load", Some(&args))
    }

    /// Notes a request that was sent, and the session that it is for.
    pub fn req_sent(&mut self, req_id: usize, multi_session_key: Option<String>)
        ensures
            final(self).moo == old(self).moo,
            final(self).session_keys@ == old(self).session_keys@.insert(req_id, multi_session_key),
    {
        let _ = self.session_keys.insert(req_id, multi_session_key);
    }

    /// What an answer says, where it is one to an open request. `browse` and `load` are the
    /// results that its body is.
    pub fn parse_msg(
        &mut self,
        msg: &MooMessage,
        browse: Option<BrowseResult>,
        load: Option<LoadResult>,
    ) -> (r: Parsed)
        requires
            request_number(msg@) is Some,
        ensures
            final(self).moo == old(self).moo,
            ({
                let req_id = request_number(msg@)->Some_0;
                let keys = old(self).session_keys@;
                &&& final(self).session_keys@ == keys.remove(req_id)
                &&& r == if keys.contains_key(req_id) {
                    browse_answer(msg@.name, req_id, keys[req_id], browse, load)
                } else {
                    Parsed::Nothing
                }
            }),
    {
        let req_id = match msg.request_number() {
            Some(n) => n,
            None => {
                return Parsed::Nothing;
            },
        };
        let ghost keys = self.session_keys@;
        let key = match self.session_keys.remove(&req_id) {
            Some(key) => key,
            None => {
                assert(keys.remove(req_id) =~= keys);
                return Parsed::Nothing;
            },
        };
        if let Some(result) = browse {
            return Parsed::BrowseResult(result, key);
        }
        if let Some(result) = load {
            return Parsed::LoadResult(result, key);
        }
        let name = msg.name.as_str();
        if same_text(name, "InvalidItemKey") {
            Parsed::Error(RoonApiError::BrowseInvalidItemKey((req_id, key)))
        } else if same_text(name, "InvalidLevels") {
            Parsed::Error(RoonApiError::BrowseInvalidLevels((req_id, key)))
        } else if same_text(name, "UnexpectedError") {
            Parsed::Error(RoonApiError::BrowseUnexpectedError((req_id, key)))
        } else if same_text(name, "ZoneNotFound") {
            Parsed::Error(RoonApiError::BrowseZoneNotFound((req_id, key)))
        } else {
            Parsed::Nothing
        }
    }
}

/// A step is asked for with each of its parts under the name of that part, `null` where it has
/// none.
pub proof fn step_is_asked_for_as_it_is(opts: BrowseOpts, json: JsonView)
    requires
        json == opts.json() || json == browse_args(opts.json()),
    ensures
        opts.multi_session_key matches Some(s) ==> member(json, "multi_session_key"@) == Some(JsonView::Text(s@)),
        opts.multi_session_key is None ==> member(json, "multi_session_key"@) == Some(JsonView::Null),
        opts.item_key matches Some(s) ==> member(json, "item_key"@) == Some(JsonView::Text(s@)),
        opts.item_key is None ==> member(json, "item_key"@) == Some(JsonView::Null),
        opts.input matches Some(s) ==> member(json, "input"@) == Some(JsonView::Text(s@)),
        opts.input is None ==> member(json, "input"@) == Some(JsonView::Null),
        opts.zone_or_output_id matches Some(s) ==> member(json, "zone_or_output_id"@) == Some(JsonView::Text(s@)),
        opts.zone_or_output_id is None ==> member(json, "zone_or_output_id"@) == Some(JsonView::Null),
        member(json, "pop_all"@) == Some(JsonView::Bool(opts.pop_all)),
        opts.pop_levels matches Some(n) ==> member(json, "pop_levels"@) == Some(JsonView::Int(n as int)),
        opts.pop_levels is None ==> member(json, "pop_levels"@) == Some(JsonView::Null),
        member(json, "refresh_list"@) == Some(JsonView::Bool(opts.refresh_list)),
        opts.set_display_offset matches Some(n) ==> member(json, "set_display_offset"@) == Some(JsonView::Int(n as int)),
        opts.set_display_offset is None ==> member(json, "set_display_offset"@) == Some(JsonView::Null),
        member(browse_args(opts.json()), "hierarchy"@) == Some(JsonView::Text("browse"@)),
{
    reveal_strlit("multi_session_key");
    reveal_strlit("item_key");
    reveal_strlit("input");
    reveal_strlit("zone_or_output_id");
    reveal_strlit("pop_all");
    reveal_strlit("pop_levels");
    reveal_strlit("refresh_list");
    reveal_strlit("set_display_offset");
    reveal_strlit("hierarchy");
    assert("multi_session_key"@.len() != "item_key"@.len());
    assert("multi_session_key"@.len() != "input"@.len());
    assert("multi_session_key"@[0] != "zone_or_output_id"@[0]);
    assert("multi_session_key"@.len() != "pop_all"@.len());
    assert("multi_session_key"@.len() != "pop_levels"@.len());
    assert("multi_session_key"@.len() != "refresh_list"@.len());
    assert("multi_session_key"@.len() != "set_display_offset"@.len());
    assert("multi_session_key"@.len() != "hierarchy"@.len());
    assert("item_key"@.len() != "input"@.len());
    assert("item_key"@.len() != "zone_or_output_id"@.len());
    assert("item_key"@.len() != "pop_all"@.len());
    assert("item_key"@.len() != "pop_levels"@.len());
    assert("item_key"@.len() != "refresh_list"@.len());
    assert("item_key"@.len() != "set_display_offset"@.len());
    assert("item_key"@.len() != "hierarchy"@.len());
    assert("input"@.len() != "zone_or_output_id"@.len());
    assert("input"@.len() != "pop_all"@.len());
    assert("input"@.len() != "pop_levels"@.len());
    assert("input"@.len() != "refresh_list"@.len());
    assert("input"@.len() != "set_display_offset"@.len());
    assert("input"@.len() != "hierarchy"@.len());
    assert("zone_or_output_id"@.len() != "pop_all"@.len());
    assert("zone_or_output_id"@.len() != "pop_levels"@.len());
    assert("zone_or_output_id"@.len() != "refresh_list"@.len());
    assert("zone_or_output_id"@.len() != "set_display_offset"@.len());
    assert("zone_or_output_id"@.len() != "hierarchy"@.len());
    assert("pop_all"@.len() != "pop_levels"@.len());
    assert("pop_all"@.len() != "refresh_list"@.len());
    assert("pop_all"@.len() != "set_display_offset"@.len());
    assert("pop_all"@.len() != "hierarchy"@.len());
    assert("pop_levels"@.len() != "refresh_list"@.len());
    assert("pop_levels"@.len() != "set_display_offset"@.len());
    assert("pop_levels"@.len() != "hierarchy"@.len());
    assert("refresh_list"@.len() != "set_display_offset"@.len());
    assert("refresh_list"@.len() != "hierarchy"@.len());
    assert("set_display_offset"@.len() != "hierarchy"@.len());
}

/// A part of a list is asked for with each of its parts under the name of that part, `null` where
/// it has none.
pub proof fn page_is_asked_for_as_it_is(opts: LoadOpts, json: JsonView)
    requires
        json == opts.json() || json == browse_args(opts.json()),
    ensures
        opts.multi_session_key matches Some(s) ==> member(json, "multi_session_key"@) == Some(JsonView::Text(s@)),
        opts.multi_session_key is None ==> member(json, "multi_session_key"@) == Some(JsonView::Null),
        opts.level matches Some(n) ==> member(json, "level"@) == Some(JsonView::Int(n as int)),
        opts.level is None ==> member(json, "level"@) == Some(JsonView::Null),
        member(json, "offset"@) == Some(JsonView::Int(opts.offset as int)),
        opts.count matches Some(n) ==> member(json, "count"@) == Some(JsonView::Int(n as int)),
        opts.count is None ==> member(json, "count"@) == Some(JsonView::Null),
        member(json, "set_display_offset"@) == Some(JsonView::Int(opts.set_display_offset as int)),
        member(browse_args(opts.json()), "hierarchy"@) == Some(JsonView::Text("browse"@)),
{
    reveal_strlit("multi_session_key");
    reveal_strlit("level");
    reveal_strlit("offset");
    reveal_strlit("count");
    reveal_strlit("set_display_offset");
    reveal_strlit("hierarchy");
    assert("multi_session_key"@.len() != "level"@.len());
    assert("multi_session_key"@.len() != "offset"@.len());
    assert("multi_session_key"@.len() != "count"@.len());
    assert("multi_session_key"@.len() != "set_display_offset"@.len());
    assert("multi_session_key"@.len() != "hierarchy"@.len());
    assert("level"@.len() != "offset"@.len());
    assert("level"@[0] != "count"@[0]);
    assert("level"@.len() != "set_display_offset"@.len());
    assert("level"@.len() != "hierarchy"@.len());
    assert("offset"@.len() != "count"@.len());
    assert("offset"@.len() != "set_display_offset"@.len());
    assert("offset"@.len() != "hierarchy"@.len());
    assert("count"@.len() != "set_display_offset"@.len());
    assert("count"@.len() != "hierarchy"@.len());
    assert("set_display_offset"@.len() != "hierarchy"@.len());
}

/// An answer says its result, a step before a part of a list, and without a result which error
/// its name is: one of four, each of its own kind, with the id of the request and its session.
pub proof fn answer_says_its_result(
    name: Seq<char>,
    req_id: usize,
    key: Option<String>,
    browse: Option<BrowseResult>,
    load: Option<LoadResult>,
)
    ensures
        ({
            let said = browse_answer(name, req_id, key, browse, load);
            &&& browse matches Some(result) ==> said == Parsed::BrowseResult(result, key)
            &&& browse is None ==> (load matches Some(result) ==> said == Parsed::LoadResult(
                result,
                key,
            ))
            &&& browse is None && load is None ==> {
                &&& said == Parsed::Error(RoonApiError::BrowseInvalidItemKey((req_id, key)))
                    <==> name == "InvalidItemKey"@
                &&& said == Parsed::Error(RoonApiError::BrowseInvalidLevels((req_id, key)))
                    <==> name == "InvalidLevels"@
                &&& said == Parsed::Error(RoonApiError::BrowseUnexpectedError((req_id, key)))
                    <==> name == "UnexpectedError"@
                &&& said == Parsed::Error(RoonApiError::BrowseZoneNotFound((req_id, key)))
                    <==> name == "ZoneNotFound"@
                &&& said == Parsed::Nothing || said is Error
            }
        }),
{
    reveal_strlit("InvalidItemKey");
    reveal_strlit("InvalidLevels");
    reveal_strlit("UnexpectedError");
    reveal_strlit("ZoneNotFound");
    assert("InvalidItemKey"@.len() != "InvalidLevels"@.len());
    assert("InvalidItemKey"@.len() != "UnexpectedError"@.len());
    assert("InvalidItemKey"@.len() != "ZoneNotFound"@.len());
    assert("InvalidLevels"@.len() != "UnexpectedError"@.len());
    assert("InvalidLevels"@.len() != "ZoneNotFound"@.len());
    assert("UnexpectedError"@.len() != "ZoneNotFound"@.len());
}

} // verus!
