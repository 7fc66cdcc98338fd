//! The settings of the extension.

use vstd::prelude::*;
use crate::api::RoonApi;
use crate::json::{
    empty_object, items_view, lemma_items_view, lemma_items_view_push, member, opt_view,
    optional_text, with_member, Json, JsonView,
};
use crate::moo::message::{body_of, MooMessage};
use crate::moo::taken;
use crate::parsed::Parsed;
use crate::service::{
    calls, completed, continued, continued_all, handlers, only, replies_view, reply_view,
    send_complete, send_continue, send_continue_all, with_subs, Fault, HandlerView, Method,
    RespProps, State, Sub, Svc, SvcSpec,
};
use crate::text::{parse_signed, signed_value, strings, ParseIntError};

verus! {

pub const SVCNAME: &'static str = "com.roonlabs.settings:1";

/// A value that can be shown and stored as a document.
pub trait SerTrait {
    /// The value as a document.
    spec fn json(&self) -> JsonView;

    /// The value as a document.
    fn to_json(&self) -> (r: Json)
        ensures
            r@ == self.json(),
    ;
}

impl SerTrait for Json {
    open spec fn json(&self) -> JsonView {
        self@
    }

    fn to_json(&self) -> (r: Json) {
        self.clone()
    }
}

/// A choice between values.
#[derive(Debug)]
pub struct Dropdown {
    pub title: &'static str,
    pub subtitle: Option<String>,
    pub values: Vec<Json>,
    pub setting: &'static str,
}

/// Settings that are shown together.
#[derive(Debug)]
pub struct Group {
    pub title: &'static str,
    pub subtitle: Option<String>,
    pub collapsable: bool,
    pub items: Vec<Widget>,
}

/// A number.
#[derive(Debug)]
pub struct Integer {
    pub title: &'static str,
    pub subtitle: Option<String>,
    pub min: String,
    pub max: String,
    pub setting: &'static str,
    pub error: Option<String>,
}

/// A text that is only shown.
#[derive(Debug)]
pub struct Label {
    pub title: String,
    pub subtitle: Option<String>,
}

/// A choice between outputs.
#[derive(Debug)]
pub struct OutputDropdown {
    pub title: &'static str,
    pub subtitle: Option<String>,
    pub setting: &'static str,
}

/// A text.
#[derive(Debug)]
pub struct Textbox {
    pub title: &'static str,
    pub subtitle: Option<String>,
    pub setting: &'static str,
}

/// A part of the settings as they are shown.
#[derive(Debug)]
pub enum Widget {
    Dropdown(Dropdown),
    Group(Group),
    Integer(Integer),
    Label(Label),
    OutputDropdown(OutputDropdown),
    Textbox(Textbox),
}

/// An output that was chosen.
#[derive(Debug)]
pub struct OutputSetting {
    pub name: String,
    pub output_id: String,
}

impl Clone for OutputSetting {
    fn clone(&self) -> (r: Self)
        ensures
            r == *self,
    {
        OutputSetting { name: self.name.clone(), output_id: self.output_id.clone() }
    }
}

impl SerTrait for OutputSetting {
    open spec fn json(&self) -> JsonView {
        with_member(
            with_member(empty_object(), "name"@, JsonView::Text(self.name@)),
            "output_id"@,
            JsonView::Text(self.output_id@),
        )
    }

    fn to_json(&self) -> (r: Json) {
        let mut v = Json::object();
        v.set("name", Json::text(self.name.as_str()));
        v.set("output_id", Json::text(self.output_id.as_str()));
        v
    }
}

/// The settings as they are shown: their values, how these are laid out, and whether one of them
/// is wrong.
#[derive(Debug)]
pub struct Layout<T: SerTrait> {
    pub settings: T,
    pub widgets: Vec<Widget>,
    pub has_error: bool,
}

/// The settings: the number of the service, which keeps the request with which they were saved
/// last.
#[derive(Clone, Copy, Debug, PartialEq, Eq, Structural)]
pub struct Settings {
    pub number: usize,
}

/// Whether a text is a number outside of limits. What is no number is found in the order value,
/// lower limit, upper limit.
pub open spec fn range_check(value: Seq<char>, min: Seq<char>, max: Seq<char>) -> Result<
    bool,
    ParseIntError,
> {
    match (signed_value(value), signed_value(min), signed_value(max)) {
        (Err(e), _, _) => Err(e),
        (_, Err(e), _) => Err(e),
        (_, _, Err(e)) => Err(e),
        (Ok(value), Ok(min), Ok(max)) => Ok(value < min || value > max),
    }
}

impl Integer {
    /// Whether a text is a number outside of the limits.
    pub fn out_of_range(&self, value_str: &str) -> (r: Result<bool, ParseIntError>)
        ensures
            r == range_check(value_str@, self.min@, self.max@),
    {
        let value = match parse_signed(value_str) {
            Ok(value) => value,
            Err(e) => {
                return Err(e);
            },
        };
        let min = match parse_signed(self.min.as_str()) {
            Ok(min) => min,
            Err(e) => {
                return Err(e);
            },
        };
        let max = match parse_signed(self.max.as_str()) {
            Ok(max) => max,
            Err(e) => {
                return Err(e);
            },
        };
        Ok(value < min || value > max)
    }
}

/// The members that each widget has.
pub open spec fn titled(kind: Seq<char>, title: Seq<char>, subtitle: Option<String>) -> JsonView {
    with_member(
        with_member(
            with_member(empty_object(), "type"@, JsonView::Text(kind)),
            "title"@,
            JsonView::Text(title),
        ),
        "subtitle"@,
        optional_text(opt_view(subtitle)),
    )
}

/// A widget as a document.
pub open spec fn widget_json(w: Widget) -> JsonView
    decreases w,
{
    match w {
        Widget::Dropdown(d) => with_member(
            with_member(
                titled("dropdown"@, d.title@, d.subtitle),
                "values"@,
                JsonView::Array(items_view(d.values@)),
            ),
            "setting"@,
            JsonView::Text(d.setting@),
        ),
        Widget::Group(g) => with_member(
            with_member(
                titled("group"@, g.title@, g.subtitle),
                "collapsable"@,
                JsonView::Bool(g.collapsable),
            ),
            "items"@,
            JsonView::Array(widgets_json(g.items@)),
        ),
        Widget::Integer(i) => with_member(
            with_member(
                with_member(
                    with_member(
                        titled("integer"@, i.title@, i.subtitle),
                        "min"@,
                        JsonView::Text(i.min@),
                    ),
                    "max"@,
                    JsonView::Text(i.max@),
                ),
                "setting"@,
                JsonView::Text(i.setting@),
            ),
            "error"@,
            optional_text(opt_view(i.error)),
        ),
        Widget::Label(l) => titled("label"@, l.title@, l.subtitle),
        Widget::OutputDropdown(o) => with_member(
            titled("zone"@, o.title@, o.subtitle),
            "setting"@,
            JsonView::Text(o.setting@),
        ),
        Widget::Textbox(t) => with_member(
            titled("string"@, t.title@, t.subtitle),
            "setting"@,
            JsonView::Text(t.setting@),
        ),
    }
}

/// Widgets as documents.
pub open spec fn widgets_json(s: Seq<Widget>) -> Seq<JsonView>
    decreases s,
{
    if s.len() == 0 {
        Seq::empty()
    } else {
        widgets_json(s.drop_last()).push(widget_json(s.last()))
    }
}

/// The settings, as they are shown, as a document.
pub open spec fn layout_json(values: JsonView, widgets: Seq<Widget>, has_error: bool) -> JsonView {
    with_member(
        with_member(
            with_member(empty_object(), "values"@, values),
            "layout"@,
            JsonView::Array(widgets_json(widgets)),
        ),
        "has_error"@,
        JsonView::Bool(has_error),
    )
}

/// The body of a message about the settings.
pub open spec fn settings_json(layout: JsonView) -> JsonView {
    with_member(empty_object(), "settings"@, layout)
}

fn titled_json(kind: &str, title: &str, subtitle: &Option<String>) -> (r: Json)
    ensures
        r@ == titled(kind@, title@, *subtitle),
{
    let mut v = Json::object();
    v.set("type", Json::text(kind));
    v.set("title", Json::text(title));
    v.set("subtitle", Json::opt_text(subtitle));
    v
}

fn copy_items(values: &Vec<Json>) -> (r: Vec<Json>)
    ensures
        items_view(r@) == items_view(values@),
{
    let mut copies: Vec<Json> = Vec::new();
    let mut i: usize = 0;
    while i < values.len()
        invariant
            i <= values@.len(),
            items_view(copies@) == items_view(values@.take(i as int)),
        decreases values@.len() - i,
    {
        let copy = values[i].clone();
        proof {
            lemma_items_view_push(copies@, copy);
            assert(values@.take(i + 1) =~= values@.take(i as int).push(values@[i as int]));
            lemma_items_view_push(values@.take(i as int), values@[i as int]);
        }
        copies.push(copy);
        i += 1;
    }
    assert(values@.take(i as int) =~= values@);
    copies
}

impl Widget {
    /// The widget as a document.
    pub fn to_json(&self) -> (r: Json)
        ensures
            r@ == widget_json(*self),
        decreases *self,
    {
        match self {
            Widget::Dropdown(d) => {
                let mut v = titled_json("dropdown", d.title, &d.subtitle);
                v.set("values", Json::Array(copy_items(&d.values)));
                v.set("setting", Json::text(d.setting));
                v
            },
            Widget::Group(g) => {
                let mut v = titled_json("group", g.title, &g.subtitle);
                v.set("collapsable", Json::Bool(g.collapsable));
                let mut items: Vec<Json> = Vec::new();
                let mut i: usize = 0;
                while i < g.items.len()
                    invariant
                        *self == Widget::Group(*g),
                        i <= g.items@.len(),
                        items_view(items@) == widgets_json(g.items@.take(i as int)),
                    decreases g.items@.len() - i,
                {
                    assert(decreases_to!(*self => (*self)->Group_0));
                    assert(decreases_to!((*self)->Group_0 => (*self)->Group_0.items));
                    assert(decreases_to!(g.items => g.items@));
                    assert(decreases_to!(g.items@ => g.items@[i as int]));
                    let item = g.items[i].to_json();
                    proof {
                        lemma_items_view_push(items@, item);
                        let next = g.items@.take(i + 1);
                        assert(next.drop_last() =~= g.items@.take(i as int));
                        assert(next.last() == g.items@[i as int]);
                    }
                    items.push(item);
                    i += 1;
                }
                assert(g.items@.take(i as int) =~= g.items@);
                v.set("items", Json::Array(items));
                v
            },
            Widget::Integer(n) => {
                let mut v = titled_json("integer", n.title, &n.subtitle);
                v.set("min", Json::text(n.min.as_str()));
                v.set("max", Json::text(n.max.as_str()));
                v.set("setting", Json::text(n.setting));
                v.set("error", Json::opt_text(&n.error));
                v
            },
            Widget::Label(l) => titled_json("label", l.title.as_str(), &l.subtitle),
            Widget::OutputDropdown(o) => {
                let mut v = titled_json("zone", o.title, &o.subtitle);
                v.set("setting", Json::text(o.setting));
                v
            },
            Widget::Textbox(t) => {
                let mut v = titled_json("string", t.title, &t.subtitle);
                v.set("setting", Json::text(t.setting));
                v
            },
        }
    }
}

impl<T: SerTrait> Layout<T> {
    /// The settings as a document.
    pub fn to_json(&self) -> (r: Json)
        ensures
            r@ == layout_json(self.settings.json(), self.widgets@, self.has_error),
    {
        let mut items: Vec<Json> = Vec::new();
        let mut i: usize = 0;
        while i < self.widgets.len()
            invariant
                i <= self.widgets@.len(),
                items_view(items@) == widgets_json(self.widgets@.take(i as int)),
            decreases self.widgets@.len() - i,
        {
            let item = self.widgets[i].to_json();
            proof {
                lemma_items_view_push(items@, item);
                let next = self.widgets@.take(i + 1);
                assert(next.drop_last() =~= self.widgets@.take(i as int));
                assert(next.last() == self.widgets@[i as int]);
            }
            items.push(item);
            i += 1;
        }
        assert(self.widgets@.take(i as int) =~= self.widgets@);
        let mut v = Json::object();
        v.set("values", self.settings.to_json());
        v.set("layout", Json::Array(items));
        v.set("has_error", Json::Bool(self.has_error));
        v
    }
}

/// What the names of the settings service stand for.
pub open spec fn settings_handlers() -> Map<Seq<char>, HandlerView> {
    Map::empty().insert("get_settings"@, HandlerView::Call(Method::GetSettings)).insert(
        "save_settings"@,
        HandlerView::Call(Method::SaveSettings),
    ).insert(
        "subscribe_settings"@,
        HandlerView::Subscribe("subscribe_settings"@, Method::StartSettings),
    ).insert("unsubscribe_settings"@, HandlerView::Unsubscribe("subscribe_settings"@, None))
}

/// The member under `key`, or `null` where there is none.
pub open spec fn at(v: JsonView, key: Seq<char>) -> JsonView {
    match member(v, key) {
        Some(x) => x,
        None => JsonView::Null,
    }
}

/// The answers to a core that saves settings, which the layout shows.
pub open spec fn save_replies(is_dry_run: bool, has_error: bool, layout: JsonView) -> Seq<
    (Seq<Seq<char>>, Option<JsonView>),
> {
    let body = Some(settings_json(layout));
    if has_error {
        seq![completed("NotValid"@, body)]
    } else if is_dry_run {
        seq![completed("Success"@, body)]
    } else {
        seq![
            completed("Success"@, body),
            continued_all("subscribe_settings"@, "Changed"@, body),
        ]
    }
}

/// The member under `key`, or `null` where there is none.
fn get_at(v: &Json, key: &str) -> (r: Json)
    ensures
        r@ == at(v@, key@),
{
    match v.get(key) {
        Some(x) => x.clone(),
        None => Json::Null,
    }
}

/// Makes the body of a message about the settings.
fn settings_body(layout: &Json) -> (r: Json)
    ensures
        r@ == settings_json(layout@),
{
    let mut body = Json::object();
    body.set("settings", layout.clone());
    body
}

impl Settings {
    /// The service, and the settings that it offers: none were saved yet. They know each other
    /// by a number from `svc_count`, the counter that all services share.
    pub fn new(roon: &RoonApi, svc_count: &mut usize) -> (r: (Svc, Settings))
        requires
            *old(svc_count) < usize::MAX,
        ensures
            taken(*old(svc_count), *final(svc_count), r.1.number),
            r.0.state.number == Some(r.1.number),
            r.0.state.is_new(),
            r.0.name@ == SVCNAME@,
            r.0.sub_types@ == Map::<Seq<char>, usize>::empty(),
            handlers(r.0.methods@) == settings_handlers(),
            strings(r.0.sub_names@) == seq!["subscribe_settings"@],
            r.0.wf(),
    {
        let mut spec = SvcSpec::new(SVCNAME);
        spec.add_method("get_settings", Method::GetSettings);
        spec.add_method("save_settings", Method::SaveSettings);
        spec.add_sub(
            Sub {
                subscribe_name: "subscribe_settings".to_owned(),
                unsubscribe_name: "unsubscribe_settings".to_owned(),
                start: Method::StartSettings,
                end: None,
            },
        );
        let ghost methods = spec.methods@;
        let (svc, number) = roon.register_shared(spec, svc_count);
        proof {
            reveal_with_fuel(with_subs, 2);
            assert(calls(methods) =~= Map::empty().insert(
                "get_settings"@,
                HandlerView::Call(Method::GetSettings),
            ).insert("save_settings"@, HandlerView::Call(Method::SaveSettings)));
            assert(handlers(svc.methods@) =~= settings_handlers());
            assert(strings(svc.sub_names@) =~= seq!["subscribe_settings"@]);
        }
        (svc, Settings { number })
    }

    /// The answer to a core that asks for the settings, which `layout` shows.
    pub fn get_settings(layout: &Json) -> (r: Vec<RespProps>)
        ensures
            replies_view(r@) == seq![completed("Success"@, Some(settings_json(layout@)))],
    {
        only(send_complete("Success", Some(settings_body(layout))))
    }

    /// The answer to a core that subscribes to the settings, which `layout` shows.
    pub fn start(layout: &Json) -> (r: Vec<RespProps>)
        ensures
            replies_view(r@) == seq![continued("Subscribed"@, Some(settings_json(layout@)))],
    {
        only(send_continue("Subscribed", Some(settings_body(layout))))
    }

    /// The answer to a core that asks for the settings, which `layout` shows, or subscribes to
    /// them.
    pub fn shown(method: Method, layout: &Json) -> (r: Vec<RespProps>)
        requires
            method == Method::GetSettings || method == Method::StartSettings,
        ensures
            replies_view(r@) == if method == Method::GetSettings {
                seq![completed("Success"@, Some(settings_json(layout@)))]
            } else {
                seq![continued("Subscribed"@, Some(settings_json(layout@)))]
            },
    {
        match method {
            Method::GetSettings => Settings::get_settings(layout),
            _ => Settings::start(layout),
        }
    }

    /// Begins to save settings: whether they are only tried, and their values. Where they are
    /// saved, the service keeps the request.
    pub fn begin_save(state: &mut State, req: &MooMessage, req_id: usize) -> (r: Result<
        (bool, Json),
        Fault,
    >)
        ensures
            match at(body_of(req@), "is_dry_run"@) {
                JsonView::Bool(is_dry_run) => {
                    &&& r matches Ok((dry, values))
                    &&& dry == is_dry_run
                    &&& values@ == at(at(body_of(req@), "settings"@), "values"@)
                    &&& *final(state) == if is_dry_run {
                        *old(state)
                    } else {
                        State { save_req_id: Some(req_id), ..*old(state) }
                    }
                },
                _ => r == Err::<(bool, Json), Fault>(Fault::Body) && *final(state) == *old(
                    state,
                ),
            },
    {
        let is_dry_run = match req.body_member("is_dry_run") {
            Some(x) => x.as_bool(),
            None => None,
        };
        let is_dry_run = match is_dry_run {
            Some(b) => b,
            None => {
                return Err(Fault::Body);
            },
        };
        let values = match req.body_member("settings") {
            Some(settings) => get_at(settings, "values"),
            None => Json::Null,
        };
        if !is_dry_run {
            state.save_req_id = Some(req_id);
        }
        Ok((is_dry_run, values))
    }

    /// The answers to a core that saves settings, which `layout` shows. All who have subscribed
    /// are told of settings that are saved.
    pub fn save_settings(is_dry_run: bool, has_error: bool, layout: &Json) -> (r: Vec<
        RespProps,
    >)
        ensures
            replies_view(r@) == save_replies(is_dry_run, has_error, layout@),
    {
        if has_error {
            return only(send_complete("NotValid", Some(settings_body(layout))));
        }
        let mut replies = only(send_complete("Success", Some(settings_body(layout))));
        if !is_dry_run {
            let ghost before = replies@;
            let change = send_continue_all(
                "subscribe_settings",
                "Changed",
                Some(settings_body(layout)),
            );
            replies.push(change);
            assert(replies_view(replies@) =~= replies_view(before).push(reply_view(change)));
            assert(replies_view(replies@) =~= save_replies(is_dry_run, has_error, layout@));
        }
        replies
    }

    /// What a reply says: the values, where it is the one to the request that saved them, which
    /// the service keeps.
    pub fn parse_msg(state: &State, req_id: usize, body: Option<&Json>) -> (r: Parsed)
        ensures
            match body {
                Some(body) => if state.save_req_id == Some(req_id) {
                    r matches Parsed::SettingsSaved(values) && values@ == at(
                        at(body@, "settings"@),
                        "values"@,
                    )
                } else {
                    r == Parsed::Nothing
                },
                None => r == Parsed::Nothing,
            },
    {
        if let Some(body) = body {
            if let Some(save_req_id) = state.save_req_id {
                if req_id == save_req_id {
                    let values = match body.get("settings") {
                        Some(settings) => get_at(settings, "values"),
                        None => Json::Null,
                    };
                    return Parsed::SettingsSaved(values);
                }
            }
        }
        Parsed::Nothing
    }
}

/// What is stored when settings are saved is what the reply to the request shows.
pub proof fn saved_values_are_shown(values: JsonView, widgets: Seq<Widget>, has_error: bool)
    ensures
        at(
            at(settings_json(layout_json(values, widgets, has_error)), "settings"@),
            "values"@,
        ) == values,
{
    reveal_strlit("values");
    reveal_strlit("layout");
    reveal_strlit("has_error");
    assert("values"@[0] != "layout"@[0]);
    assert("values"@[0] != "has_error"@[0]);
}

/// Widgets as documents are as many as the widgets, in their order.
pub proof fn each_widget_is_shown(widgets: Seq<Widget>, i: int)
    requires
        0 <= i < widgets.len(),
    ensures
        widgets_json(widgets).len() == widgets.len(),
        widgets_json(widgets)[i] == widget_json(widgets[i]),
    decreases widgets.len(),
{
    let rest = widgets.drop_last();
    if i < rest.len() {
        each_widget_is_shown(rest, i);
        assert(rest[i] == widgets[i]);
    } else if rest.len() > 0 {
        each_widget_is_shown(rest, 0);
    } else {
        assert(widgets_json(rest) =~= Seq::<JsonView>::empty());
    }
}

/// A layout is shown with its values, with each of its widgets in its place, and with whether
/// one of the values is wrong. So is the body of a message about it.
pub proof fn layout_is_shown_as_it_is(
    values: JsonView,
    widgets: Seq<Widget>,
    has_error: bool,
    i: int,
)
    requires
        0 <= i < widgets.len(),
    ensures
        ({
            let json = layout_json(values, widgets, has_error);
            &&& member(json, "values"@) == Some(values)
            &&& member(json, "has_error"@) == Some(JsonView::Bool(has_error))
            &&& member(json, "layout"@) matches Some(JsonView::Array(items))
            &&& items.len() == widgets.len()
            &&& items[i] == widget_json(widgets[i])
            &&& member(settings_json(json), "settings"@) == Some(json)
        }),
{
    reveal_strlit("values");
    reveal_strlit("layout");
    reveal_strlit("has_error");
    assert("values"@[0] != "layout"@[0]);
    assert("values"@.len() != "has_error"@.len());
    assert("layout"@.len() != "has_error"@.len());
    each_widget_is_shown(widgets, i);
}

/// A layout without widgets is shown with its values, and with whether one of them is wrong.
pub proof fn empty_layout_is_shown(values: JsonView, has_error: bool)
    ensures
        ({
            let json = layout_json(values, Seq::empty(), has_error);
            &&& member(json, "values"@) == Some(values)
            &&& member(json, "has_error"@) == Some(JsonView::Bool(has_error))
            &&& member(json, "layout"@) == Some(JsonView::Array(Seq::empty()))
        }),
{
    reveal_strlit("values");
    reveal_strlit("layout");
    reveal_strlit("has_error");
    assert("values"@[0] != "layout"@[0]);
    assert("values"@.len() != "has_error"@.len());
    assert("layout"@.len() != "has_error"@.len());
    assert(widgets_json(Seq::empty()) =~= Seq::<JsonView>::empty());
}

/// Whether a document names a widget of a kind, with its title and its subtitle, `null` where it
/// has none.
pub open spec fn shows_title(
    json: JsonView,
    kind: Seq<char>,
    title: Seq<char>,
    subtitle: Option<String>,
) -> bool {
    &&& member(json, "type"@) == Some(JsonView::Text(kind))
    &&& member(json, "title"@) == Some(JsonView::Text(title))
    &&& match subtitle {
        Some(text) => member(json, "subtitle"@) == Some(JsonView::Text(text@)),
        None => member(json, "subtitle"@) == Some(JsonView::Null),
    }
}

/// A widget is shown as what it is, with each of its parts under the name of that part.
pub proof fn widget_is_shown_as_it_is(w: Widget, i: int)
    ensures
        ({
            let json = widget_json(w);
            match w {
                Widget::Dropdown(d) => {
                    &&& shows_title(json, "dropdown"@, d.title@, d.subtitle)
                    &&& member(json, "setting"@) == Some(JsonView::Text(d.setting@))
                    &&& member(json, "values"@) matches Some(JsonView::Array(items))
                    &&& items.len() == d.values@.len()
                    &&& 0 <= i < items.len() ==> items[i] == d.values@[i]@
                },
                Widget::Group(g) => {
                    &&& shows_title(json, "group"@, g.title@, g.subtitle)
                    &&& member(json, "collapsable"@) == Some(JsonView::Bool(g.collapsable))
                    &&& member(json, "items"@) matches Some(JsonView::Array(items))
                    &&& 0 <= i < g.items@.len() ==> items.len() == g.items@.len() && items[i]
                        == widget_json(g.items@[i])
                },
                Widget::Integer(n) => {
                    &&& shows_title(json, "integer"@, n.title@, n.subtitle)
                    &&& member(json, "min"@) == Some(JsonView::Text(n.min@))
                    &&& member(json, "max"@) == Some(JsonView::Text(n.max@))
                    &&& member(json, "setting"@) == Some(JsonView::Text(n.setting@))
                    &&& match n.error {
                        Some(text) => member(json, "error"@) == Some(JsonView::Text(text@)),
                        None => member(json, "error"@) == Some(JsonView::Null),
                    }
                },
                Widget::Label(l) => shows_title(json, "label"@, l.title@, l.subtitle),
                Widget::OutputDropdown(o) => {
                    &&& shows_title(json, "zone"@, o.title@, o.subtitle)
                    &&& member(json, "setting"@) == Some(JsonView::Text(o.setting@))
                },
                Widget::Textbox(t) => {
                    &&& shows_title(json, "string"@, t.title@, t.subtitle)
                    &&& member(json, "setting"@) == Some(JsonView::Text(t.setting@))
                },
            }
        }),
{
    reveal_strlit("type");
    reveal_strlit("title");
    reveal_strlit("subtitle");
    reveal_strlit("values");
    reveal_strlit("setting");
    reveal_strlit("collapsable");
    reveal_strlit("items");
    reveal_strlit("min");
    reveal_strlit("max");
    reveal_strlit("error");
    assert("type"@.len() != "title"@.len());
    assert("type"@.len() != "subtitle"@.len());
    assert("type"@.len() != "values"@.len());
    assert("type"@.len() != "setting"@.len());
    assert("type"@.len() != "collapsable"@.len());
    assert("type"@.len() != "items"@.len());
    assert("type"@.len() != "min"@.len());
    assert("type"@.len() != "max"@.len());
    assert("type"@.len() != "error"@.len());
    assert("title"@.len() != "subtitle"@.len());
    assert("title"@.len() != "values"@.len());
    assert("title"@.len() != "setting"@.len());
    assert("title"@.len() != "collapsable"@.len());
    assert("title"@[0] != "items"@[0]);
    assert("title"@.len() != "min"@.len());
    assert("title"@.len() != "max"@.len());
    assert("title"@[0] != "error"@[0]);
    assert("subtitle"@.len() != "values"@.len());
    assert("subtitle"@.len() != "setting"@.len());
    assert("subtitle"@.len() != "collapsable"@.len());
    assert("subtitle"@.len() != "items"@.len());
    assert("subtitle"@.len() != "min"@.len());
    assert("subtitle"@.len() != "max"@.len());
    assert("subtitle"@.len() != "error"@.len());
    assert("values"@.len() != "setting"@.len());
    assert("values"@.len() != "collapsable"@.len());
    assert("values"@.len() != "items"@.len());
    assert("values"@.len() != "min"@.len());
    assert("values"@.len() != "max"@.len());
    assert("values"@.len() != "error"@.len());
    assert("setting"@.len() != "collapsable"@.len());
    assert("setting"@.len() != "items"@.len());
    assert("setting"@.len() != "min"@.len());
    assert("setting"@.len() != "max"@.len());
    assert("setting"@.len() != "error"@.len());
    assert("collapsable"@.len() != "items"@.len());
    assert("collapsable"@.len() != "min"@.len());
    assert("collapsable"@.len() != "max"@.len());
    assert("collapsable"@.len() != "error"@.len());
    assert("items"@.len() != "min"@.len());
    assert("items"@.len() != "max"@.len());
    assert("items"@[0] != "error"@[0]);
    assert("min"@[1] != "max"@[1]);
    assert("min"@.len() != "error"@.len());
    assert("max"@.len() != "error"@.len());
    match w {
        Widget::Dropdown(d) => {
            lemma_items_view(d.values@);
        },
        Widget::Group(g) => {
            if 0 <= i < g.items@.len() {
                each_widget_is_shown(g.items@, i);
            }
        },
        _ => {},
    }
}

/// An output that was chosen is stored with its name and its id.
pub proof fn output_is_stored_as_it_is(output: OutputSetting)
    ensures
        member(output.json(), "name"@) == Some(JsonView::Text(output.name@)),
        member(output.json(), "output_id"@) == Some(JsonView::Text(output.output_id@)),
{
    reveal_strlit("name");
    reveal_strlit("output_id");
    assert("name"@.len() != "output_id"@.len());
}

/// A number is out of range exactly where it is below the lower or above the upper limit. What
/// is no number is told before the limits are looked at.
pub proof fn number_is_held_against_its_limits(
    value: Seq<char>,
    min: Seq<char>,
    max: Seq<char>,
)
    ensures
        signed_value(value) matches Err(e) ==> range_check(value, min, max) == Err::<
            bool,
            ParseIntError,
        >(e),
        signed_value(value) is Ok ==> (signed_value(min) matches Err(e) ==> range_check(
            value,
            min,
            max,
        ) == Err::<bool, ParseIntError>(e)),
        signed_value(value) is Ok && signed_value(min) is Ok ==> (signed_value(max) matches Err(e)
            ==> range_check(value, min, max) == Err::<bool, ParseIntError>(e)),
        signed_value(value) matches Ok(v) ==> (signed_value(min) matches Ok(lo) ==> (signed_value(
            max,
        ) matches Ok(hi) ==> (range_check(value, min, max) == Ok::<bool, ParseIntError>(false)
            <==> lo <= v <= hi))),
        range_check(value, min, max) is Ok <==> signed_value(value) is Ok && signed_value(min) is Ok
            && signed_value(max) is Ok,
{
}

/// The core that saves settings is told whether they are valid. All who have subscribed are told
/// of them exactly where they are valid and saved. Each of these replies shows the layout.
pub proof fn saved_settings_are_answered(is_dry_run: bool, has_error: bool, layout: JsonView)
    ensures
        ({
            let replies = save_replies(is_dry_run, has_error, layout);
            &&& 1 <= replies.len() <= 2
            &&& replies[0].0 == seq![
                "COMPLETE"@,
                if has_error {
                    "NotValid"@
                } else {
                    "Success"@
                },
            ]
            &&& replies.len() == 2 <==> !has_error && !is_dry_run
            &&& replies.len() == 2 ==> replies[1].0 == seq![
                "subscribe_settings"@,
                "CONTINUE"@,
                "Changed"@,
            ]
            &&& forall|i: int|
                0 <= i < replies.len() ==> {
                    &&& (#[trigger] replies[i]).1 matches Some(body)
                    &&& member(body, "settings"@) == Some(layout)
                }
        }),
{
}

/// The names of the settings service stand for what they say: to show the settings, to save
/// them, and to subscribe to them, where a subscription begins by showing them.
pub proof fn settings_service_offers(name: Seq<char>)
    ensures
        ({
            let h = settings_handlers();
            &&& h.contains_key("get_settings"@) && h["get_settings"@] == HandlerView::Call(
                Method::GetSettings,
            )
            &&& h.contains_key("save_settings"@) && h["save_settings"@] == HandlerView::Call(
                Method::SaveSettings,
            )
            &&& h.contains_key("subscribe_settings"@) && h["subscribe_settings"@]
                == HandlerView::Subscribe("subscribe_settings"@, Method::StartSettings)
            &&& h.contains_key("unsubscribe_settings"@) && h["unsubscribe_settings"@]
                == HandlerView::Unsubscribe("subscribe_settings"@, None)
            &&& h.contains_key(name) ==> name == "get_settings"@ || name == "save_settings"@ || name
                == "subscribe_settings"@ || name == "unsubscribe_settings"@
        }),
{
    reveal_strlit("get_settings");
    reveal_strlit("save_settings");
    reveal_strlit("subscribe_settings");
    reveal_strlit("unsubscribe_settings");
    assert("get_settings"@.len() != "save_settings"@.len());
    assert("get_settings"@.len() != "subscribe_settings"@.len());
    assert("get_settings"@.len() != "unsubscribe_settings"@.len());
    assert("save_settings"@.len() != "subscribe_settings"@.len());
    assert("save_settings"@.len() != "unsubscribe_settings"@.len());
    assert("subscribe_settings"@.len() != "unsubscribe_settings"@.len());
}

/// What stands under a key is the member under it, or `null`.
pub proof fn missing_member_is_null(v: JsonView, key: Seq<char>)
    ensures
        member(v, key) matches Some(x) ==> at(v, key) == x,
        member(v, key) is None ==> at(v, key) == JsonView::Null,
{
}

} // verus!
