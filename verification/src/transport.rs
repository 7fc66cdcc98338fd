//! Playback: zones, outputs and queues.

pub mod volume;

use vstd::prelude::*;
use crate::json::{
    empty_object, items_view, lemma_items_view_push, member, text_items, with_member, Json,
    JsonView,
};
use crate::moo::message::{body_of, request_number, MooMessage};
use crate::moo::{
    asks, is_request, request, subscribe_args, subscribe_name, unsubscribe_name, Moo, Outgoing,
    Session,
};
use crate::text::{same_text, texts};
use crate::transport::volume::{ChangeMode, Mute, Volume};

verus! {

pub const SVCNAME: &'static str = "com.roonlabs.transport:2";

/// What a zone does.
#[derive(Clone, Copy, Debug, PartialEq, Eq, Structural)]
pub enum State {
    Playing,
    Paused,
    Loading,
    Stopped,
}

/// What a zone can be told to do.
#[derive(Clone, Copy, Debug, PartialEq, Eq, Structural)]
pub enum Control {
    Play,
    Pause,
    PlayPause,
    Stop,
    Previous,
    Next,
}

/// What a zone repeats.
#[derive(Clone, Copy, Debug, PartialEq, Eq, Structural)]
pub enum Repeat {
    Off,
    All,
    One,
}

/// Whether a source is selected.
#[derive(Clone, Copy, Debug, PartialEq, Eq, Structural)]
pub enum Status {
    Selected,
    Deselected,
    Standby,
    Indeterminate,
}

/// From where a position counts.
#[derive(Clone, Copy, Debug, PartialEq, Eq, Structural)]
pub enum Seek {
    Absolute,
    Relative,
}

/// Outputs that play together.
#[derive(Clone, Debug)]
pub struct Zone {
    pub zone_id: String,
    pub display_name: String,
    pub outputs: Vec<Output>,
    pub state: State,
    pub is_next_allowed: bool,
    pub is_previous_allowed: bool,
    pub is_pause_allowed: bool,
    pub is_play_allowed: bool,
    pub is_seek_allowed: bool,
    pub queue_items_remaining: i64,
    pub queue_time_remaining: i64,
    pub now_playing: Option<NowPlaying>,
    pub settings: Settings,
}

/// How far a zone has played.
#[derive(Clone, Debug)]
pub struct ZoneSeek {
    pub zone_id: String,
    pub queue_time_remaining: i64,
    pub seek_position: Option<i64>,
}

/// A device that plays.
#[derive(Clone, Debug)]
pub struct Output {
    pub output_id: String,
    pub zone_id: String,
    pub can_group_with_output_ids: Vec<String>,
    pub display_name: String,
    pub volume: Option<Volume>,
    pub source_controls: Vec<SourceControls>,
}

/// A source of an output.
#[derive(Clone, Debug)]
pub struct SourceControls {
    pub control_key: String,
    pub display_name: String,
    pub supports_standby: bool,
    pub status: Status,
}

/// How a zone plays its queue.
#[derive(Clone, Copy, Debug, PartialEq, Eq, Structural)]
pub struct Settings {
    pub repeat: Repeat,
    pub shuffle: bool,
    pub auto_radio: bool,
}

/// What a zone plays.
#[derive(Clone, Debug)]
pub struct NowPlaying {
    pub artist_image_keys: Option<Vec<String>>,
    pub image_key: Option<String>,
    pub length: Option<u32>,
    pub seek_position: Option<i64>,
    pub one_line: OneLine,
    pub two_line: TwoLine,
    pub three_line: ThreeLine,
}

/// What a zone is going to play.
#[derive(Clone, Debug)]
pub struct QueueItem {
    pub image_key: Option<String>,
    pub length: u32,
    pub queue_item_id: u32,
    pub one_line: OneLine,
    pub two_line: TwoLine,
    pub three_line: ThreeLine,
}

/// How a queue changes.
#[derive(Clone, Copy, Debug, PartialEq, Eq, Structural)]
pub enum QueueOperation {
    Insert,
    Remove,
}

/// A change of a queue.
#[derive(Clone, Debug)]
pub struct QueueChange {
    pub operation: QueueOperation,
    pub index: usize,
    pub items: Option<Vec<QueueItem>>,
    pub count: Option<usize>,
}

/// A description in one line.
#[derive(Clone, Debug)]
pub struct OneLine {
    pub line1: String,
}

/// A description in two lines.
#[derive(Clone, Debug)]
pub struct TwoLine {
    pub line1: String,
    pub line2: String,
}

/// A description in three lines.
#[derive(Clone, Debug)]
pub struct ThreeLine {
    pub line1: String,
    pub line2: String,
    pub line3: String,
}

impl Control {
    /// The name by which a core knows the control.
    pub open spec fn text(self) -> Seq<char> {
        match self {
            Control::Play => "play"@,
            Control::Pause => "pause"@,
            Control::PlayPause => "playpause"@,
            Control::Stop => "stop"@,
            Control::Previous => "previous"@,
            Control::Next => "next"@,
        }
    }

    /// The name by which a core knows the control.
    pub fn as_str(&self) -> (r: &'static str)
        ensures
            r@ == self.text(),
    {
        match self {
            Control::Play => "play",
            Control::Pause => "pause",
            Control::PlayPause => "playpause",
            Control::Stop => "stop",
            Control::Previous => "previous",
            Control::Next => "next",
        }
    }
}

impl Repeat {
    /// The name by which a core knows the value.
    pub open spec fn text(self) -> Seq<char> {
        match self {
            Repeat::Off => "disabled"@,
            Repeat::All => "loop"@,
            Repeat::One => "loop_one"@,
        }
    }

    /// The name by which a core knows the value.
    pub fn as_str(&self) -> (r: &'static str)
        ensures
            r@ == self.text(),
    {
        match self {
            Repeat::Off => "disabled",
            Repeat::All => "loop",
            Repeat::One => "loop_one",
        }
    }
}

impl Seek {
    /// The name by which a core knows the value.
    pub open spec fn text(self) -> Seq<char> {
        match self {
            Seek::Absolute => "absolute"@,
            Seek::Relative => "relative"@,
        }
    }

    /// The name by which a core knows the value.
    pub fn as_str(&self) -> (r: &'static str)
        ensures
            r@ == self.text(),
    {
        match self {
            Seek::Absolute => "absolute",
            Seek::Relative => "relative",
        }
    }
}

impl Settings {
    /// The settings as a document.
    pub open spec fn json(self) -> JsonView {
        let v = with_member(empty_object(), "loop"@, JsonView::Text(self.repeat.text()));
        let v = with_member(v, "shuffle"@, JsonView::Bool(self.shuffle));
        with_member(v, "auto_radio"@, JsonView::Bool(self.auto_radio))
    }

    /// The settings as a document.
    pub fn to_json(&self) -> (r: Json)
        ensures
            r@ == self.json(),
    {
        let mut v = Json::object();
        v.set("loop", Json::text(self.repeat.as_str()));
        v.set("shuffle", Json::Bool(self.shuffle));
        v.set("auto_radio", Json::Bool(self.auto_radio));
        v
    }
}

/// The playback service of a core: the connection, the subscriptions with the ids of their
/// requests and their keys, and the requests that are open.
#[derive(Clone, Copy, Debug)]
pub struct Transport {
    pub moo: Option<Moo>,
    pub zone_sub: Option<(usize, usize)>,
    pub output_sub: Option<(usize, usize)>,
    pub queue_sub: Option<(usize, usize)>,
    pub zone_req_id: Option<usize>,
    pub output_req_id: Option<usize>,
}

/// The object with a text under `key`.
pub open spec fn one_text(key: Seq<char>, text: Seq<char>) -> JsonView {
    with_member(empty_object(), key, JsonView::Text(text))
}

/// The object with two members.
pub open spec fn two_members(a: Seq<char>, x: JsonView, b: Seq<char>, y: JsonView) -> JsonView {
    with_member(with_member(empty_object(), a, x), b, y)
}

/// What names an output and, where there is one, its source.
pub open spec fn source_json(output_id: Seq<char>, control_key: Option<&str>) -> JsonView {
    let v = one_text("output_id"@, output_id);
    match control_key {
        Some(key) => with_member(v, "control_key"@, JsonView::Text(key@)),
        None => v,
    }
}

/// What names outputs.
pub open spec fn outputs_json(output_ids: Seq<Seq<char>>) -> JsonView {
    with_member(empty_object(), "output_ids"@, JsonView::Array(text_items(output_ids)))
}

/// What names a queue and says how much of it is wanted.
pub open spec fn queue_json(zone_or_output_id: Seq<char>, max_item_count: u32) -> JsonView {
    two_members(
        "zone_or_output_id"@,
        JsonView::Text(zone_or_output_id),
        "max_item_count"@,
        JsonView::Int(max_item_count as int),
    )
}

fn source_args(output_id: &str, control_key: Option<&str>) -> (r: Json)
    ensures
        r@ == source_json(output_id@, control_key),
{
    let mut body = Json::object();
    body.set("output_id", Json::text(output_id));
    if let Some(control_key) = control_key {
        body.set("control_key", Json::text(control_key));
    }
    body
}

fn outputs_args(output_ids: &Vec<&str>) -> (r: Json)
    ensures
        r@ == outputs_json(texts(output_ids@)),
{
    let mut items: Vec<Json> = Vec::new();
    let ghost all = texts(output_ids@);
    let mut i: usize = 0;
    while i < output_ids.len()
        invariant
            i <= output_ids@.len(),
            all == texts(output_ids@),
            items_view(items@) == text_items(all.take(i as int)),
        decreases output_ids@.len() - i,
    {
        let item = Json::text(output_ids[i]);
        proof {
            lemma_items_view_push(items@, item);
            assert(text_items(all.take(i + 1)) =~= text_items(all.take(i as int)).push(
                JsonView::Text(all[i as int]),
            ));
        }
        items.push(item);
        i += 1;
    }
    assert(all.take(i as int) =~= all);
    let mut body = Json::object();
    body.set("output_ids", Json::Array(items));
    body
}

/// What a part of a message is about.
#[derive(Clone, Copy, Debug, PartialEq, Eq, Structural)]
pub enum SectionKind {
    Zones,
    ZonesSeek,
    ZonesRemoved,
    Outputs,
    OutputsRemoved,
    Queue,
    QueueChanges,
}

/// A part of a message: an array, and what its items are.
#[derive(Debug)]
pub struct Section {
    pub kind: SectionKind,
    pub items: Json,
}

/// What sections hold.
pub open spec fn sections_view(s: Seq<Section>) -> Seq<(SectionKind, JsonView)> {
    Seq::new(s.len(), |i: int| (s[i].kind, s[i].items@))
}

/// The section under `key`, where an array stands there.
pub open spec fn section_at(body: JsonView, key: Seq<char>, kind: SectionKind) -> Seq<
    (SectionKind, JsonView),
> {
    match member(body, key) {
        Some(JsonView::Array(items)) => seq![(kind, JsonView::Array(items))],
        _ => Seq::empty(),
    }
}

/// Whether a subscription, or an open request, is the one that a message answers.
pub open spec fn answers(sub: Option<(usize, usize)>, req_id: usize) -> bool {
    sub matches Some((id, _)) && id == req_id
}

pub open spec fn zone_sections(t: Transport, req_id: usize, name: Seq<char>, body: JsonView) -> Seq<
    (SectionKind, JsonView),
> {
    if !answers(t.zone_sub, req_id) {
        Seq::empty()
    } else if name == "Changed"@ {
        section_at(body, "zones_changed"@, SectionKind::Zones) + section_at(
            body,
            "zones_added"@,
            SectionKind::Zones,
        ) + section_at(body, "zones_seek_changed"@, SectionKind::ZonesSeek) + section_at(
            body,
            "zones_removed"@,
            SectionKind::ZonesRemoved,
        )
    } else if name == "Subscribed"@ {
        section_at(body, "zones"@, SectionKind::Zones)
    } else {
        Seq::empty()
    }
}

pub open spec fn request_sections(
    t: Transport,
    req_id: usize,
    name: Seq<char>,
    body: JsonView,
) -> Seq<(SectionKind, JsonView)> {
    (if t.zone_req_id == Some(req_id) && name == "Success"@ {
        section_at(body, "zones"@, SectionKind::Zones)
    } else {
        Seq::empty()
    }) + (if t.output_req_id == Some(req_id) && name == "Success"@ {
        section_at(body, "outputs"@, SectionKind::Outputs)
    } else {
        Seq::empty()
    })
}

pub open spec fn output_sections(
    t: Transport,
    req_id: usize,
    name: Seq<char>,
    body: JsonView,
) -> Seq<(SectionKind, JsonView)> {
    if !answers(t.output_sub, req_id) {
        Seq::empty()
    } else if name == "Changed"@ {
        section_at(body, "outputs_changed"@, SectionKind::Outputs) + section_at(
            body,
            "outputs_added"@,
            SectionKind::Outputs,
        ) + section_at(body, "outputs_removed"@, SectionKind::OutputsRemoved)
    } else if name == "Subscribed"@ {
        section_at(body, "outputs"@, SectionKind::Outputs)
    } else {
        Seq::empty()
    }
}

pub open spec fn queue_sections(
    t: Transport,
    req_id: usize,
    name: Seq<char>,
    body: JsonView,
) -> Seq<(SectionKind, JsonView)> {
    if !answers(t.queue_sub, req_id) {
        Seq::empty()
    } else if name == "Changed"@ {
        section_at(body, "changes"@, SectionKind::QueueChanges)
    } else if name == "Subscribed"@ {
        section_at(body, "items"@, SectionKind::Queue)
    } else {
        Seq::empty()
    }
}

/// The sections of a message that the service has asked for, in their order.
pub open spec fn sections_of(t: Transport, req_id: usize, name: Seq<char>, body: JsonView) -> Seq<
    (SectionKind, JsonView),
> {
    zone_sections(t, req_id, name, body) + request_sections(t, req_id, name, body)
        + output_sections(t, req_id, name, body) + queue_sections(t, req_id, name, body)
}

/// A message is for the service only where it answers one of its subscriptions or requests.
pub proof fn sections_need_a_request(t: Transport, req_id: usize, name: Seq<char>, body: JsonView)
    requires
        !answers(t.zone_sub, req_id),
        !answers(t.output_sub, req_id),
        !answers(t.queue_sub, req_id),
        t.zone_req_id != Some(req_id),
        t.output_req_id != Some(req_id),
    ensures
        sections_of(t, req_id, name, body) == Seq::<(SectionKind, JsonView)>::empty(),
{
    assert(sections_of(t, req_id, name, body) =~= Seq::<(SectionKind, JsonView)>::empty());
}

/// Appends the section under `key`.
fn add_section(found: &mut Vec<Section>, msg: &MooMessage, key: &str, kind: SectionKind)
    ensures
        sections_view(final(found)@) == sections_view(old(found)@) + section_at(
            body_of(msg@),
            key@,
            kind,
        ),
{
    let ghost before = found@;
    if let Some(items) = msg.body_member(key) {
        if items.is_array() {
            found.push(Section { kind, items: items.clone() });
        }
    }
    assert(sections_view(found@) =~= sections_view(before) + section_at(
        body_of(msg@),
        key@,
        kind,
    ));
}

impl Transport {
    /// The service without a connection.
    pub fn new() -> (r: Self)
        ensures
            r == (Transport {
                moo: None,
                zone_sub: None,
                output_sub: None,
                queue_sub: None,
                zone_req_id: None,
                output_req_id: None,
            }),
    {
        Transport {
            moo: None,
            zone_sub: None,
            output_sub: None,
            queue_sub: None,
            zone_req_id: None,
            output_req_id: None,
        }
    }

    /// Connects the service.
    pub fn set_moo(&mut self, moo: Moo)
        ensures
            *final(self) == (Transport { moo: Some(moo), ..*old(self) }),
    {
        self.moo = Some(moo);
    }

    /// Asks to mute all outputs, or to end that.
    pub fn mute_all(&self, session: &Session, how: &Mute) -> (r: Option<Outgoing>)
        ensures
            asks(
                r,
                self.moo,
                session.req_id,
                SVCNAME@ + "/mute_all"@,
                Some(one_text("how"@, how.text())),
            ),
    {
        let mut body = Json::object();
        body.set("how", Json::text(how.as_str()));
        request(&self.moo, session, SVCNAME, "/mute_all", Some(&body))
    }

    /// Asks to pause all zones.
    pub fn pause_all(&self, session: &Session) -> (r: Option<Outgoing>)
        ensures
            asks(r, self.moo, session.req_id, SVCNAME@ + "/pause_all"@, None),
    {
        request(&self.moo, session, SVCNAME, "/pause_all", None)
    }

    /// Asks to put an output on standby.
    pub fn standby(
        &self,
        session: &Session,
        output_id: &str,
        control_key: Option<&str>,
    ) -> (r: Option<Outgoing>)
        ensures
            asks(
                r,
                self.moo,
                session.req_id,
                SVCNAME@ + "/standby"@,
                Some(source_json(output_id@, control_key)),
            ),
    {
        let body = source_args(output_id, control_key);
        request(&self.moo, session, SVCNAME, "/standby", Some(&body))
    }

    /// Asks to put an output on standby, or to end that.
    pub fn toggle_standby(
        &self,
        session: &Session,
        output_id: &str,
        control_key: Option<&str>,
    ) -> (r: Option<Outgoing>)
        ensures
            asks(
                r,
                self.moo,
                session.req_id,
                SVCNAME@ + "/toggle_standby"@,
                Some(source_json(output_id@, control_key)),
            ),
    {
        let body = source_args(output_id, control_key);
        request(&self.moo, session, SVCNAME, "/toggle_standby", Some(&body))
    }

    /// Asks to switch an output to its source.
    pub fn convenience_switch(
        &self,
        session: &Session,
        output_id: &str,
        control_key: Option<&str>,
    ) -> (r: Option<Outgoing>)
        ensures
            asks(
                r,
                self.moo,
                session.req_id,
                SVCNAME@ + "/convenience_switch"@,
                Some(source_json(output_id@, control_key)),
            ),
    {
        let body = source_args(output_id, control_key);
        request(&self.moo, session, SVCNAME, "/convenience_switch", Some(&body))
    }

    /// Asks to mute an output, or to end that.
    pub fn mute(&self, session: &Session, output_id: &str, how: &Mute) -> (r: Option<Outgoing>)
        ensures
            asks(
                r,
                self.moo,
                session.req_id,
                SVCNAME@ + "/mute"@,
                Some(
                    two_members(
                        "output_id"@,
                        JsonView::Text(output_id@),
                        "how"@,
                        JsonView::Text(how.text()),
                    ),
                ),
            ),
    {
        let mut body = Json::object();
        body.set("output_id", Json::text(output_id));
        body.set("how", Json::text(how.as_str()));
        request(&self.moo, session, SVCNAME, "/mute", Some(&body))
    }

    /// Asks to change the volume of an output.
    pub fn change_volume(
        &self,
        session: &Session,
        output_id: &str,
        how: &ChangeMode,
        value: i32,
    ) -> (r: Option<Outgoing>)
        ensures
            asks(
                r,
                self.moo,
                session.req_id,
                SVCNAME@ + "/change_volume"@,
                Some(
                    with_member(
                        two_members(
                            "output_id"@,
                            JsonView::Text(output_id@),
                            "how"@,
                            JsonView::Text(how.text()),
                        ),
                        "value"@,
                        JsonView::Int(value as int),
                    ),
                ),
            ),
    {
        let mut body = Json::object();
        body.set("output_id", Json::text(output_id));
        body.set("how", Json::text(how.as_str()));
        body.set("value", Json::Int(value as i64));
        request(&self.moo, session, SVCNAME, "/change_volume", Some(&body))
    }

    /// Asks to go to a position.
    pub fn seek(
        &self,
        session: &Session,
        zone_or_output_id: &str,
        how: &Seek,
        seconds: i32,
    ) -> (r: Option<Outgoing>)
        ensures
            asks(
                r,
                self.moo,
                session.req_id,
                SVCNAME@ + "/seek"@,
                Some(
                    with_member(
                        two_members(
                            "zone_or_output_id"@,
                            JsonView::Text(zone_or_output_id@),
                            "how"@,
                            JsonView::Text(how.text()),
                        ),
                        "seconds"@,
                        JsonView::Int(seconds as int),
                    ),
                ),
            ),
    {
        let mut body = Json::object();
        body.set("zone_or_output_id", Json::text(zone_or_output_id));
        body.set("how", Json::text(how.as_str()));
        body.set("seconds", Json::Int(seconds as i64));
        request(&self.moo, session, SVCNAME, "/seek", Some(&body))
    }

    /// Tells a zone what to do.
    pub fn control(
        &self,
        session: &Session,
        zone_or_output_id: &str,
        control: &Control,
    ) -> (r: Option<Outgoing>)
        ensures
            asks(
                r,
                self.moo,
                session.req_id,
                SVCNAME@ + "/control"@,
                Some(
                    two_members(
                        "zone_or_output_id"@,
                        JsonView::Text(zone_or_output_id@),
                        "control"@,
                        JsonView::Text(control.text()),
                    ),
                ),
            ),
    {
        let mut body = Json::object();
        body.set("zone_or_output_id", Json::text(zone_or_output_id));
        body.set("control", Json::text(control.as_str()));
        request(&self.moo, session, SVCNAME, "/control", Some(&body))
    }

    /// Asks to move a queue to another zone.
    pub fn transfer_zone(
        &self,
        session: &Session,
        from_zone_or_output_id: &str,
        to_zone_or_output_id: &str,
    ) -> (r: Option<Outgoing>)
        ensures
            asks(
                r,
                self.moo,
                session.req_id,
                SVCNAME@ + "/transfer_zone"@,
                Some(
                    two_members(
                        "from_zone_or_output_id"@,
                        JsonView::Text(from_zone_or_output_id@),
                        "to_zone_or_output_id"@,
                        JsonView::Text(to_zone_or_output_id@),
                    ),
                ),
            ),
    {
        let mut body = Json::object();
        body.set("from_zone_or_output_id", Json::text(from_zone_or_output_id));
        body.set("to_zone_or_output_id", Json::text(to_zone_or_output_id));
        request(&self.moo, session, SVCNAME, "/transfer_zone", Some(&body))
    }

    /// Asks to let outputs play together.
    pub fn group_outputs(&self, session: &Session, output_ids: &Vec<&str>) -> (r: Option<Outgoing>)
        ensures
            asks(
                r,
                self.moo,
                session.req_id,
                SVCNAME@ + "/group_outputs"@,
                Some(outputs_json(texts(output_ids@))),
            ),
    {
        let body = outputs_args(output_ids);
        request(&self.moo, session, SVCNAME, "/group_outputs", Some(&body))
    }

    /// Asks to let outputs play on their own.
    pub fn ungroup_outputs(
        &self,
        session: &Session,
        output_ids: &Vec<&str>,
    ) -> (r: Option<Outgoing>)
        ensures
            asks(
                r,
                self.moo,
                session.req_id,
                SVCNAME@ + "/ungroup_outputs"@,
                Some(outputs_json(texts(output_ids@))),
            ),
    {
        let body = outputs_args(output_ids);
        request(&self.moo, session, SVCNAME, "/ungroup_outputs", Some(&body))
    }

    /// Asks to change the settings of a zone.
    pub fn change_settings(
        &self,
        session: &Session,
        zone_or_output_id: &str,
        settings: Settings,
    ) -> (r: Option<Outgoing>)
        ensures
            asks(
                r,
                self.moo,
                session.req_id,
                SVCNAME@ + "/change_settings"@,
                Some(
                    with_member(
                        settings.json(),
                        "zone_or_output_id"@,
                        JsonView::Text(zone_or_output_id@),
                    ),
                ),
            ),
    {
        let mut body = settings.to_json();
        body.set("zone_or_output_id", Json::text(zone_or_output_id));
        request(&self.moo, session, SVCNAME, "/change_settings", Some(&body))
    }

    /// Asks to play a queue from one of its items on.
    pub fn play_from_here(
        &self,
        session: &Session,
        zone_or_output_id: &str,
        queue_item_id: u32,
    ) -> (r: Option<Outgoing>)
        ensures
            asks(
                r,
                self.moo,
                session.req_id,
                SVCNAME@ + "/play_from_here"@,
                Some(
                    two_members(
                        "zone_or_output_id"@,
                        JsonView::Text(zone_or_output_id@),
                        "queue_item_id"@,
                        JsonView::Int(queue_item_id as int),
                    ),
                ),
            ),
    {
        let mut body = Json::object();
        body.set("zone_or_output_id", Json::text(zone_or_output_id));
        body.set("queue_item_id", Json::Uint(queue_item_id as u64));
        request(&self.moo, session, SVCNAME, "/play_from_here", Some(&body))
    }

    /// Asks for the zones.
    pub fn get_zones(&self, session: &Session) -> (r: Option<Outgoing>)
        ensures
            asks(r, self.moo, session.req_id, SVCNAME@ + "/get_zones"@, None),
    {
        request(&self.moo, session, SVCNAME, "/get_zones", None)
    }

    /// Notes the request for the zones: the one that was sent, or none.
    pub fn get_zones_sent(&mut self, sent: Option<usize>)
        ensures
            *final(self) == if old(self).moo is Some {
                Transport { zone_req_id: sent, ..*old(self) }
            } else {
                *old(self)
            },
    {
        if self.moo.is_some() {
            self.zone_req_id = sent;
        }
    }

    /// Asks for the outputs.
    pub fn get_outputs(&self, session: &Session) -> (r: Option<Outgoing>)
        ensures
            asks(r, self.moo, session.req_id, SVCNAME@ + "/get_outputs"@, None),
    {
        request(&self.moo, session, SVCNAME, "/get_outputs", None)
    }

    /// Notes the request for the outputs: the one that was sent, or none.
    pub fn get_outputs_sent(&mut self, sent: Option<usize>)
        ensures
            *final(self) == if old(self).moo is Some {
                Transport { output_req_id: sent, ..*old(self) }
            } else {
                *old(self)
            },
    {
        if self.moo.is_some() {
            self.output_req_id = sent;
        }
    }

    /// Asks to be told of the zones: the message, and the key of the subscription.
    pub fn subscribe_zones(&self, session: &Session) -> (r: Option<(Outgoing, usize)>)
        requires
            self.moo matches Some(moo) ==> moo.sub_key < usize::MAX,
        ensures
            match self.moo {
                Some(moo) => {
                    &&& r matches Some((out, sub_key))
                    &&& sub_key == moo.sub_key + 1
                    &&& is_request(
                        out,
                        moo.log_level,
                        session.req_id,
                        subscribe_name(SVCNAME@, "zones"@),
                        Some(subscribe_args(None, moo.sub_key + 1)),
                    )
                },
                None => r is None,
            },
    {
        match &self.moo {
            Some(moo) => {
                Some(moo.send_sub_req(session, SVCNAME, "zones", None))
            },
            None => None,
        }
    }

    /// Notes the subscription to the zones: the one that was sent, with its key, or none.
    pub fn subscribe_zones_sent(&mut self, sent: Option<(usize, usize)>)
        ensures
            *final(self) == if old(self).moo is Some {
                Transport { zone_sub: sent, ..*old(self) }
            } else {
                *old(self)
            },
    {
        if self.moo.is_some() {
            self.zone_sub = sent;
        }
    }

    /// Ends the subscription to the zones, where there is one.
    pub fn unsubscribe_zones(&mut self, session: &Session) -> (r: Option<Outgoing>)
        ensures
            match (old(self).moo, old(self).zone_sub) {
                (Some(moo), Some((_, sub_key))) => {
                    &&& r matches Some(out)
                    &&& is_request(
                        out,
                        moo.log_level,
                        session.req_id,
                        unsubscribe_name(SVCNAME@, "zones"@),
                        Some(subscribe_args(None, sub_key as int)),
                    )
                    &&& *final(self) == (Transport { zone_sub: None, ..*old(self) })
                },
                _ => r is None && *final(self) == *old(self),
            },
    {
        if let Some(moo) = self.moo {
            if let Some((_, sub_key)) = self.zone_sub {
                self.zone_sub = None;
                return Some(moo.send_unsub_req(session, SVCNAME, "zones", sub_key));
            }
        }
        None
    }

    /// Asks to be told of the outputs: the message, and the key of the subscription.
    pub fn subscribe_outputs(&self, session: &Session) -> (r: Option<(Outgoing, usize)>)
        requires
            self.moo matches Some(moo) ==> moo.sub_key < usize::MAX,
        ensures
            match self.moo {
                Some(moo) => {
                    &&& r matches Some((out, sub_key))
                    &&& sub_key == moo.sub_key + 1
                    &&& is_request(
                        out,
                        moo.log_level,
                        session.req_id,
                        subscribe_name(SVCNAME@, "outputs"@),
                        Some(subscribe_args(None, moo.sub_key + 1)),
                    )
                },
                None => r is None,
            },
    {
        match &self.moo {
            Some(moo) => {
                Some(moo.send_sub_req(session, SVCNAME, "outputs", None))
            },
            None => None,
        }
    }

    /// Notes the subscription to the outputs: the one that was sent, with its key, or none.
    pub fn subscribe_outputs_sent(&mut self, sent: Option<(usize, usize)>)
        ensures
            *final(self) == if old(self).moo is Some {
                Transport { output_sub: sent, ..*old(self) }
            } else {
                *old(self)
            },
    {
        if self.moo.is_some() {
            self.output_sub = sent;
        }
    }

    /// Ends the subscription to the outputs, where there is one.
    pub fn unsubscribe_outputs(&mut self, session: &Session) -> (r: Option<Outgoing>)
        ensures
            match (old(self).moo, old(self).output_sub) {
                (Some(moo), Some((_, sub_key))) => {
                    &&& r matches Some(out)
                    &&& is_request(
                        out,
                        moo.log_level,
                        session.req_id,
                        unsubscribe_name(SVCNAME@, "outputs"@),
                        Some(subscribe_args(None, sub_key as int)),
                    )
                    &&& *final(self) == (Transport { output_sub: None, ..*old(self) })
                },
                _ => r is None && *final(self) == *old(self),
            },
    {
        if let Some(moo) = self.moo {
            if let Some((_, sub_key)) = self.output_sub {
                self.output_sub = None;
                return Some(moo.send_unsub_req(session, SVCNAME, "outputs", sub_key));
            }
        }
        None
    }

    /// Asks to be told of the queue: the message, and the key of the subscription.
    pub fn subscribe_queue(
        &self,
        session: &Session,
        zone_or_output_id: &str,
        max_item_count: u32,
    ) -> (r: Option<(Outgoing, usize)>)
        requires
            self.moo matches Some(moo) ==> moo.sub_key < usize::MAX,
        ensures
            match self.moo {
                Some(moo) => {
                    &&& r matches Some((out, sub_key))
                    &&& sub_key == moo.sub_key + 1
                    &&& is_request(
                        out,
                        moo.log_level,
                        session.req_id,
                        subscribe_name(SVCNAME@, "queue"@),
                        Some(
                            subscribe_args(
                                Some(queue_json(zone_or_output_id@, max_item_count)),
                                moo.sub_key + 1,
                            ),
                        ),
                    )
                },
                None => r is None,
            },
    {
        match &self.moo {
            Some(moo) => {
                let mut args = Json::object();
                args.set("zone_or_output_id", Json::text(zone_or_output_id));
                args.set("max_item_count", Json::Uint(max_item_count as u64));
                Some(moo.send_sub_req(session, SVCNAME, "queue", Some(args)))
            },
            None => None,
        }
    }

    /// Notes the subscription to the queue: the one that was sent, with its key, or none.
    pub fn subscribe_queue_sent(&mut self, sent: Option<(usize, usize)>)
        ensures
            *final(self) == if old(self).moo is Some {
                Transport { queue_sub: sent, ..*old(self) }
            } else {
                *old(self)
            },
    {
        if self.moo.is_some() {
            self.queue_sub = sent;
        }
    }

    /// Ends the subscription to the queue, where there is one.
    pub fn unsubscribe_queue(&mut self, session: &Session) -> (r: Option<Outgoing>)
        ensures
            match (old(self).moo, old(self).queue_sub) {
                (Some(moo), Some((_, sub_key))) => {
                    &&& r matches Some(out)
                    &&& is_request(
                        out,
                        moo.log_level,
                        session.req_id,
                        unsubscribe_name(SVCNAME@, "queue"@),
                        Some(subscribe_args(None, sub_key as int)),
                    )
                    &&& *final(self) == (Transport { queue_sub: None, ..*old(self) })
                },
                _ => r is None && *final(self) == *old(self),
            },
    {
        if let Some(moo) = self.moo {
            if let Some((_, sub_key)) = self.queue_sub {
                self.queue_sub = None;
                return Some(moo.send_unsub_req(session, SVCNAME, "queue", sub_key));
            }
        }
        None
    }

    /// Finds the sections of a message that the service has asked for.
    pub fn parse_msg(&self, msg: &MooMessage) -> (r: Vec<Section>)
        requires
            request_number(msg@) is Some,
        ensures
            sections_view(r@) == sections_of(
                *self,
                request_number(msg@)->Some_0,
                msg@.name,
                body_of(msg@),
            ),
    {
        let mut found: Vec<Section> = Vec::new();
        let req_id = match msg.request_number() {
            Some(n) => n,
            None => {
                return found;
            },
        };
        let name = msg.name.as_str();
        let ghost body = body_of(msg@);
        assert(sections_view(found@) =~= Seq::<(SectionKind, JsonView)>::empty());
        if let Some((id, _)) = self.zone_sub {
            if id == req_id {
                if same_text(name, "Changed") {
                    add_section(&mut found, msg, "zones_changed", SectionKind::Zones);
                    add_section(&mut found, msg, "zones_added", SectionKind::Zones);
                    add_section(&mut found, msg, "zones_seek_changed", SectionKind::ZonesSeek);
                    add_section(&mut found, msg, "zones_removed", SectionKind::ZonesRemoved);
                } else if same_text(name, "Subscribed") {
                    add_section(&mut found, msg, "zones", SectionKind::Zones);
                }
            }
        }
        assert(sections_view(found@) =~= zone_sections(*self, req_id, msg@.name, body));
        if let Some(id) = self.zone_req_id {
            if id == req_id && same_text(name, "Success") {
                add_section(&mut found, msg, "zones", SectionKind::Zones);
            }
        }
        if let Some(id) = self.output_req_id {
            if id == req_id && same_text(name, "Success") {
                add_section(&mut found, msg, "outputs", SectionKind::Outputs);
            }
        }
        assert(sections_view(found@) =~= zone_sections(*self, req_id, msg@.name, body)
            + request_sections(*self, req_id, msg@.name, body));
        let ghost before = sections_view(found@);
        if let Some((id, _)) = self.output_sub {
            if id == req_id {
                if same_text(name, "Changed") {
                    add_section(&mut found, msg, "outputs_changed", SectionKind::Outputs);
                    add_section(&mut found, msg, "outputs_added", SectionKind::Outputs);
                    add_section(&mut found, msg, "outputs_removed", SectionKind::OutputsRemoved);
                } else if same_text(name, "Subscribed") {
                    add_section(&mut found, msg, "outputs", SectionKind::Outputs);
                }
            }
        }
        assert(sections_view(found@) =~= before + output_sections(
            *self,
            req_id,
            msg@.name,
            body,
        ));
        let ghost before = sections_view(found@);
        if let Some((id, _)) = self.queue_sub {
            if id == req_id {
                if same_text(name, "Changed") {
                    add_section(&mut found, msg, "changes", SectionKind::QueueChanges);
                } else if same_text(name, "Subscribed") {
                    add_section(&mut found, msg, "items", SectionKind::Queue);
                }
            }
        }
        assert(sections_view(found@) =~= before + queue_sections(*self, req_id, msg@.name, body));
        found
    }
}

/// Each control has the name by which a core knows it, and no two have the same.
pub proof fn names_of_controls(control: Control)
    ensures
        control.text() == "play"@ <==> control == Control::Play,
        control.text() == "pause"@ <==> control == Control::Pause,
        control.text() == "playpause"@ <==> control == Control::PlayPause,
        control.text() == "stop"@ <==> control == Control::Stop,
        control.text() == "previous"@ <==> control == Control::Previous,
        control.text() == "next"@ <==> control == Control::Next,
{
    reveal_strlit("play");
    reveal_strlit("pause");
    reveal_strlit("playpause");
    reveal_strlit("stop");
    reveal_strlit("previous");
    reveal_strlit("next");
    assert("play"@.len() != "pause"@.len());
    assert("play"@.len() != "playpause"@.len());
    assert("play"@[0] != "stop"@[0]);
    assert("play"@.len() != "previous"@.len());
    assert("play"@[0] != "next"@[0]);
    assert("pause"@.len() != "playpause"@.len());
    assert("pause"@.len() != "stop"@.len());
    assert("pause"@.len() != "previous"@.len());
    assert("pause"@.len() != "next"@.len());
    assert("playpause"@.len() != "stop"@.len());
    assert("playpause"@.len() != "previous"@.len());
    assert("playpause"@.len() != "next"@.len());
    assert("stop"@.len() != "previous"@.len());
    assert("stop"@[0] != "next"@[0]);
    assert("previous"@.len() != "next"@.len());
}

/// Each way to repeat has the name by which a core knows it, and no two have the same.
pub proof fn names_of_repeats(repeat: Repeat)
    ensures
        repeat.text() == "disabled"@ <==> repeat == Repeat::Off,
        repeat.text() == "loop"@ <==> repeat == Repeat::All,
        repeat.text() == "loop_one"@ <==> repeat == Repeat::One,
{
    reveal_strlit("disabled");
    reveal_strlit("loop");
    reveal_strlit("loop_one");
    assert("disabled"@.len() != "loop"@.len());
    assert("disabled"@[0] != "loop_one"@[0]);
    assert("loop"@.len() != "loop_one"@.len());
}

/// Each way to count a position has the name by which a core knows it, and no two have the same.
pub proof fn names_of_seeks(seek: Seek)
    ensures
        seek.text() == "absolute"@ <==> seek == Seek::Absolute,
        seek.text() == "relative"@ <==> seek == Seek::Relative,
{
    reveal_strlit("absolute");
    reveal_strlit("relative");
    assert("absolute"@[0] != "relative"@[0]);
}

/// The settings of a zone are told with each of their parts under the name of that part.
pub proof fn zone_settings_are_told_as_they_are(settings: Settings, id: Seq<char>, json: JsonView)
    requires
        json == settings.json() || json == with_member(
            settings.json(),
            "zone_or_output_id"@,
            JsonView::Text(id),
        ),
    ensures
        member(json, "loop"@) == Some(JsonView::Text(settings.repeat.text())),
        member(json, "shuffle"@) == Some(JsonView::Bool(settings.shuffle)),
        member(json, "auto_radio"@) == Some(JsonView::Bool(settings.auto_radio)),
        member(
            with_member(settings.json(), "zone_or_output_id"@, JsonView::Text(id)),
            "zone_or_output_id"@,
        ) == Some(JsonView::Text(id)),
{
    reveal_strlit("loop");
    reveal_strlit("shuffle");
    reveal_strlit("auto_radio");
    reveal_strlit("zone_or_output_id");
    assert("loop"@.len() != "shuffle"@.len());
    assert("loop"@.len() != "auto_radio"@.len());
    assert("loop"@.len() != "zone_or_output_id"@.len());
    assert("shuffle"@.len() != "auto_radio"@.len());
    assert("shuffle"@.len() != "zone_or_output_id"@.len());
    assert("auto_radio"@.len() != "zone_or_output_id"@.len());
}

/// What is asked of a core is said under the names of its parts: two of them are not mixed up, an
/// output is named with its source, where one is given, outputs in their order, and a queue with
/// how much of it is wanted.
pub proof fn requests_name_their_parts(
    a: Seq<char>,
    x: JsonView,
    b: Seq<char>,
    y: JsonView,
    id: Seq<char>,
    control_key: Option<&str>,
    ids: Seq<Seq<char>>,
    count: u32,
    i: int,
)
    requires
        a != b,
        0 <= i < ids.len(),
    ensures
        member(two_members(a, x, b, y), a) == Some(x),
        member(two_members(a, x, b, y), b) == Some(y),
        member(one_text(a, id), a) == Some(JsonView::Text(id)),
        member(source_json(id, control_key), "output_id"@) == Some(JsonView::Text(id)),
        match control_key {
            Some(key) => member(source_json(id, control_key), "control_key"@) == Some(
                JsonView::Text(key@),
            ),
            None => member(source_json(id, control_key), "control_key"@) is None,
        },
        member(outputs_json(ids), "output_ids"@) matches Some(JsonView::Array(items)) && items.len()
            == ids.len() && items[i] == JsonView::Text(ids[i]),
        member(queue_json(id, count), "zone_or_output_id"@) == Some(JsonView::Text(id)),
        member(queue_json(id, count), "max_item_count"@) == Some(JsonView::Int(count as int)),
{
    reveal_strlit("output_id");
    reveal_strlit("control_key");
    reveal_strlit("output_ids");
    reveal_strlit("zone_or_output_id");
    reveal_strlit("max_item_count");
    assert("output_id"@.len() != "control_key"@.len());
    assert("output_id"@.len() != "output_ids"@.len());
    assert("output_id"@.len() != "zone_or_output_id"@.len());
    assert("output_id"@.len() != "max_item_count"@.len());
    assert("control_key"@.len() != "output_ids"@.len());
    assert("control_key"@.len() != "zone_or_output_id"@.len());
    assert("control_key"@.len() != "max_item_count"@.len());
    assert("output_ids"@.len() != "zone_or_output_id"@.len());
    assert("output_ids"@.len() != "max_item_count"@.len());
    assert("zone_or_output_id"@.len() != "max_item_count"@.len());
}

/// Whether an answer to the request `req_id` is about a subscription.
pub open spec fn is_about(sub: Option<(usize, usize)>, req_id: usize) -> bool {
    sub is Some && sub->Some_0.0 == req_id
}

/// Each array that a message holds under one of the names for what has changed in the zones is
/// told, whatever else it holds, as long as the message answers the subscription to the zones. So
/// it is with the outputs and with the queue, and with what is told first.
pub proof fn each_section_is_told(
    t: Transport,
    req_id: usize,
    name: Seq<char>,
    body: JsonView,
    key: Seq<char>,
    items: Seq<JsonView>,
)
    requires
        member(body, key) == Some(JsonView::Array(items)),
    ensures
        ({
            let told = sections_of(t, req_id, name, body);
            let array = JsonView::Array(items);
            &&& is_about(t.zone_sub, req_id) && name == "Changed"@ ==> {
                &&& key == "zones_changed"@ ==> told.contains((SectionKind::Zones, array))
                &&& key == "zones_added"@ ==> told.contains((SectionKind::Zones, array))
                &&& key == "zones_seek_changed"@ ==> told.contains((SectionKind::ZonesSeek, array))
                &&& key == "zones_removed"@ ==> told.contains((SectionKind::ZonesRemoved, array))
            }
            &&& is_about(t.zone_sub, req_id) && name == "Subscribed"@ && key == "zones"@
                ==> told.contains((SectionKind::Zones, array))
            &&& t.zone_req_id == Some(req_id) && name == "Success"@ && key == "zones"@
                ==> told.contains((SectionKind::Zones, array))
            &&& t.output_req_id == Some(req_id) && name == "Success"@ && key == "outputs"@
                ==> told.contains((SectionKind::Outputs, array))
            &&& is_about(t.output_sub, req_id) && name == "Changed"@ ==> {
                &&& key == "outputs_changed"@ ==> told.contains((SectionKind::Outputs, array))
                &&& key == "outputs_added"@ ==> told.contains((SectionKind::Outputs, array))
                &&& key == "outputs_removed"@ ==> told.contains(
                    (SectionKind::OutputsRemoved, array),
                )
            }
            &&& is_about(t.output_sub, req_id) && name == "Subscribed"@ && key == "outputs"@
                ==> told.contains((SectionKind::Outputs, array))
            &&& is_about(t.queue_sub, req_id) && name == "Changed"@ && key == "changes"@
                ==> told.contains((SectionKind::QueueChanges, array))
            &&& is_about(t.queue_sub, req_id) && name == "Subscribed"@ && key == "items"@
                ==> told.contains((SectionKind::Queue, array))
        }),
{
    reveal_strlit("Changed");
    reveal_strlit("Subscribed");
    reveal_strlit("Success");
    assert("Changed"@.len() != "Subscribed"@.len());
    assert("Changed"@[0] != "Success"@[0]);
    assert("Subscribed"@.len() != "Success"@.len());
    let told = sections_of(t, req_id, name, body);
    let z = zone_sections(t, req_id, name, body);
    let q = request_sections(t, req_id, name, body);
    let o = output_sections(t, req_id, name, body);
    let u = queue_sections(t, req_id, name, body);
    assert(told =~= z + q + o + u);
    assert forall|s: (SectionKind, JsonView)|
        z.contains(s) || q.contains(s) || o.contains(s) || u.contains(s) implies #[trigger]
        told.contains(s) by {
        lemma_in_one_of(z, q, o, u, s);
    }
    let array = JsonView::Array(items);
    if is_about(t.zone_sub, req_id) && name == "Changed"@ {
        let a = section_at(body, "zones_changed"@, SectionKind::Zones);
        let b = section_at(body, "zones_added"@, SectionKind::Zones);
        let c = section_at(body, "zones_seek_changed"@, SectionKind::ZonesSeek);
        let d = section_at(body, "zones_removed"@, SectionKind::ZonesRemoved);
        assert(z =~= a + b + c + d);
        if key == "zones_changed"@ {
            assert(a[0] == (SectionKind::Zones, array));
            lemma_in_one_of(a, b, c, d, (SectionKind::Zones, array));
        }
        if key == "zones_added"@ {
            assert(b[0] == (SectionKind::Zones, array));
            lemma_in_one_of(a, b, c, d, (SectionKind::Zones, array));
        }
        if key == "zones_seek_changed"@ {
            assert(c[0] == (SectionKind::ZonesSeek, array));
            lemma_in_one_of(a, b, c, d, (SectionKind::ZonesSeek, array));
        }
        if key == "zones_removed"@ {
            assert(d[0] == (SectionKind::ZonesRemoved, array));
            lemma_in_one_of(a, b, c, d, (SectionKind::ZonesRemoved, array));
        }
    }
    if is_about(t.zone_sub, req_id) && name == "Subscribed"@ && key == "zones"@ {
        assert(z[0] == (SectionKind::Zones, array));
    }
    if name == "Success"@ {
        if t.zone_req_id == Some(req_id) && key == "zones"@ {
            assert(q[0] == (SectionKind::Zones, array));
        }
        if t.output_req_id == Some(req_id) && key == "outputs"@ {
            assert(q[q.len() - 1] == (SectionKind::Outputs, array));
        }
    }
    if is_about(t.output_sub, req_id) && name == "Changed"@ {
        let a = section_at(body, "outputs_changed"@, SectionKind::Outputs);
        let b = section_at(body, "outputs_added"@, SectionKind::Outputs);
        let c = section_at(body, "outputs_removed"@, SectionKind::OutputsRemoved);
        let d = Seq::<(SectionKind, JsonView)>::empty();
        assert(o =~= a + b + c + d);
        if key == "outputs_changed"@ {
            assert(a[0] == (SectionKind::Outputs, array));
            lemma_in_one_of(a, b, c, d, (SectionKind::Outputs, array));
        }
        if key == "outputs_added"@ {
            assert(b[0] == (SectionKind::Outputs, array));
            lemma_in_one_of(a, b, c, d, (SectionKind::Outputs, array));
        }
        if key == "outputs_removed"@ {
            assert(c[0] == (SectionKind::OutputsRemoved, array));
            lemma_in_one_of(a, b, c, d, (SectionKind::OutputsRemoved, array));
        }
    }
    if is_about(t.output_sub, req_id) && name == "Subscribed"@ && key == "outputs"@ {
        assert(o[0] == (SectionKind::Outputs, array));
    }
    if is_about(t.queue_sub, req_id) && (name == "Changed"@ && key == "changes"@ || name
        == "Subscribed"@ && key == "items"@) {
        assert(u[0].1 == array);
    }
}

proof fn lemma_in_one_of(
    a: Seq<(SectionKind, JsonView)>,
    b: Seq<(SectionKind, JsonView)>,
    c: Seq<(SectionKind, JsonView)>,
    d: Seq<(SectionKind, JsonView)>,
    s: (SectionKind, JsonView),
)
    ensures
        (a + b + c + d).contains(s) <==> a.contains(s) || b.contains(s) || c.contains(s)
            || d.contains(s),
{
    let all = a + b + c + d;
    if a.contains(s) {
        let i = choose|i: int| 0 <= i < a.len() && a[i] == s;
        assert(all[i] == s);
    }
    if b.contains(s) {
        let i = choose|i: int| 0 <= i < b.len() && b[i] == s;
        assert(all[a.len() + i] == s);
    }
    if c.contains(s) {
        let i = choose|i: int| 0 <= i < c.len() && c[i] == s;
        assert(all[a.len() + b.len() + i] == s);
    }
    if d.contains(s) {
        let i = choose|i: int| 0 <= i < d.len() && d[i] == s;
        assert(all[a.len() + b.len() + c.len() + i] == s);
    }
    if all.contains(s) {
        let i = choose|i: int| 0 <= i < all.len() && all[i] == s;
        if i < a.len() {
            assert(a[i] == s);
        } else if i < a.len() + b.len() {
            assert(b[i - a.len()] == s);
        } else if i < a.len() + b.len() + c.len() {
            assert(c[i - a.len() - b.len()] == s);
        } else {
            assert(d[i - a.len() - b.len() - c.len()] == s);
        }
    }
}

/// Whether a section is an array that a message holds under a key.
pub open spec fn stands_under(section: (SectionKind, JsonView), body: JsonView, key: Seq<char>) -> bool {
    section.1 is Array && member(body, key) == Some(section.1)
}

/// Nothing is told of the zones but what a message holds of them, and only where it answers what
/// was asked about them. So it is with the outputs and with the queue.
pub proof fn only_asked_sections_are_told(
    t: Transport,
    req_id: usize,
    name: Seq<char>,
    body: JsonView,
    i: int,
)
    requires
        0 <= i < sections_of(t, req_id, name, body).len(),
    ensures
        ({
            let s = sections_of(t, req_id, name, body)[i];
            match s.0 {
                SectionKind::Zones => {
                    ||| is_about(t.zone_sub, req_id) && name == "Changed"@ && (stands_under(
                        s,
                        body,
                        "zones_changed"@,
                    ) || stands_under(s, body, "zones_added"@))
                    ||| is_about(t.zone_sub, req_id) && name == "Subscribed"@ && stands_under(
                        s,
                        body,
                        "zones"@,
                    )
                    ||| t.zone_req_id == Some(req_id) && name == "Success"@ && stands_under(
                        s,
                        body,
                        "zones"@,
                    )
                },
                SectionKind::ZonesSeek => is_about(t.zone_sub, req_id) && name == "Changed"@
                    && stands_under(s, body, "zones_seek_changed"@),
                SectionKind::ZonesRemoved => is_about(t.zone_sub, req_id) && name == "Changed"@
                    && stands_under(s, body, "zones_removed"@),
                SectionKind::Outputs => {
                    ||| is_about(t.output_sub, req_id) && name == "Changed"@ && (stands_under(
                        s,
                        body,
                        "outputs_changed"@,
                    ) || stands_under(s, body, "outputs_added"@))
                    ||| is_about(t.output_sub, req_id) && name == "Subscribed"@ && stands_under(
                        s,
                        body,
                        "outputs"@,
                    )
                    ||| t.output_req_id == Some(req_id) && name == "Success"@ && stands_under(
                        s,
                        body,
                        "outputs"@,
                    )
                },
                SectionKind::OutputsRemoved => is_about(t.output_sub, req_id) && name
                    == "Changed"@ && stands_under(s, body, "outputs_removed"@),
                SectionKind::QueueChanges => is_about(t.queue_sub, req_id) && name == "Changed"@
                    && stands_under(s, body, "changes"@),
                SectionKind::Queue => is_about(t.queue_sub, req_id) && name == "Subscribed"@
                    && stands_under(s, body, "items"@),
            }
        }),
{
    reveal_strlit("Changed");
    reveal_strlit("Subscribed");
    reveal_strlit("Success");
    assert("Changed"@.len() != "Subscribed"@.len());
    assert("Changed"@[0] != "Success"@[0]);
    assert("Subscribed"@.len() != "Success"@.len());
    let z = zone_sections(t, req_id, name, body);
    let q = request_sections(t, req_id, name, body);
    let o = output_sections(t, req_id, name, body);
    let u = queue_sections(t, req_id, name, body);
    let s = sections_of(t, req_id, name, body)[i];
    if i < z.len() {
        assert(s == z[i]);
    } else if i < z.len() + q.len() {
        assert(s == q[i - z.len()]);
    } else if i < z.len() + q.len() + o.len() {
        assert(s == o[i - z.len() - q.len()]);
    } else {
        assert(s == u[i - z.len() - q.len() - o.len()]);
    }
}

/// One where a message holds an array under a key.
pub open spec fn array_count(body: JsonView, key: Seq<char>) -> int {
    if member(body, key) matches Some(JsonView::Array(_)) {
        1
    } else {
        0
    }
}

/// Nothing is told twice, and what has changed comes in the order changed, added, moved on,
/// removed: here of the zones, where the message answers nothing else that was asked.
pub proof fn zones_are_told_in_order(t: Transport, req_id: usize, body: JsonView)
    requires
        is_about(t.zone_sub, req_id),
        !is_about(t.output_sub, req_id),
        !is_about(t.queue_sub, req_id),
    ensures
        ({
            let told = sections_of(t, req_id, "Changed"@, body);
            let a = array_count(body, "zones_changed"@);
            let b = array_count(body, "zones_added"@);
            let c = array_count(body, "zones_seek_changed"@);
            let d = array_count(body, "zones_removed"@);
            &&& told.len() == a + b + c + d
            &&& a == 1 ==> stands_under(told[0], body, "zones_changed"@)
            &&& b == 1 ==> stands_under(told[a], body, "zones_added"@)
            &&& c == 1 ==> stands_under(told[a + b], body, "zones_seek_changed"@)
            &&& d == 1 ==> stands_under(told[a + b + c], body, "zones_removed"@)
        }),
{
    reveal_strlit("Changed");
    reveal_strlit("Subscribed");
    reveal_strlit("Success");
    assert("Changed"@.len() != "Subscribed"@.len());
    assert("Changed"@[0] != "Success"@[0]);
    assert("Subscribed"@.len() != "Success"@.len());
}

/// So it is with the outputs.
pub proof fn outputs_are_told_in_order(t: Transport, req_id: usize, body: JsonView)
    requires
        !is_about(t.zone_sub, req_id),
        is_about(t.output_sub, req_id),
        !is_about(t.queue_sub, req_id),
    ensures
        ({
            let told = sections_of(t, req_id, "Changed"@, body);
            let a = array_count(body, "outputs_changed"@);
            let b = array_count(body, "outputs_added"@);
            let c = array_count(body, "outputs_removed"@);
            &&& told.len() == a + b + c
            &&& a == 1 ==> stands_under(told[0], body, "outputs_changed"@)
            &&& b == 1 ==> stands_under(told[a], body, "outputs_added"@)
            &&& c == 1 ==> stands_under(told[a + b], body, "outputs_removed"@)
        }),
{
    reveal_strlit("Changed");
    reveal_strlit("Subscribed");
    reveal_strlit("Success");
    assert("Changed"@.len() != "Subscribed"@.len());
    assert("Changed"@[0] != "Success"@[0]);
    assert("Subscribed"@.len() != "Success"@.len());
}

/// What is told first of the zones, of the outputs or of the queue, and what is told in answer to
/// a request, is told once.
pub proof fn first_answers_are_told_once(t: Transport, req_id: usize, body: JsonView)
    ensures
        ({
            let told = sections_of(t, req_id, "Subscribed"@, body);
            let z = if is_about(t.zone_sub, req_id) {
                array_count(body, "zones"@)
            } else {
                0
            };
            let o = if is_about(t.output_sub, req_id) {
                array_count(body, "outputs"@)
            } else {
                0
            };
            let u = if is_about(t.queue_sub, req_id) {
                array_count(body, "items"@)
            } else {
                0
            };
            told.len() == z + o + u
        }),
        ({
            let told = sections_of(t, req_id, "Success"@, body);
            let z = if t.zone_req_id == Some(req_id) {
                array_count(body, "zones"@)
            } else {
                0
            };
            let o = if t.output_req_id == Some(req_id) {
                array_count(body, "outputs"@)
            } else {
                0
            };
            told.len() == z + o
        }),
{
    reveal_strlit("Changed");
    reveal_strlit("Subscribed");
    reveal_strlit("Success");
    assert("Changed"@.len() != "Subscribed"@.len());
    assert("Changed"@[0] != "Success"@[0]);
    assert("Subscribed"@.len() != "Success"@.len());
}

} // verus!
