//! Connections with a core, and the messages that go over them.

pub mod content;
pub mod frame;
pub mod message;

use vstd::prelude::*;
use vstd::utf8::encode_utf8;
use crate::json::{empty_object, member, opt_json, takes_members, with_member, Json, JsonView};
use crate::json_text::{compact_text, read_depth, storable};
use crate::moo::frame::{
    body_lines, frame, frame_reads_back, head_reads_back, readable, sent_head, sent_line,
    sent_message, write_frame,
};
use crate::moo::message::{
    body_of, lemma_request_has_service, read_head, read_message, request_number, request_target,
    text_is_parted, MessageView, MooMessage, Unreadable,
};
use crate::text::{
    decimal, is_digit, lemma_decimal_digits, lemma_split_at, lemma_split_last, same_text, split,
    to_decimal,
};

verus! {

/// Which messages are logged.
#[derive(Clone, Copy, Debug, PartialEq, Eq, Structural)]
pub enum LogLevel {
    Nothing,
    Default,
    All,
}

/// What came with a message.
#[derive(Clone, Debug)]
pub enum ContentType {
    Nothing,
    Json,
    Jpeg(Vec<u8>),
    Png(Vec<u8>),
}

/// What the users of a connection share: the id of the next request, and the requests of the
/// core that are not logged.
#[derive(Debug)]
pub struct Session {
    pub req_id: usize,
    pub quiet_reqs: Vec<usize>,
}

/// A user of a connection.
#[derive(Clone, Copy, Debug, PartialEq, Eq, Structural)]
pub struct Moo {
    pub id: usize,
    pub sub_key: usize,
    pub log_level: LogLevel,
}

/// The sending half of a connection.
#[derive(Clone, Copy, Debug, PartialEq, Eq, Structural)]
pub struct MooSender {
    pub id: usize,
    pub log_level: LogLevel,
}

/// The receiving half of a connection.
#[derive(Clone, Copy, Debug, PartialEq, Eq, Structural)]
pub struct MooReceiver {
    pub id: usize,
    pub log_level: LogLevel,
}

/// A message to send: the id of its request, its text, and the line to log once it is sent.
#[derive(Debug)]
pub struct Outgoing {
    pub req_id: usize,
    pub msg: String,
    pub log: Option<String>,
}

/// Why there is no message.
#[derive(Clone, Copy, Debug, PartialEq, Eq, Structural)]
pub enum ReceiveError {
    /// What came in is no message.
    ConnectionClosed,
    /// What came in cannot be read.
    Unreadable(Unreadable),
}

/// What `url::Url::parse` makes of a text: the address in its normal form.
pub uninterp spec fn parsed_url(text: Seq<char>) -> Option<Seq<char>>;

/// `url::Url::parse`, and the text of what it gives: the address in its normal
/// form, or an error.
#[verifier::external_body]
fn normal_url(text: &str) -> (r: Option<String>)
    ensures
        match r {
            Some(url) => parsed_url(text@) == Some(url@),
            None => parsed_url(text@) is None,
        },
{
    match url::Url::parse(text) {
        Ok(url) => Some(String::from(url)),
        Err(_) => None,
    }
}

/// The text of the address at which a core listens.
pub open spec fn endpoint_text(ip: Seq<char>, port: Seq<char>) -> Seq<char> {
    "ws://"@ + ip + ":"@ + port + "/api"@
}

/// Writes the address at which a core listens.
pub fn write_endpoint(ip: &str, port: &str) -> (r: String)
    ensures
        r@ == endpoint_text(ip@, port@),
{
    let mut text = "ws://".to_owned();
    text.append(ip);
    text.append(":");
    text.append(port);
    text.append("/api");
    text
}

/// The address to connect to: `None` where address and port make none.
pub fn endpoint(ip: &str, port: &str) -> (r: Option<String>)
    ensures
        match r {
            Some(url) => parsed_url(endpoint_text(ip@, port@)) == Some(url@),
            None => parsed_url(endpoint_text(ip@, port@)) is None,
        },
{
    normal_url(write_endpoint(ip, port).as_str())
}

/// Whether a message that belongs to a quiet request, or to another one, is logged.
pub open spec fn logs(level: LogLevel, quiet: bool) -> bool {
    level == LogLevel::All || level == LogLevel::Default && !quiet
}

/// The first position of `x` from position `from` on, or the length where there is none.
pub open spec fn position(s: Seq<usize>, x: usize, from: int) -> int
    decreases s.len() - from,
{
    if from >= s.len() {
        s.len() as int
    } else if s[from] == x {
        from
    } else {
        position(s, x, from + 1)
    }
}

/// The sequence without the first `x` in it.
pub open spec fn without_first(s: Seq<usize>, x: usize) -> Seq<usize> {
    if position(s, x, 0) < s.len() {
        s.remove(position(s, x, 0))
    } else {
        s
    }
}

/// Finds `x`.
fn position_of(s: &Vec<usize>, x: usize) -> (r: Option<usize>)
    ensures
        match r {
            Some(i) => i < s@.len() && i == position(s@, x, 0) && s@[i as int] == x,
            None => position(s@, x, 0) == s@.len() && !s@.contains(x),
        },
{
    let mut i: usize = 0;
    while i < s.len()
        invariant
            i <= s@.len(),
            position(s@, x, 0) == position(s@, x, i as int),
            forall|j: int| 0 <= j < i ==> s@[j] != x,
        decreases s@.len() - i,
    {
        if s[i] == x {
            return Some(i);
        }
        i += 1;
    }
    None
}

/// What an optional document is written as.
pub open spec fn body_text(body: Option<JsonView>) -> Option<Seq<char>> {
    match body {
        Some(v) => Some(compact_text(v)),
        None => None,
    }
}

/// What the document behind an optional reference says.
pub open spec fn ref_json(j: Option<&Json>) -> Option<JsonView> {
    match j {
        Some(j) => Some(j@),
        None => None,
    }
}

/// Whether a message whose body is a document is read back as it was.
pub open spec fn sent_and_read(
    req_id: usize,
    action: Seq<char>,
    state: Seq<char>,
    body: Option<JsonView>,
) -> bool {
    read_message(frame(req_id as nat, action, state, body_text(body))) == Ok::<
        Option<MessageView>,
        Unreadable,
    >(
        Some(
            sent_message(
                req_id as nat,
                action,
                state,
                match body {
                    Some(v) => Some((compact_text(v), v)),
                    None => None,
                },
            ),
        ),
    )
}

/// Whether the head of a message is read as it was written, and its body found on the line
/// behind it.
pub open spec fn head_is_read(
    req_id: usize,
    action: Seq<char>,
    state: Seq<char>,
    body: Option<Seq<char>>,
) -> bool {
    read_head(frame(req_id as nat, action, state, body)) == Ok::<
        Option<(MessageView, Seq<Seq<char>>)>,
        Unreadable,
    >(Some((sent_head(req_id as nat, action, state, body), body_lines(body))))
}

/// A request that goes out.
pub open spec fn is_request(
    out: Outgoing,
    level: LogLevel,
    req_id: usize,
    name: Seq<char>,
    body: Option<JsonView>,
) -> bool {
    &&& out.req_id == req_id
    &&& out.msg@ == frame(req_id as nat, "REQUEST"@, name, body_text(body))
    &&& match out.log {
        Some(line) => level != LogLevel::Nothing && line@ == sent_line(
            req_id as nat,
            "REQUEST"@,
            name,
            body_text(body),
        ),
        None => level == LogLevel::Nothing,
    }
}

/// What goes out where a service asks for `name`: nothing without a connection.
pub open spec fn asks(
    out: Option<Outgoing>,
    moo: Option<Moo>,
    req_id: usize,
    name: Seq<char>,
    body: Option<JsonView>,
) -> bool {
    match out {
        Some(out) => moo matches Some(moo) && is_request(out, moo.log_level, req_id, name, body),
        None => moo is None,
    }
}

/// The name under which a subscription is asked for.
pub open spec fn subscribe_name(svc: Seq<char>, req: Seq<char>) -> Seq<char> {
    svc + "/subscribe_"@ + req
}

/// The name under which a subscription is ended.
pub open spec fn unsubscribe_name(svc: Seq<char>, req: Seq<char>) -> Seq<char> {
    svc + "/unsubscribe_"@ + req
}

/// The arguments of a subscription.
pub open spec fn subscribe_args(args: Option<JsonView>, sub_key: int) -> JsonView {
    with_member(
        match args {
            Some(v) => v,
            None => empty_object(),
        },
        "subscription_key"@,
        JsonView::Int(sub_key),
    )
}

/// The message with which a service asks for `name`: nothing without a connection.
pub fn request(
    moo: &Option<Moo>,
    session: &Session,
    svc_name: &str,
    req_name: &str,
    body: Option<&Json>,
) -> (r: Option<Outgoing>)
    ensures
        asks(r, *moo, session.req_id, svc_name@ + req_name@, ref_json(body)),
{
    match moo {
        Some(moo) => {
            let mut name = svc_name.to_owned();
            name.append(req_name);
            Some(moo.send_req(session, name.as_str(), body))
        },
        None => None,
    }
}

/// Whether an id was taken from a counter.
pub open spec fn taken(before: usize, after: usize, id: usize) -> bool {
    id == before && after == before + 1
}

/// Takes the next id from a counter.
pub fn next_id(count: &mut usize) -> (id: usize)
    requires
        *old(count) < usize::MAX,
    ensures
        taken(*old(count), *final(count), id),
{
    let id = *count;
    *count = id + 1;
    id
}

/// No id is taken from a counter twice: `counts` are its values before the first and after each
/// of the times that an id was taken.
pub proof fn ids_differ(counts: Seq<usize>, ids: Seq<usize>, i: int, j: int)
    requires
        counts.len() == ids.len() + 1,
        forall|k: int| 0 <= k < ids.len() ==> taken(counts[k], counts[k + 1], #[trigger] ids[k]),
        0 <= i < j < ids.len(),
    ensures
        ids[i] < ids[j],
    decreases j,
{
    assert(taken(counts[i], counts[i + 1], ids[i]));
    assert(taken(counts[j], counts[j + 1], ids[j]));
    if i + 1 < j {
        ids_differ(counts, ids, i, j - 1);
        assert(taken(counts[j - 1], counts[j], ids[j - 1]));
    }
}

/// Whether the user and the halves of a connection have its id.
pub open spec fn has_id(parts: (Moo, MooSender, MooReceiver), id: usize) -> bool {
    parts.0.id == id && parts.1.id == id && parts.2.id == id
}

/// Connections whose ids were taken from one counter are told apart by them.
pub proof fn connections_differ(
    counts: Seq<usize>,
    conns: Seq<(Moo, MooSender, MooReceiver)>,
    i: int,
    j: int,
)
    requires
        counts.len() == conns.len() + 1,
        forall|k: int|
            0 <= k < conns.len() ==> has_id(#[trigger] conns[k], conns[k].0.id) && taken(
                counts[k],
                counts[k + 1],
                conns[k].0.id,
            ),
        0 <= i < conns.len(),
        0 <= j < conns.len(),
        i != j,
    ensures
        conns[i].0.id != conns[j].0.id,
        conns[i].1.id != conns[j].1.id,
        conns[i].2.id != conns[j].2.id,
{
    let ids = Seq::new(conns.len(), |k: int| conns[k].0.id);
    assert forall|k: int| 0 <= k < ids.len() implies taken(
        counts[k],
        counts[k + 1],
        #[trigger] ids[k],
    ) by {
        assert(has_id(conns[k], conns[k].0.id));
    }
    if i < j {
        ids_differ(counts, ids, i, j);
    } else {
        ids_differ(counts, ids, j, i);
    }
    assert(has_id(conns[i], ids[i]) && has_id(conns[j], ids[j]));
}

impl Moo {
    /// The user and the halves of a new connection, which have its id, and what they share.
    pub fn new(id: usize, log_level: LogLevel) -> (r: (Moo, MooSender, MooReceiver, Session))
        ensures
            r.0 == (Moo { id, sub_key: 0, log_level }),
            r.1 == (MooSender { id, log_level }),
            r.2 == (MooReceiver { id, log_level }),
            has_id((r.0, r.1, r.2), id),
            r.3.req_id == 0,
            r.3.quiet_reqs@ == Seq::<usize>::empty(),
    {
        (
            Moo { id, sub_key: 0, log_level },
            MooSender { id, log_level },
            MooReceiver { id, log_level },
            Session { req_id: 0, quiet_reqs: Vec::new() },
        )
    }

    /// Writes a message, and the line that is logged for it. A message that can be read back
    /// is read back as it was.
    pub fn create_msg_string(req_id: usize, hdr: &[&str], body: Option<&Json>) -> (r: (
        String,
        String,
    ))
        requires
            hdr@.len() >= 2,
        ensures
            r.0@ == frame(req_id as nat, hdr@[0]@, hdr@[1]@, body_text(ref_json(body))),
            r.1@ == sent_line(req_id as nat, hdr@[0]@, hdr@[1]@, body_text(ref_json(body))),
            readable(hdr@[0]@, hdr@[1]@) ==> head_is_read(
                req_id,
                hdr@[0]@,
                hdr@[1]@,
                body_text(ref_json(body)),
            ),
            readable(hdr@[0]@, hdr@[1]@) && (body matches Some(j) ==> storable(j@, read_depth()))
                ==> sent_and_read(req_id, hdr@[0]@, hdr@[1]@, ref_json(body)),
    {
        let action = hdr[0];
        let state = hdr[1];
        match body {
            Some(body) => {
                let text = body.to_text();
                let r = write_frame(req_id, action, state, Some(text.as_str()));
                proof {
                    if readable(action@, state@) {
                        head_reads_back(req_id, action@, state@, Some(text@));
                    }
                    if readable(action@, state@) && storable(body@, read_depth()) {
                        frame_reads_back(req_id, action@, state@, Some((text@, body@)));
                    }
                }
                r
            },
            None => {
                let r = write_frame(req_id, action, state, None);
                proof {
                    if readable(action@, state@) {
                        head_reads_back(req_id, action@, state@, None);
                        frame_reads_back(req_id, action@, state@, None);
                    }
                }
                r
            },
        }
    }

    /// The message that asks for `name`.
    pub fn send_req(&self, session: &Session, name: &str, body: Option<&Json>) -> (r: Outgoing)
        ensures
            is_request(r, self.log_level, session.req_id, name@, ref_json(body)),
    {
        let req_id = session.req_id;
        let (msg, log) = Moo::create_msg_string(req_id, &["REQUEST", name], body);
        let log = if self.log_level != LogLevel::Nothing {
            Some(log)
        } else {
            None
        };
        Outgoing { req_id, msg, log }
    }

    /// Counts a request that was sent.
    pub fn req_sent(&self, session: &mut Session)
        requires
            old(session).req_id < usize::MAX,
        ensures
            final(session).req_id == old(session).req_id + 1,
            final(session).quiet_reqs == old(session).quiet_reqs,
    {
        session.req_id = session.req_id + 1;
    }

    /// The message that subscribes, and the key of the subscription.
    pub fn send_sub_req(
        &self,
        session: &Session,
        svc_name: &str,
        req_name: &str,
        args: Option<Json>,
    ) -> (r: (Outgoing, usize))
        requires
            self.sub_key < usize::MAX,
            args matches Some(j) ==> takes_members(j@),
        ensures
            r.1 == self.sub_key + 1,
            is_request(
                r.0,
                self.log_level,
                session.req_id,
                subscribe_name(svc_name@, req_name@),
                Some(subscribe_args(opt_json(args), self.sub_key + 1)),
            ),
    {
        let sub_key = self.sub_key + 1;
        let mut body = match args {
            Some(args) => args,
            None => Json::object(),
        };
        body.set("subscription_key", Json::uint(sub_key));
        let mut name = svc_name.to_owned();
        name.append("/subscribe_");
        name.append(req_name);
        (self.send_req(session, name.as_str(), Some(&body)), sub_key)
    }

    /// The message that ends a subscription.
    pub fn send_unsub_req(
        &self,
        session: &Session,
        svc_name: &str,
        req_name: &str,
        sub_key: usize,
    ) -> (r: Outgoing)
        ensures
            is_request(
                r,
                self.log_level,
                session.req_id,
                unsubscribe_name(svc_name@, req_name@),
                Some(subscribe_args(None, sub_key as int)),
            ),
    {
        let mut body = Json::object();
        body.set("subscription_key", Json::uint(sub_key));
        let mut name = svc_name.to_owned();
        name.append("/unsubscribe_");
        name.append(req_name);
        self.send_req(session, name.as_str(), Some(&body))
    }

    /// A message that is already written, and its line as far as it is logged.
    pub fn send_msg_string(&self, req_id: usize, msg_string: (String, String)) -> (r: Outgoing)
        ensures
            r.req_id == req_id,
            r.msg == msg_string.0,
            r.log == if self.log_level == LogLevel::Nothing {
                None
            } else {
                Some(msg_string.1)
            },
    {
        let (msg, log) = msg_string;
        let log = if self.log_level != LogLevel::Nothing {
            Some(log)
        } else {
            None
        };
        Outgoing { req_id, msg, log }
    }
}

impl MooSender {
    /// The message that asks for `name`, and the line that is logged for it.
    pub fn send_req(&self, session: &Session, name: &str, body: Option<&Json>) -> (r: (
        usize,
        String,
        String,
    ))
        ensures
            r.0 == session.req_id,
            r.1@ == frame(session.req_id as nat, "REQUEST"@, name@, body_text(ref_json(body))),
            r.2@ == sent_line(session.req_id as nat, "REQUEST"@, name@, body_text(ref_json(body))),
    {
        let req_id = session.req_id;
        let (msg, log) = Moo::create_msg_string(req_id, &["REQUEST", name], body);
        (req_id, msg, log)
    }

    /// The message with the given header, and the line that is logged for it: nothing is sent
    /// where the header is too short.
    pub fn send_msg(&self, req_id: usize, hdr: &[&str], body: Option<&Json>) -> (r: Option<
        (String, String),
    >)
        ensures
            match r {
                Some((msg, log)) => {
                    &&& hdr@.len() > 1
                    &&& msg@ == frame(
                        req_id as nat,
                        hdr@[0]@,
                        hdr@[1]@,
                        body_text(ref_json(body)),
                    )
                    &&& log@ == sent_line(
                        req_id as nat,
                        hdr@[0]@,
                        hdr@[1]@,
                        body_text(ref_json(body)),
                    )
                },
                None => hdr@.len() <= 1,
            },
    {
        if hdr.len() > 1 {
            Some(Moo::create_msg_string(req_id, hdr, body))
        } else {
            None
        }
    }

    /// Notes that a message was sent, and tells whether it is logged. A request takes the next
    /// id, and the answer that completes a quiet request ends it.
    pub fn msg_sent(&self, session: &mut Session, req_id: usize, verb: &str) -> (r: bool)
        requires
            verb@ == "REQUEST"@ ==> old(session).req_id < usize::MAX,
        ensures
            r == logs(self.log_level, old(session).quiet_reqs@.contains(req_id)),
            final(session).req_id == old(session).req_id + if verb@ == "REQUEST"@ {
                1int
            } else {
                0int
            },
            final(session).quiet_reqs@ == if verb@ == "COMPLETE"@ {
                without_first(old(session).quiet_reqs@, req_id)
            } else {
                old(session).quiet_reqs@
            },
    {
        proof {
            reveal_strlit("REQUEST");
            reveal_strlit("COMPLETE");
            assert("REQUEST"@.len() != "COMPLETE"@.len());
        }
        let quiet = position_of(&session.quiet_reqs, req_id);
        let log = self.log_level == LogLevel::All || (self.log_level == LogLevel::Default
            && quiet.is_none());
        if same_text(verb, "REQUEST") {
            session.req_id = session.req_id + 1;
        } else if same_text(verb, "COMPLETE") {
            if let Some(index) = quiet {
                let _ = session.quiet_reqs.remove(index);
            }
        }
        log
    }

    /// A message as the bytes that go out.
    pub fn send_msg_string(&self, msg_string: &str) -> (r: Vec<u8>)
        ensures
            r@ == encode_utf8(msg_string@),
    {
        let bytes = msg_string.as_bytes();
        let mut r: Vec<u8> = Vec::new();
        let mut i: usize = 0;
        while i < bytes.len()
            invariant
                i <= bytes@.len(),
                r@ == bytes@.take(i as int),
            decreases bytes@.len() - i,
        {
            r.push(bytes[i]);
            assert(bytes@.take(i + 1) =~= bytes@.take(i as int).push(bytes@[i as int]));
            i += 1;
        }
        assert(bytes@.take(i as int) =~= bytes@);
        r
    }
}

/// Whether the core asks that a message is not logged.
pub open spec fn is_quiet(m: MessageView) -> bool {
    m.headers.contains_key("Logging"@) && m.headers["Logging"@] == "quiet"@
}

/// The line that is logged for a message that came in. The body is shown where there is a
/// length for it.
pub open spec fn received_line(m: MessageView, req_id: nat, body: Seq<char>) -> Seq<char> {
    "<- "@ + m.verb + " "@ + decimal(req_id) + " "@ + (if m.verb == "REQUEST"@ {
        m.service->Some_0 + "/"@
    } else {
        Seq::empty()
    }) + m.name + (if m.content_length is Some {
        " "@ + body
    } else {
        Seq::empty()
    })
}

/// What becomes of a session when a message comes in.
pub open spec fn after_message(
    level: LogLevel,
    quiet_reqs: Seq<usize>,
    m: MessageView,
    req_id: usize,
) -> Seq<usize> {
    if !logs(level, is_quiet(m)) && is_quiet(m) {
        quiet_reqs.push(req_id)
    } else {
        quiet_reqs
    }
}

/// What is received of a text, and of the message that it is.
pub open spec fn received(read: Result<Option<MessageView>, Unreadable>) -> Result<
    (MessageView, usize),
    ReceiveError,
> {
    match read {
        Ok(Some(m)) => match request_number(m) {
            Some(n) => Ok((m, n)),
            None => Err(ReceiveError::Unreadable(Unreadable::RequestId)),
        },
        Ok(None) => Err(ReceiveError::ConnectionClosed),
        Err(e) => Err(ReceiveError::Unreadable(e)),
    }
}

proof fn lemma_position_last(s: Seq<usize>, x: usize, from: int)
    requires
        0 <= from <= s.len(),
        !s.contains(x),
    ensures
        position(s.push(x), x, from) == s.len(),
    decreases s.len() - from,
{
    if from < s.len() {
        assert(s.push(x)[from] == s[from]);
        assert(s.contains(s[from]));
        lemma_position_last(s, x, from + 1);
    } else {
        assert(s.push(x)[from] == x);
    }
}

/// A request that the core wants to be quiet is not logged, nor are the answers to it, up to the
/// one that completes it. That one leaves the quiet requests as they were before.
pub proof fn quiet_request_is_not_logged(
    level: LogLevel,
    quiet_reqs: Seq<usize>,
    m: MessageView,
    req_id: usize,
)
    requires
        level != LogLevel::All,
        is_quiet(m),
        !quiet_reqs.contains(req_id),
    ensures
        ({
            let after = after_message(level, quiet_reqs, m, req_id);
            &&& !logs(level, is_quiet(m))
            &&& after.contains(req_id)
            &&& !logs(level, after.contains(req_id))
            &&& without_first(after, req_id) == quiet_reqs
        }),
{
    let after = quiet_reqs.push(req_id);
    assert(after[quiet_reqs.len() as int] == req_id);
    lemma_position_last(quiet_reqs, req_id, 0);
    assert(after.remove(quiet_reqs.len() as int) =~= quiet_reqs);
}

/// Whether a message is received: it is given with the line to log for it, and a quiet request is
/// kept. What is no message, or cannot be read, changes nothing.
pub open spec fn is_received(
    r: Result<(MooMessage, Option<String>), ReceiveError>,
    level: LogLevel,
    before: Session,
    after: Session,
    read: Result<Option<MessageView>, Unreadable>,
) -> bool {
    &&& after.req_id == before.req_id
    &&& match received(read) {
        Ok((m, req_id)) => {
            &&& r matches Ok((message, log))
            &&& message@ == m
            &&& after.quiet_reqs@ == after_message(level, before.quiet_reqs@, m, req_id)
            &&& match log {
                Some(line) => logs(level, is_quiet(m)) && line@ == received_line(
                    m,
                    req_id as nat,
                    compact_text(body_of(m)),
                ),
                None => !logs(level, is_quiet(m)),
            }
        },
        Err(e) => {
            &&& r == Err::<(MooMessage, Option<String>), ReceiveError>(e)
            &&& after.quiet_reqs@ == before.quiet_reqs@
        },
    }
}

/// Writes the line that is logged for a message whose body has the text `body`.
pub fn write_received_line(m: &MooMessage, req_id: usize, body: &str) -> (r: String)
    requires
        m@.verb == "REQUEST"@ ==> m@.service is Some,
    ensures
        r@ == received_line(m@, req_id as nat, body@),
{
    let mut line = "<- ".to_owned();
    line.append(m.verb.as_str());
    line.append(" ");
    line.append(to_decimal(req_id).as_str());
    line.append(" ");
    if same_text(m.verb.as_str(), "REQUEST") {
        if let Some(service) = &m.service {
            line.append(service.as_str());
            line.append("/");
        }
    }
    line.append(m.name.as_str());
    if m.content_length.is_some() {
        line.append(" ");
        line.append(body);
    }
    assert(line@ =~= received_line(m@, req_id as nat, body@));
    line
}

impl MooReceiver {
    /// Notes that a message came in, and tells whether it is logged.
    pub fn message_came(&self, session: &mut Session, m: &MooMessage, req_id: usize) -> (r: bool)
        ensures
            r == logs(self.log_level, is_quiet(m@)),
            final(session).req_id == old(session).req_id,
            final(session).quiet_reqs@ == after_message(
                self.log_level,
                old(session).quiet_reqs@,
                m@,
                req_id,
            ),
    {
        let quiet = match m.headers.get("Logging") {
            Some(value) => same_text(value.as_str(), "quiet"),
            None => false,
        };
        let log = self.log_level == LogLevel::All || (self.log_level == LogLevel::Default
            && !quiet);
        if !log && quiet {
            session.quiet_reqs.push(req_id);
        }
        log
    }

    /// Takes up a message that was read: gives it with the line to log for it.
    pub fn receive_message(&self, session: &mut Session, m: MooMessage) -> (r: Result<
        (MooMessage, Option<String>),
        ReceiveError,
    >)
        requires
            m@.verb == "REQUEST"@ ==> m@.service is Some,
        ensures
            is_received(
                r,
                self.log_level,
                *old(session),
                *final(session),
                Ok::<Option<MessageView>, Unreadable>(Some(m@)),
            ),
    {
        let req_id = match m.request_number() {
            Some(n) => n,
            None => {
                return Err(ReceiveError::Unreadable(Unreadable::RequestId));
            },
        };
        let log = if self.message_came(session, &m, req_id) {
            let body = match &m.body {
                Some(body) => body.to_text(),
                None => Json::Null.to_text(),
            };
            Some(write_received_line(&m, req_id, body.as_str()))
        } else {
            None
        };
        Ok((m, log))
    }

    /// Receives a message: gives it with the line to log for it.
    pub fn receive_response(&self, session: &mut Session, data: &str) -> (r: Result<
        (MooMessage, Option<String>),
        ReceiveError,
    >)
        ensures
            is_received(
                r,
                self.log_level,
                *old(session),
                *final(session),
                read_message(data@),
            ),
    {
        match MooMessage::parse(data) {
            Ok(Some(m)) => {
                proof {
                    lemma_request_has_service(data@);
                }
                self.receive_message(session, m)
            },
            Ok(None) => Err(ReceiveError::ConnectionClosed),
            Err(e) => Err(ReceiveError::Unreadable(e)),
        }
    }
}

/// At level all each message is logged, at the level nothing none is, and by default each one
/// that does not belong to a quiet request.
pub proof fn level_decides_what_is_logged(quiet: bool)
    ensures
        logs(LogLevel::All, quiet),
        !logs(LogLevel::Nothing, quiet),
        logs(LogLevel::Default, quiet) <==> !quiet,
{
}

/// A message is quiet exactly where its header for logging says so.
pub proof fn header_makes_a_message_quiet(m: MessageView, value: Seq<char>)
    ensures
        is_quiet(MessageView { headers: m.headers.insert("Logging"@, value), ..m }) <==> value
            == "quiet"@,
        !is_quiet(MessageView { headers: m.headers.remove("Logging"@), ..m }),
{
}

/// A quiet request is kept where it is not logged, and nothing else changes what is kept.
pub proof fn only_quiet_requests_are_kept(
    level: LogLevel,
    quiet_reqs: Seq<usize>,
    m: MessageView,
    req_id: usize,
)
    ensures
        !is_quiet(m) || level == LogLevel::All ==> after_message(level, quiet_reqs, m, req_id)
            == quiet_reqs,
        is_quiet(m) && level != LogLevel::All ==> after_message(level, quiet_reqs, m, req_id)
            == quiet_reqs.push(req_id),
{
}

proof fn lemma_position(s: Seq<usize>, x: usize, from: int, at: int)
    requires
        0 <= from <= at <= s.len(),
        forall|i: int| from <= i < at ==> s[i] != x,
        at < s.len() ==> s[at] == x,
    ensures
        position(s, x, from) == at,
    decreases at - from,
{
    if from < at {
        lemma_position(s, x, from + 1, at);
    }
}

/// Of the ids that are the same the first is taken away, and no other.
pub proof fn first_id_is_taken_away(a: Seq<usize>, x: usize, b: Seq<usize>)
    requires
        !a.contains(x),
    ensures
        without_first(a.push(x) + b, x) == a + b,
        without_first(a, x) == a,
{
    let s = a.push(x) + b;
    let n = a.len() as int;
    assert forall|i: int| 0 <= i < n implies s[i] != x && a[i] != x by {
        assert(s[i] == a[i]);
        assert(a.contains(a[i]));
    }
    assert(s[n] == x);
    lemma_position(s, x, 0, n);
    lemma_position(a, x, 0, n);
    assert(s.remove(n) =~= a + b);
}

/// A subscription is asked for, and ended, as a request to the service, with its key and with
/// what else there is to say.
pub proof fn subscription_names_its_service(
    svc: Seq<char>,
    req: Seq<char>,
    args: JsonView,
    sub_key: int,
    key: Seq<char>,
)
    requires
        svc.len() > 0,
        !svc.contains('/'),
        takes_members(args),
    ensures
        request_target(subscribe_name(svc, req)) == Some((svc, "subscribe_"@ + req)),
        request_target(unsubscribe_name(svc, req)) == Some((svc, "unsubscribe_"@ + req)),
        member(subscribe_args(None, sub_key), "subscription_key"@) == Some(JsonView::Int(sub_key)),
        member(subscribe_args(Some(args), sub_key), "subscription_key"@) == Some(
            JsonView::Int(sub_key),
        ),
        key != "subscription_key"@ ==> member(subscribe_args(Some(args), sub_key), key) == member(
            args,
            key,
        ),
        key != "subscription_key"@ ==> member(subscribe_args(None, sub_key), key) is None,
{
    reveal_strlit("/subscribe_");
    reveal_strlit("subscribe_");
    reveal_strlit("/unsubscribe_");
    reveal_strlit("unsubscribe_");
    let none = Seq::<char>::empty();
    text_is_parted(none, svc, '/', "subscribe_"@ + req);
    text_is_parted(none, svc, '/', "unsubscribe_"@ + req);
    assert(subscribe_name(svc, req) =~= none + svc + seq!['/'] + ("subscribe_"@ + req));
    assert(unsubscribe_name(svc, req) =~= none + svc + seq!['/'] + ("unsubscribe_"@ + req));
}

/// What a service asks for is read by the core as a request to that service, with its name, with
/// the id that is given for it, and with its body on one line. It is logged at each level but
/// nothing. Without a connection nothing goes out.
pub proof fn request_is_read_by_the_core(
    out: Outgoing,
    moo: Option<Moo>,
    req_id: usize,
    service: Seq<char>,
    name: Seq<char>,
    body: Option<JsonView>,
)
    requires
        asks(Some(out), moo, req_id, service + "/"@ + name, body),
        service.len() > 0,
        !service.contains('/'),
        !service.contains('\n'),
        !name.contains('\n'),
        body matches Some(v) ==> !compact_text(v).contains('\n') && encode_utf8(
            compact_text(v),
        ).len() <= usize::MAX,
    ensures
        out.req_id == req_id,
        moo matches Some(m) && (out.log is Some <==> m.log_level != LogLevel::Nothing),
        read_head(out.msg@) matches Ok(Some((m, lines))) && {
            &&& m.verb == "REQUEST"@
            &&& m.service == Some(service)
            &&& m.name == name
            &&& m.request_id == Some(decimal(req_id as nat))
            &&& match body {
                Some(v) => lines == seq![compact_text(v)] && m.content_type == Some(
                    "application/json"@,
                ) && m.content_length == Some(encode_utf8(compact_text(v)).len() as usize),
                None => lines == Seq::<Seq<char>>::empty() && m.content_type is None
                    && m.content_length is None,
            }
        },
{
    reveal_strlit("/");
    reveal_strlit("REQUEST");
    let none = Seq::<char>::empty();
    let state = service + "/"@ + name;
    text_is_parted(none, service, '/', name);
    assert(state =~= none + service + seq!['/'] + name);
    assert(!state.contains('\n')) by {
        assert forall|i: int| 0 <= i < state.len() implies state[i] != '\n' by {
            if i < service.len() {
                assert(state[i] == service[i]);
            } else if i > service.len() {
                assert(state[i] == name[i - service.len() - 1]);
            }
        }
    }
    assert(readable("REQUEST"@, state));
    head_reads_back(req_id, "REQUEST"@, state, body_text(body));
}

/// Without a connection nothing is asked, and with one something is.
pub proof fn connection_decides_whether_to_ask(
    out: Option<Outgoing>,
    moo: Option<Moo>,
    req_id: usize,
    name: Seq<char>,
    body: Option<JsonView>,
)
    requires
        asks(out, moo, req_id, name, body),
    ensures
        out is Some <==> moo is Some,
{
}

/// What is received is the message that was read, with the number of its request. Without such a
/// number it cannot be read, and what is no message closes the connection.
pub proof fn read_message_is_received(read: Result<Option<MessageView>, Unreadable>)
    ensures
        match read {
            Ok(Some(m)) => match request_number(m) {
                Some(n) => received(read) == Ok::<(MessageView, usize), ReceiveError>((m, n)),
                None => received(read) == Err::<(MessageView, usize), ReceiveError>(
                    ReceiveError::Unreadable(Unreadable::RequestId),
                ),
            },
            Ok(None) => received(read) == Err::<(MessageView, usize), ReceiveError>(
                ReceiveError::ConnectionClosed,
            ),
            Err(e) => received(read) == Err::<(MessageView, usize), ReceiveError>(
                ReceiveError::Unreadable(e),
            ),
        },
{
}

/// The line that is logged for a message that came in has an arrow, its verb, the id of its
/// request, its name, of a request behind its service, and then its body, where it has a length.
pub proof fn received_line_has_its_parts(m: MessageView, req_id: nat, body: Seq<char>)
    requires
        m.verb == "REQUEST"@ ==> m.service is Some,
        !m.verb.contains(' '),
    ensures
        ({
            let name = if m.verb == "REQUEST"@ {
                m.service->Some_0 + "/"@ + m.name
            } else {
                m.name
            };
            let rest = if m.content_length is Some {
                name + " "@ + body
            } else {
                name
            };
            split(received_line(m, req_id, body), ' ') == seq![
                "<-"@,
                m.verb,
                decimal(req_id),
            ] + split(rest, ' ')
        }),
{
    reveal_strlit("<- ");
    reveal_strlit("<-");
    reveal_strlit(" ");
    let name = if m.verb == "REQUEST"@ {
        m.service->Some_0 + "/"@ + m.name
    } else {
        m.name
    };
    let rest = if m.content_length is Some {
        name + " "@ + body
    } else {
        name
    };
    let id = decimal(req_id);
    lemma_decimal_digits(req_id);
    assert(!id.contains(' ')) by {
        assert forall|i: int| 0 <= i < id.len() implies id[i] != ' ' by {
            assert(is_digit(id[i]));
        }
    }
    let arrow = "<-"@;
    assert(!arrow.contains(' '));
    let sep = seq![' '];
    let line = received_line(m, req_id, body);
    assert(line =~= arrow + sep + (m.verb + sep + (id + sep + rest)));
    lemma_split_at(arrow, ' ', m.verb + sep + (id + sep + rest));
    lemma_split_at(m.verb, ' ', id + sep + rest);
    lemma_split_at(id, ' ', rest);
    assert(split(line, ' ') =~= seq![arrow, m.verb, id] + split(rest, ' '));
}

/// The address at which a core listens is that of a web socket, with the address and the port of
/// the core, and with the path of the interface.
pub proof fn endpoint_has_its_parts(ip: Seq<char>, port: Seq<char>)
    requires
        !ip.contains('/'),
        !port.contains('/'),
    ensures
        split(endpoint_text(ip, port), '/') == seq![
            "ws:"@,
            Seq::<char>::empty(),
            ip + ":"@ + port,
            "api"@,
        ],
{
    reveal_strlit("ws://");
    reveal_strlit("ws:");
    reveal_strlit(":");
    reveal_strlit("/api");
    reveal_strlit("api");
    let sep = seq!['/'];
    let none = Seq::<char>::empty();
    let host = ip + ":"@ + port;
    let api = "api"@;
    assert(!host.contains('/')) by {
        assert forall|i: int| 0 <= i < host.len() implies host[i] != '/' by {
            if i < ip.len() {
                assert(host[i] == ip[i]);
            } else if i > ip.len() {
                assert(host[i] == port[i - ip.len() - 1]);
            }
        }
    }
    let text = endpoint_text(ip, port);
    assert(text =~= "ws:"@ + sep + (none + sep + (host + sep + api)));
    lemma_split_at("ws:"@, '/', none + sep + (host + sep + api));
    lemma_split_at(none, '/', host + sep + api);
    lemma_split_at(host, '/', api);
    lemma_split_last(api, '/');
    assert(split(text, '/') =~= seq!["ws:"@, none, host, api]);
}

/// A message that can be read, and has a number, is given as it was read. It is logged as the
/// level and its header decide, and the number for the next request stays. What cannot be read
/// changes nothing.
pub proof fn received_message_is_given(
    r: Result<(MooMessage, Option<String>), ReceiveError>,
    level: LogLevel,
    before: Session,
    after: Session,
    read: Result<Option<MessageView>, Unreadable>,
)
    requires
        is_received(r, level, before, after, read),
    ensures
        after.req_id == before.req_id,
        r is Ok <==> (read matches Ok(Some(m)) && request_number(m) is Some),
        r matches Ok((message, log)) ==> {
            &&& read == Ok::<Option<MessageView>, Unreadable>(Some(message@))
            &&& log is Some <==> logs(level, is_quiet(message@))
        },
        r is Err ==> after.quiet_reqs@ == before.quiet_reqs@,
{
}

} // verus!
