//! Messages as they come in: a line that names the verb, header lines, an empty line, the body.

use vstd::prelude::*;
use crate::json::{
    empty_object, member, member_text, opt_json, opt_view, with_member, Json, JsonView,
};
use crate::json_text::parsed_json;
use crate::table::Table;
use crate::text::{
    all_digits, begins_with, chars_of, decimal, decimal_round_trip, find_char, index_of,
    index_past, is_digit, lemma_find_char_unique, lemma_skip_char, parse_unsigned, same_text,
    skip_char, split, split_text, stands_at, texts, unsigned_value,
};

verus! {

/// Why a message cannot be read.
#[derive(Clone, Copy, Debug, PartialEq, Eq, Structural)]
pub enum Unreadable {
    /// The length of the content is no number.
    ContentLength,
    /// A line of the body is no JSON document.
    Body,
    /// The request id is missing, or it is no number.
    RequestId,
}

/// A message that came in.
#[derive(Debug)]
pub struct MooMessage {
    pub verb: String,
    pub service: Option<String>,
    pub name: String,
    pub request_id: Option<String>,
    pub content_type: Option<String>,
    pub content_length: Option<usize>,
    pub headers: Table<String>,
    pub body: Option<Json>,
}

/// What a message says.
pub struct MessageView {
    pub verb: Seq<char>,
    pub service: Option<Seq<char>>,
    pub name: Seq<char>,
    pub request_id: Option<Seq<char>>,
    pub content_type: Option<Seq<char>>,
    pub content_length: Option<usize>,
    pub headers: Map<Seq<char>, Seq<char>>,
    pub body: Option<JsonView>,
}

/// A table of strings as a map of texts.
pub open spec fn string_map(m: Map<Seq<char>, String>) -> Map<Seq<char>, Seq<char>> {
    Map::new(|k: Seq<char>| m.contains_key(k), |k: Seq<char>| m[k]@)
}

impl View for MooMessage {
    type V = MessageView;

    open spec fn view(&self) -> MessageView {
        MessageView {
            verb: self.verb@,
            service: opt_view(self.service),
            name: self.name@,
            request_id: opt_view(self.request_id),
            content_type: opt_view(self.content_type),
            content_length: self.content_length,
            headers: string_map(self.headers@),
            body: opt_json(self.body),
        }
    }
}

pub open spec fn is_capital(c: char) -> bool {
    'A' <= c && c <= 'Z'
}

/// The end of the run of decimal digits that begins at `from`.
pub open spec fn digits_end(s: Seq<char>, from: int) -> int
    decreases s.len() - from,
{
    if from < s.len() && is_digit(s[from]) {
        digits_end(s, from + 1)
    } else {
        from
    }
}

/// The end of the run of capital letters that begins at `from`.
pub open spec fn capitals_end(s: Seq<char>, from: int) -> int
    decreases s.len() - from,
{
    if from < s.len() && is_capital(s[from]) {
        capitals_end(s, from + 1)
    } else {
        from
    }
}

/// The verb of a first line, and what follows it: `MOO/`, digits, a space, capital letters, a
/// space, and the rest.
pub open spec fn first_line(line: Seq<char>) -> Option<(Seq<char>, Seq<char>)> {
    let d = digits_end(line, 4);
    let u = capitals_end(line, d + 1);
    if stands_at(line, "MOO/"@, 0) && d > 4 && d < line.len() && line[d] == ' ' && u > d + 1 && u
        < line.len() && line[u] == ' ' {
        Some((line.subrange(d + 1, u), line.subrange(u + 1, line.len() as int)))
    } else {
        None
    }
}

/// The parts of a text around its first separator that something other than a separator
/// precedes.
pub open spec fn parted(s: Seq<char>, sep: char) -> Option<(Seq<char>, Seq<char>)> {
    let i = skip_char(s, sep, 0);
    let j = find_char(s, sep, i);
    if j < s.len() {
        Some((s.subrange(i, j), s.subrange(j + 1, s.len() as int)))
    } else {
        None
    }
}

/// The service and the name that a request is for.
pub open spec fn request_target(s: Seq<char>) -> Option<(Seq<char>, Seq<char>)> {
    parted(s, '/')
}

/// The name and the value of a header line. Spaces before the value do not count.
pub open spec fn header_line(line: Seq<char>) -> Option<(Seq<char>, Seq<char>)> {
    match parted(line, ':') {
        Some((name, rest)) => Some((name, rest.skip(skip_char(rest, ' ', 0)))),
        None => None,
    }
}

/// The message that a first line begins.
pub open spec fn begun(line: Seq<char>) -> Option<MessageView> {
    match first_line(line) {
        None => None,
        Some((verb, rest)) => {
            let m = MessageView {
                verb,
                service: None,
                name: rest,
                request_id: None,
                content_type: None,
                content_length: None,
                headers: Map::empty(),
                body: None,
            };
            if verb == "REQUEST"@ {
                match request_target(rest) {
                    Some((service, name)) => Some(
                        MessageView { service: Some(service), name, ..m },
                    ),
                    None => None,
                }
            } else {
                Some(m)
            }
        },
    }
}

/// The message with one more header.
pub open spec fn with_header(m: MessageView, name: Seq<char>, value: Seq<char>) -> Result<
    MessageView,
    Unreadable,
> {
    if name == "Content-Type"@ {
        Ok(MessageView { content_type: Some(value), ..m })
    } else if name == "Content-Length"@ {
        match unsigned_value(value) {
            Some(n) => Ok(MessageView { content_length: Some(n), ..m }),
            None => Err(Unreadable::ContentLength),
        }
    } else if name == "Request-Id"@ {
        Ok(MessageView { request_id: Some(value), ..m })
    } else {
        Ok(MessageView { headers: m.headers.insert(name, value), ..m })
    }
}

/// The lines of the body that begins at line `i` and that are documents: all of them in a JSON
/// body, none in any other.
pub open spec fn document_lines(lines: Seq<Seq<char>>, i: int, m: MessageView) -> Seq<Seq<char>> {
    if m.content_type == Some("application/json"@) {
        lines.skip(i)
    } else {
        Seq::empty()
    }
}

/// Reads header lines from line `i` on. An empty line ends them; without one there is no
/// message.
pub open spec fn read_headers(lines: Seq<Seq<char>>, i: int, m: MessageView) -> Result<
    Option<(MessageView, Seq<Seq<char>>)>,
    Unreadable,
>
    decreases lines.len() - i,
{
    if i >= lines.len() {
        Ok(None)
    } else if lines[i].len() == 0 {
        Ok(Some((m, document_lines(lines, i + 1, m))))
    } else {
        match header_line(lines[i]) {
            None => Ok(None),
            Some((name, value)) => match with_header(m, name, value) {
                Ok(next) => read_headers(lines, i + 1, next),
                Err(e) => Err(e),
            },
        }
    }
}

/// The message that a text is, still without its body, and the lines of the body that are
/// documents: `Ok(None)` where the text is no message.
pub open spec fn read_head(data: Seq<char>) -> Result<
    Option<(MessageView, Seq<Seq<char>>)>,
    Unreadable,
> {
    let lines = split(data, '\n');
    match begun(lines[0]) {
        None => Ok(None),
        Some(m) => read_headers(lines, 1, m),
    }
}

/// The message with the documents of its body, of which the last counts. Each line has to be a
/// document.
pub open spec fn with_documents(m: MessageView, docs: Seq<Option<JsonView>>) -> Result<
    MessageView,
    Unreadable,
> {
    if docs.contains(None) {
        Err(Unreadable::Body)
    } else if docs.len() == 0 {
        Ok(m)
    } else {
        Ok(MessageView { body: docs.last(), ..m })
    }
}

/// The documents that lines are.
pub open spec fn documents(lines: Seq<Seq<char>>) -> Seq<Option<JsonView>> {
    Seq::new(lines.len(), |i: int| parsed_json(lines[i]))
}

/// The message that a text is: `Ok(None)` where it is no message.
pub open spec fn read_message(data: Seq<char>) -> Result<Option<MessageView>, Unreadable> {
    match read_head(data) {
        Ok(Some((m, lines))) => match with_documents(m, documents(lines)) {
            Ok(m) => Ok(Some(m)),
            Err(e) => Err(e),
        },
        Ok(None) => Ok(None),
        Err(e) => Err(e),
    }
}

proof fn lemma_headers_keep_target(lines: Seq<Seq<char>>, i: int, m: MessageView)
    ensures
        read_headers(lines, i, m) matches Ok(Some((r, _))) ==> r.verb == m.verb && r.service
            == m.service,
    decreases lines.len() - i,
{
    if i < lines.len() && lines[i].len() > 0 {
        if let Some((name, value)) = header_line(lines[i]) {
            if let Ok(next) = with_header(m, name, value) {
                lemma_headers_keep_target(lines, i + 1, next);
            }
        }
    }
}

/// A request that is read names the service that it is for.
pub proof fn lemma_request_has_service(data: Seq<char>)
    ensures
        read_message(data) matches Ok(Some(m)) ==> m.verb == "REQUEST"@ ==> m.service is Some,
{
    let lines = split(data, '\n');
    if let Some(m) = begun(lines[0]) {
        lemma_headers_keep_target(lines, 1, m);
    }
}

/// What optional documents say.
pub open spec fn docs_view(docs: Seq<Option<Json>>) -> Seq<Option<JsonView>> {
    Seq::new(docs.len(), |i: int| opt_json(docs[i]))
}

/// The number that a request id is.
pub open spec fn request_number(m: MessageView) -> Option<usize> {
    match m.request_id {
        Some(id) => unsigned_value(id),
        None => None,
    }
}

/// The body of a message, or `null` where there is none.
pub open spec fn body_of(m: MessageView) -> JsonView {
    match m.body {
        Some(body) => body,
        None => JsonView::Null,
    }
}

/// The document with a member where there is a value for it.
pub open spec fn with_optional(v: JsonView, key: Seq<char>, x: Option<JsonView>) -> JsonView {
    match x {
        Some(x) => with_member(v, key, x),
        None => v,
    }
}

pub open spec fn opt_text_json(s: Option<Seq<char>>) -> Option<JsonView> {
    match s {
        Some(s) => Some(JsonView::Text(s)),
        None => None,
    }
}

pub open spec fn text_map_json(m: Map<Seq<char>, Seq<char>>) -> JsonView {
    JsonView::Object(
        Map::new(|k: Seq<char>| m.contains_key(k), |k: Seq<char>| JsonView::Text(m[k])),
    )
}

/// A message as a document.
pub open spec fn message_json(m: MessageView) -> JsonView {
    let v = with_member(empty_object(), "headers"@, text_map_json(m.headers));
    let v = with_optional(v, "service"@, opt_text_json(m.service));
    let v = with_member(v, "name"@, JsonView::Text(m.name));
    let v = with_member(v, "verb"@, JsonView::Text(m.verb));
    let v = with_optional(v, "content_type"@, opt_text_json(m.content_type));
    let v = with_optional(
        v,
        "content_length"@,
        match m.content_length {
            Some(n) => Some(JsonView::Int(n as int)),
            None => None,
        },
    );
    let v = with_optional(v, "request_id"@, opt_text_json(m.request_id));
    with_optional(v, "body"@, m.body)
}

/// Reads a first line.
fn parse_first_line<'a>(line: &'a str) -> (r: Option<(&'a str, &'a str)>)
    ensures
        match r {
            Some((verb, rest)) => first_line(line@) == Some((verb@, rest@)),
            None => first_line(line@) is None,
        },
{
    let s = chars_of(line);
    proof {
        reveal_strlit("MOO/");
    }
    if !begins_with(&s, "MOO/") {
        return None;
    }
    let mut d: usize = 4;
    while d < s.len() && '0' <= s[d] && s[d] <= '9'
        invariant
            4 <= d <= s@.len(),
            digits_end(s@, 4) == digits_end(s@, d as int),
        decreases s@.len() - d,
    {
        d += 1;
    }
    if d == 4 || d >= s.len() || s[d] != ' ' {
        return None;
    }
    let mut u: usize = d + 1;
    while u < s.len() && 'A' <= s[u] && s[u] <= 'Z'
        invariant
            d + 1 <= u <= s@.len(),
            capitals_end(s@, d + 1) == capitals_end(s@, u as int),
        decreases s@.len() - u,
    {
        u += 1;
    }
    if u == d + 1 || u >= s.len() || s[u] != ' ' {
        return None;
    }
    Some((line.substring_char(d + 1, u), line.substring_char(u + 1, s.len())))
}

/// Parts a text at its first separator that something other than a separator precedes.
fn part_text<'a>(text: &'a str, sep: char) -> (r: Option<(&'a str, &'a str)>)
    ensures
        match r {
            Some((a, b)) => parted(text@, sep) == Some((a@, b@)),
            None => parted(text@, sep) is None,
        },
{
    let s = chars_of(text);
    let i = index_past(&s, sep, 0);
    let j = index_of(&s, sep, i);
    if j < s.len() {
        Some((text.substring_char(i, j), text.substring_char(j + 1, s.len())))
    } else {
        None
    }
}

/// Reads a header line.
fn parse_header_line<'a>(line: &'a str) -> (r: Option<(&'a str, &'a str)>)
    ensures
        match r {
            Some((name, value)) => header_line(line@) == Some((name@, value@)),
            None => header_line(line@) is None,
        },
{
    match part_text(line, ':') {
        Some((name, rest)) => {
            let s = chars_of(rest);
            let v = index_past(&s, ' ', 0);
            assert(rest@.skip(v as int) =~= rest@.subrange(v as int, rest@.len() as int));
            Some((name, rest.substring_char(v, s.len())))
        },
        None => None,
    }
}

/// Reads a first line into the message that it begins.
fn begin_message(line: &str) -> (r: Option<MooMessage>)
    ensures
        match r {
            Some(m) => begun(line@) == Some(m@),
            None => begun(line@) is None,
        },
{
    match parse_first_line(line) {
        None => None,
        Some((verb, rest)) => {
            let mut m = MooMessage {
                verb: verb.to_owned(),
                service: None,
                name: rest.to_owned(),
                request_id: None,
                content_type: None,
                content_length: None,
                headers: Table::new(),
                body: None,
            };
            assert(string_map(m.headers@) =~= Map::<Seq<char>, Seq<char>>::empty());
            if same_text(verb, "REQUEST") {
                match part_text(rest, '/') {
                    Some((service, name)) => {
                        m.service = Some(service.to_owned());
                        m.name = name.to_owned();
                        Some(m)
                    },
                    None => None,
                }
            } else {
                Some(m)
            }
        },
    }
}

/// Adds one header to a message.
fn add_header(m: &mut MooMessage, name: &str, value: &str) -> (r: Result<(), Unreadable>)
    ensures
        match r {
            Ok(_) => with_header(old(m)@, name@, value@) == Ok::<MessageView, Unreadable>(
                final(m)@,
            ),
            Err(e) => with_header(old(m)@, name@, value@) == Err::<MessageView, Unreadable>(e),
        },
{
    if same_text(name, "Content-Type") {
        m.content_type = Some(value.to_owned());
    } else if same_text(name, "Content-Length") {
        match parse_unsigned(value) {
            Some(n) => {
                m.content_length = Some(n);
            },
            None => {
                return Err(Unreadable::ContentLength);
            },
        }
    } else if same_text(name, "Request-Id") {
        m.request_id = Some(value.to_owned());
    } else {
        let ghost before = m.headers@;
        m.headers.insert(name, value.to_owned());
        assert(string_map(m.headers@) =~= string_map(before).insert(name@, value@));
    }
    Ok(())
}

impl MooMessage {
    /// Reads a message up to its body, and finds the lines of the body that are documents:
    /// `Ok(None)` where the text is no message.
    pub fn parse_head<'a>(data: &'a str) -> (r: Result<
        Option<(MooMessage, Vec<&'a str>)>,
        Unreadable,
    >)
        ensures
            match r {
                Ok(Some((m, lines))) => read_head(data@) == Ok::<
                    Option<(MessageView, Seq<Seq<char>>)>,
                    Unreadable,
                >(Some((m@, texts(lines@)))),
                Ok(None) => read_head(data@) == Ok::<
                    Option<(MessageView, Seq<Seq<char>>)>,
                    Unreadable,
                >(None),
                Err(e) => read_head(data@) == Err::<
                    Option<(MessageView, Seq<Seq<char>>)>,
                    Unreadable,
                >(e),
            },
    {
        let lines = split_text(data, '\n');
        let ghost all = split(data@, '\n');
        assert(all.len() > 0);
        let mut m = match begin_message(lines[0]) {
            Some(m) => m,
            None => {
                return Ok(None);
            },
        };
        let mut i: usize = 1;
        while i < lines.len() && !lines[i].is_empty()
            invariant
                all == texts(lines@),
                1 <= i <= lines@.len(),
                read_head(data@) == read_headers(all, i as int, m@),
            decreases lines@.len() - i,
        {
            match parse_header_line(lines[i]) {
                None => {
                    return Ok(None);
                },
                Some((name, value)) => match add_header(&mut m, name, value) {
                    Ok(_) => {},
                    Err(e) => {
                        return Err(e);
                    },
                },
            }
            i += 1;
        }
        if i >= lines.len() {
            return Ok(None);
        }
        let mut docs: Vec<&'a str> = Vec::new();
        let json = match &m.content_type {
            Some(t) => same_text(t.as_str(), "application/json"),
            None => false,
        };
        if json {
            let ghost from = i + 1;
            i += 1;
            while i < lines.len()
                invariant
                    all == texts(lines@),
                    0 <= from <= i <= lines@.len(),
                    texts(docs@) == all.subrange(from as int, i as int),
                decreases lines@.len() - i,
            {
                let ghost before = docs@;
                docs.push(lines[i]);
                assert(texts(docs@) =~= texts(before).push(all[i as int]));
                assert(all.subrange(from as int, i + 1) =~= all.subrange(
                    from as int,
                    i as int,
                ).push(all[i as int]));
                i += 1;
            }
            assert(all.subrange(from as int, i as int) =~= all.skip(from as int));
        } else {
            assert(texts(docs@) =~= Seq::<Seq<char>>::empty());
        }
        Ok(Some((m, docs)))
    }

    /// Adds the documents that the lines of the body are to a message.
    pub fn add_documents(self, docs: Vec<Option<Json>>) -> (r: Result<MooMessage, Unreadable>)
        ensures
            match r {
                Ok(m) => with_documents(self@, docs_view(docs@)) == Ok::<MessageView, Unreadable>(
                    m@,
                ),
                Err(e) => with_documents(self@, docs_view(docs@)) == Err::<
                    MessageView,
                    Unreadable,
                >(e),
            },
    {
        let mut i: usize = 0;
        while i < docs.len()
            invariant
                i <= docs@.len(),
                forall|j: int| 0 <= j < i ==> (#[trigger] docs@[j]) is Some,
            decreases docs@.len() - i,
        {
            if docs[i].is_none() {
                assert(docs_view(docs@)[i as int] is None);
                return Err(Unreadable::Body);
            }
            i += 1;
        }
        let ghost view = docs_view(docs@);
        assert(!view.contains(None)) by {
            assert forall|j: int| 0 <= j < view.len() implies view[j] is Some by {
                assert(docs@[j] is Some);
            }
        }
        let mut docs = docs;
        let mut m = self;
        match docs.pop() {
            Some(body) => {
                m.body = body;
            },
            None => {},
        }
        Ok(m)
    }

    /// The number of the request that the message is about.
    pub fn request_number(&self) -> (r: Option<usize>)
        ensures
            r == request_number(self@),
    {
        match &self.request_id {
            Some(id) => parse_unsigned(id.as_str()),
            None => None,
        }
    }

    /// The member of the body under `key`.
    pub fn body_member(&self, key: &str) -> (r: Option<&Json>)
        ensures
            match r {
                Some(x) => member(body_of(self@), key@) == Some(x@),
                None => member(body_of(self@), key@) is None,
            },
    {
        match &self.body {
            Some(body) => body.get(key),
            None => None,
        }
    }

    /// The text under `key` in the body.
    pub fn body_text(&self, key: &str) -> (r: Option<&str>)
        ensures
            match r {
                Some(s) => member_text(body_of(self@), key@) == Some(s@),
                None => member_text(body_of(self@), key@) is None,
            },
    {
        match self.body_member(key) {
            Some(x) => x.as_str(),
            None => None,
        }
    }

    /// The message as a document.
    pub fn to_json(&self) -> (r: Json)
        ensures
            r@ == message_json(self@),
    {
        let mut headers = Json::object();
        let n = self.headers.len();
        let mut i: usize = 0;
        let ghost keys = self.headers.keys();
        while i < n
            invariant
                n == keys.len(),
                keys == self.headers.keys(),
                i <= n,
                headers@ is Object,
                forall|k: Seq<char>| #[trigger]
                    headers@->Object_0.contains_key(k) ==> self.headers@.contains_key(k)
                        && headers@->Object_0[k] == JsonView::Text(self.headers@[k]@),
                forall|j: int| 0 <= j < i ==> headers@->Object_0.contains_key(#[trigger] keys[j]),
            decreases n - i,
        {
            let (key, value) = self.headers.entry(i);
            let ghost before = headers@->Object_0;
            headers.set(key.as_str(), Json::Text(value.clone()));
            assert(headers@->Object_0 == before.insert(key@, JsonView::Text(value@)));
            i += 1;
        }
        assert(headers@ == text_map_json(self@.headers)) by {
            let m = headers@->Object_0;
            assert forall|k: Seq<char>| self.headers@.contains_key(k) implies m.contains_key(k) by {
                assert(keys.contains(k));
                let j = choose|j: int| 0 <= j < keys.len() && keys[j] == k;
                assert(m.contains_key(keys[j]));
            }
            assert(m =~= text_map_json(self@.headers)->Object_0);
        }
        let mut v = Json::object();
        v.set("headers", headers);
        if let Some(service) = &self.service {
            v.set("service", Json::Text(service.clone()));
        }
        v.set("name", Json::Text(self.name.clone()));
        v.set("verb", Json::Text(self.verb.clone()));
        if let Some(content_type) = &self.content_type {
            v.set("content_type", Json::Text(content_type.clone()));
        }
        if let Some(n) = &self.content_length {
            v.set("content_length", Json::uint(*n));
        }
        if let Some(id) = &self.request_id {
            v.set("request_id", Json::Text(id.clone()));
        }
        if let Some(body) = &self.body {
            v.set("body", body.clone());
        }
        v
    }

    /// Reads a message: `Ok(None)` where the text is no message.
    pub fn parse(data: &str) -> (r: Result<Option<MooMessage>, Unreadable>)
        ensures
            match r {
                Ok(Some(m)) => read_message(data@) == Ok::<Option<MessageView>, Unreadable>(
                    Some(m@),
                ),
                Ok(None) => read_message(data@) == Ok::<Option<MessageView>, Unreadable>(None),
                Err(e) => read_message(data@) == Err::<Option<MessageView>, Unreadable>(e),
            },
    {
        match MooMessage::parse_head(data) {
            Ok(Some((m, lines))) => {
                let mut docs: Vec<Option<Json>> = Vec::new();
                let mut i: usize = 0;
                while i < lines.len()
                    invariant
                        i <= lines@.len(),
                        docs_view(docs@) == documents(texts(lines@).take(i as int)),
                    decreases lines@.len() - i,
                {
                    let ghost before = docs@;
                    docs.push(Json::parse(lines[i]));
                    proof {
                        assert(docs_view(docs@) =~= docs_view(before).push(
                            parsed_json(texts(lines@)[i as int]),
                        ));
                        assert(documents(texts(lines@).take(i + 1)) =~= documents(
                            texts(lines@).take(i as int),
                        ).push(parsed_json(texts(lines@)[i as int])));
                    }
                    i += 1;
                }
                assert(texts(lines@).take(i as int) =~= texts(lines@));
                match m.add_documents(docs) {
                    Ok(m) => Ok(Some(m)),
                    Err(e) => Err(e),
                }
            },
            Ok(None) => Ok(None),
            Err(e) => Err(e),
        }
    }
}

proof fn lemma_digits_end(s: Seq<char>, from: int, end: int)
    requires
        0 <= from <= end <= s.len(),
        forall|i: int| from <= i < end ==> is_digit(#[trigger] s[i]),
        end < s.len() ==> !is_digit(s[end]),
    ensures
        digits_end(s, from) == end,
    decreases end - from,
{
    if from < end {
        assert(is_digit(s[from]));
        lemma_digits_end(s, from + 1, end);
    }
}

proof fn lemma_capitals_end_at(s: Seq<char>, from: int, end: int)
    requires
        0 <= from <= end <= s.len(),
        forall|i: int| from <= i < end ==> is_capital(#[trigger] s[i]),
        end < s.len() ==> !is_capital(s[end]),
    ensures
        capitals_end(s, from) == end,
    decreases end - from,
{
    if from < end {
        assert(is_capital(s[from]));
        lemma_capitals_end_at(s, from + 1, end);
    }
}

proof fn lemma_ends(s: Seq<char>, from: int)
    requires
        0 <= from <= s.len(),
    ensures
        from <= digits_end(s, from) <= s.len(),
        forall|i: int| from <= i < digits_end(s, from) ==> is_digit(#[trigger] s[i]),
        from <= capitals_end(s, from) <= s.len(),
        forall|i: int| from <= i < capitals_end(s, from) ==> is_capital(#[trigger] s[i]),
    decreases s.len() - from,
{
    if from < s.len() {
        lemma_ends(s, from + 1);
    }
}

/// Whether a text is made of capital letters alone.
pub open spec fn all_capitals(s: Seq<char>) -> bool {
    forall|i: int| 0 <= i < s.len() ==> 'A' <= #[trigger] s[i] && s[i] <= 'Z'
}

/// A first line has a verb and a rest exactly where it is `MOO/`, digits, a space, the verb in
/// capital letters, a space, and the rest.
pub proof fn first_line_is_taken_apart(line: Seq<char>, verb: Seq<char>, rest: Seq<char>)
    ensures
        first_line(line) == Some((verb, rest)) <==> exists|digits: Seq<char>|
            {
                &&& #[trigger] all_digits(digits)
                &&& digits.len() > 0
                &&& verb.len() > 0
                &&& all_capitals(verb)
                &&& line == "MOO/"@ + digits + " "@ + verb + " "@ + rest
            },
{
    reveal_strlit("MOO/");
    reveal_strlit(" ");
    if first_line(line) == Some((verb, rest)) {
        let d = digits_end(line, 4);
        let u = capitals_end(line, d + 1);
        lemma_ends(line, 4);
        lemma_ends(line, d + 1);
        let digits = line.subrange(4, d);
        assert(all_digits(digits)) by {
            assert forall|i: int| 0 <= i < digits.len() implies is_digit(#[trigger] digits[i]) by {
                assert(is_digit(line[4 + i]));
            }
        }
        assert forall|i: int| 0 <= i < verb.len() implies 'A' <= #[trigger] verb[i] && verb[i]
            <= 'Z' by {
            assert(is_capital(line[d + 1 + i]));
        }
        assert(line.subrange(0, 4) == "MOO/"@);
        assert forall|i: int| 0 <= i < 4 implies line[i] == "MOO/"@[i] by {
            assert(line.subrange(0, 4)[i] == "MOO/"@[i]);
        }
        assert(line =~= "MOO/"@ + digits + " "@ + verb + " "@ + rest);
    }
    if exists|digits: Seq<char>|
        {
            &&& #[trigger] all_digits(digits)
            &&& digits.len() > 0
            &&& verb.len() > 0
            &&& all_capitals(verb)
            &&& line == "MOO/"@ + digits + " "@ + verb + " "@ + rest
        } {
        let digits = choose|digits: Seq<char>|
            {
                &&& #[trigger] all_digits(digits)
                &&& digits.len() > 0
                &&& verb.len() > 0
                &&& all_capitals(verb)
                &&& line == "MOO/"@ + digits + " "@ + verb + " "@ + rest
            };
        let d = 4 + digits.len() as int;
        let u = d + 1 + verb.len();
        assert forall|i: int| 4 <= i < d implies is_digit(#[trigger] line[i]) by {
            assert(is_digit(digits[i - 4]));
        }
        assert(line[d] == ' ');
        lemma_digits_end(line, 4, d);
        assert forall|i: int| d + 1 <= i < u implies is_capital(#[trigger] line[i]) by {
            assert(line[i] == verb[i - d - 1]);
        }
        assert(line[u] == ' ');
        lemma_capitals_end_at(line, d + 1, u);
        assert(line.subrange(0, 4) =~= "MOO/"@);
        assert(line.subrange(d + 1, u) =~= verb);
        assert(line.subrange(u + 1, line.len() as int) =~= rest);
    }
}

/// Whether a text is made of one character alone.
pub open spec fn all_are(s: Seq<char>, c: char) -> bool {
    forall|i: int| 0 <= i < s.len() ==> #[trigger] s[i] == c
}

/// A text is parted at the first separator behind something other than a separator: what stands
/// before it, without separators, and all that stands behind it.
pub proof fn text_is_parted(lead: Seq<char>, a: Seq<char>, sep: char, b: Seq<char>)
    requires
        all_are(lead, sep),
        a.len() > 0,
        !a.contains(sep),
    ensures
        parted(lead + a + seq![sep] + b, sep) == Some((a, b)),
        parted(lead + a, sep) is None,
        parted(lead, sep) is None,
{
    let s = lead + a + seq![sep] + b;
    let n = lead.len() as int;
    let m = n + a.len();
    lemma_skip_char(s, sep, 0);
    lemma_skip_char(lead + a, sep, 0);
    lemma_skip_char(lead, sep, 0);
    assert(s[n] == a[0] && (lead + a)[n] == a[0]);
    assert forall|i: int| 0 <= i < n implies s[i] == sep && (lead + a)[i] == sep by {
        assert(s[i] == lead[i] && (lead + a)[i] == lead[i]);
    }
    assert(skip_char(s, sep, 0) == n) by {
        let k = skip_char(s, sep, 0);
        if k < n {
            assert(s[k] == sep);
        }
    }
    assert(skip_char(lead + a, sep, 0) == n) by {
        let k = skip_char(lead + a, sep, 0);
        if k < n {
            assert((lead + a)[k] == sep);
        }
    }
    assert forall|i: int| n <= i < m implies s[i] != sep && (lead + a)[i] != sep by {
        assert(s[i] == a[i - n] && (lead + a)[i] == a[i - n]);
    }
    assert(s[m] == sep);
    lemma_find_char_unique(s, sep, n, m);
    lemma_find_char_unique(lead + a, sep, n, m);
    assert(s.subrange(n, m) =~= a);
    assert(s.subrange(m + 1, s.len() as int) =~= b);
    let k = skip_char(lead, sep, 0);
    if k < n {
        assert(lead[k] == sep);
    }
}

/// A header line is its name, a colon and its value, before which spaces do not count.
pub proof fn header_is_taken_apart(name: Seq<char>, spaces: Seq<char>, value: Seq<char>)
    requires
        name.len() > 0,
        !name.contains(':'),
        all_are(spaces, ' '),
        value.len() == 0 || value[0] != ' ',
    ensures
        header_line(name + seq![':'] + spaces + value) == Some((name, value)),
        header_line(name) is None,
{
    let rest = spaces + value;
    let none = Seq::<char>::empty();
    text_is_parted(none, name, ':', rest);
    assert(none + name + seq![':'] + rest =~= name + seq![':'] + spaces + value);
    assert(none + name =~= name);
    lemma_skip_char(rest, ' ', 0);
    let n = spaces.len() as int;
    let k = skip_char(rest, ' ', 0);
    if k < n {
        assert(rest[k] == spaces[k]);
    } else if k > n {
        assert(rest[n] == value[0]);
    }
    assert(rest.skip(n) =~= value);
}

/// A header is kept as what its name says, and changes nothing else: the type of the content, its
/// length, which has to be a number, the id of the request, or one of the others, by its name.
pub proof fn header_is_kept(m: MessageView, name: Seq<char>, value: Seq<char>)
    ensures
        ({
            let r = with_header(m, name, value);
            &&& name == "Content-Type"@ ==> r == Ok::<MessageView, Unreadable>(
                MessageView { content_type: Some(value), ..m },
            )
            &&& name == "Content-Length"@ ==> match unsigned_value(value) {
                Some(n) => r == Ok::<MessageView, Unreadable>(
                    MessageView { content_length: Some(n), ..m },
                ),
                None => r == Err::<MessageView, Unreadable>(Unreadable::ContentLength),
            }
            &&& name == "Request-Id"@ ==> r == Ok::<MessageView, Unreadable>(
                MessageView { request_id: Some(value), ..m },
            )
            &&& name != "Content-Type"@ && name != "Content-Length"@ && name != "Request-Id"@
                ==> r == Ok::<MessageView, Unreadable>(
                MessageView { headers: m.headers.insert(name, value), ..m },
            )
        }),
{
    reveal_strlit("Content-Type");
    reveal_strlit("Content-Length");
    reveal_strlit("Request-Id");
    assert("Content-Type"@.len() != "Content-Length"@.len());
    assert("Content-Type"@.len() != "Request-Id"@.len());
    assert("Content-Length"@.len() != "Request-Id"@.len());
}

/// Header lines are read in turn up to an empty one, behind which the documents stand, as long as
/// they are documents. Without an empty line, and with one that is no header, there is no message.
pub proof fn headers_are_read_in_turn(lines: Seq<Seq<char>>, i: int, m: MessageView)
    requires
        0 <= i <= lines.len(),
    ensures
        ({
            let r = read_headers(lines, i, m);
            &&& i == lines.len() ==> r == Ok::<Option<(MessageView, Seq<Seq<char>>)>, Unreadable>(
                None,
            )
            &&& i < lines.len() && lines[i].len() == 0 ==> {
                &&& m.content_type == Some("application/json"@) ==> r == Ok::<
                    Option<(MessageView, Seq<Seq<char>>)>,
                    Unreadable,
                >(Some((m, lines.skip(i + 1))))
                &&& m.content_type != Some("application/json"@) ==> r == Ok::<
                    Option<(MessageView, Seq<Seq<char>>)>,
                    Unreadable,
                >(Some((m, Seq::<Seq<char>>::empty())))
            }
            &&& i < lines.len() && lines[i].len() > 0 ==> match header_line(lines[i]) {
                Some((name, value)) => match with_header(m, name, value) {
                    Ok(next) => r == read_headers(lines, i + 1, next),
                    Err(e) => r == Err::<Option<(MessageView, Seq<Seq<char>>)>, Unreadable>(e),
                },
                None => r == Ok::<Option<(MessageView, Seq<Seq<char>>)>, Unreadable>(None),
            }
        }),
{
}

/// A message begins with its verb and its name. That of a request names the service, which a
/// slash parts from the name; without one there is no message.
pub proof fn message_begins_with_its_verb(line: Seq<char>)
    ensures
        match first_line(line) {
            None => begun(line) is None,
            Some((verb, rest)) => {
                &&& verb != "REQUEST"@ ==> {
                    &&& begun(line) matches Some(m)
                    &&& m.verb == verb && m.service is None && m.name == rest
                }
                &&& verb == "REQUEST"@ ==> match parted(rest, '/') {
                    Some((service, name)) => {
                        &&& begun(line) matches Some(m)
                        &&& m.verb == verb && m.service == Some(service) && m.name == name
                    },
                    None => begun(line) is None,
                }
                &&& begun(line) matches Some(m) ==> {
                    &&& m.request_id is None && m.content_type is None && m.content_length is None
                    &&& m.headers == Map::<Seq<char>, Seq<char>>::empty() && m.body is None
                }
            },
        },
{
}

/// The last of the documents of a message is its body, and nothing else changes. Where a line is
/// no document, the message cannot be read.
pub proof fn last_document_is_the_body(m: MessageView, docs: Seq<Option<JsonView>>, i: int)
    ensures
        with_documents(m, Seq::empty()) == Ok::<MessageView, Unreadable>(m),
        0 <= i < docs.len() && docs[i] is None ==> with_documents(m, docs) == Err::<
            MessageView,
            Unreadable,
        >(Unreadable::Body),
        docs.len() > 0 && (forall|k: int| 0 <= k < docs.len() ==> (#[trigger] docs[k]) is Some)
            ==> with_documents(m, docs) == Ok::<MessageView, Unreadable>(
            MessageView { body: docs[docs.len() - 1], ..m },
        ),
{
    let none = Seq::<Option<JsonView>>::empty();
    assert(!none.contains(None));
    if 0 <= i < docs.len() && docs[i] is None {
        assert(docs.contains(None));
    }
    if forall|k: int| 0 <= k < docs.len() ==> (#[trigger] docs[k]) is Some {
        assert(!docs.contains(None)) by {
            if docs.contains(None) {
                let k = choose|k: int| 0 <= k < docs.len() && docs[k] == None::<JsonView>;
                assert(docs[k] is Some);
            }
        }
    }
}

/// A message is shown with each of its parts under the name of that part, where it has it.
pub proof fn message_is_shown_as_it_is(m: MessageView, key: Seq<char>)
    ensures
        ({
            let json = message_json(m);
            &&& member(json, "verb"@) == Some(JsonView::Text(m.verb))
            &&& member(json, "name"@) == Some(JsonView::Text(m.name))
            &&& match m.service {
                Some(s) => member(json, "service"@) == Some(JsonView::Text(s)),
                None => member(json, "service"@) is None,
            }
            &&& match m.request_id {
                Some(s) => member(json, "request_id"@) == Some(JsonView::Text(s)),
                None => member(json, "request_id"@) is None,
            }
            &&& match m.content_type {
                Some(s) => member(json, "content_type"@) == Some(JsonView::Text(s)),
                None => member(json, "content_type"@) is None,
            }
            &&& match m.content_length {
                Some(n) => member(json, "content_length"@) == Some(JsonView::Int(n as int)),
                None => member(json, "content_length"@) is None,
            }
            &&& member(json, "body"@) == m.body
            &&& member(json, "headers"@) matches Some(headers)
            &&& m.headers.contains_key(key) ==> member(headers, key) == Some(
                JsonView::Text(m.headers[key]),
            )
            &&& !m.headers.contains_key(key) ==> member(headers, key) is None
        }),
{
    reveal_strlit("headers");
    reveal_strlit("service");
    reveal_strlit("name");
    reveal_strlit("verb");
    reveal_strlit("content_type");
    reveal_strlit("content_length");
    reveal_strlit("request_id");
    reveal_strlit("body");
    assert("headers"@[0] != "service"@[0]);
    assert("headers"@.len() != "name"@.len());
    assert("headers"@.len() != "verb"@.len());
    assert("headers"@.len() != "content_type"@.len());
    assert("headers"@.len() != "content_length"@.len());
    assert("headers"@.len() != "request_id"@.len());
    assert("headers"@.len() != "body"@.len());
    assert("service"@.len() != "name"@.len());
    assert("service"@.len() != "verb"@.len());
    assert("service"@.len() != "content_type"@.len());
    assert("service"@.len() != "content_length"@.len());
    assert("service"@.len() != "request_id"@.len());
    assert("service"@.len() != "body"@.len());
    assert("name"@[0] != "verb"@[0]);
    assert("name"@.len() != "content_type"@.len());
    assert("name"@.len() != "content_length"@.len());
    assert("name"@.len() != "request_id"@.len());
    assert("name"@[0] != "body"@[0]);
    assert("verb"@.len() != "content_type"@.len());
    assert("verb"@.len() != "content_length"@.len());
    assert("verb"@.len() != "request_id"@.len());
    assert("verb"@[0] != "body"@[0]);
    assert("content_type"@.len() != "content_length"@.len());
    assert("content_type"@.len() != "request_id"@.len());
    assert("content_type"@.len() != "body"@.len());
    assert("content_length"@.len() != "request_id"@.len());
    assert("content_length"@.len() != "body"@.len());
    assert("request_id"@.len() != "body"@.len());
}

/// The number of a request is the one that its id is, and the body of a message without one is
/// `null`.
pub proof fn request_has_its_number(m: MessageView, n: usize)
    ensures
        m.request_id == Some(decimal(n as nat)) ==> request_number(m) == Some(n),
        request_number(m) matches Some(k) ==> m.request_id is Some && unsigned_value(
            m.request_id->Some_0,
        ) == Some(k),
        m.request_id is None ==> request_number(m) is None,
        m.body matches Some(v) ==> body_of(m) == v,
        m.body is None ==> body_of(m) == JsonView::Null,
{
    decimal_round_trip(n);
}

} // verus!
