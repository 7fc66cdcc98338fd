//! Messages as they go out, and what is read from them.

use vstd::prelude::*;
use vstd::utf8::encode_utf8;
use crate::json::JsonView;
use crate::json_text::parsed_json;
use crate::moo::message::{
    begun, capitals_end, digits_end, document_lines, documents, first_line, header_line,
    is_capital, read_head, read_headers, read_message, request_target, with_documents, MessageView,
    Unreadable,
};
use crate::text::{
    all_digits, decimal, decimal_round_trip, is_digit, lemma_decimal_digits,
    lemma_find_char_unique, lemma_split_at, lemma_split_last, skip_char, split, to_decimal,
};

verus! {

/// The first two lines of a message.
pub open spec fn head_text(req_id: nat, action: Seq<char>, state: Seq<char>) -> Seq<char> {
    "MOO/1 "@ + action + " "@ + state + "\nRequest-Id: "@ + decimal(req_id) + "\n"@
}

/// A message as it goes out: its first line, the request id and, where there is a body, the
/// length and the type of the body and, behind an empty line, the body itself.
pub open spec fn frame(
    req_id: nat,
    action: Seq<char>,
    state: Seq<char>,
    body: Option<Seq<char>>,
) -> Seq<char> {
    match body {
        Some(text) => head_text(req_id, action, state) + "Content-Length: "@ + decimal(
            encode_utf8(text).len(),
        ) + "\nContent-Type: application/json\n\n"@ + text,
        None => head_text(req_id, action, state) + "\n"@,
    }
}

/// The line that is logged for a message that goes out.
pub open spec fn sent_line(
    req_id: nat,
    action: Seq<char>,
    state: Seq<char>,
    body: Option<Seq<char>>,
) -> Seq<char> {
    "-> "@ + action + " "@ + decimal(req_id) + " "@ + state + match body {
        Some(text) => " "@ + text,
        None => Seq::empty(),
    }
}

/// Writes a message whose body has the text `body`, and the line that is logged for it.
pub fn write_frame(req_id: usize, action: &str, state: &str, body: Option<&str>) -> (r: (
    String,
    String,
))
    ensures
        r.0@ == frame(
            req_id as nat,
            action@,
            state@,
            match body {
                Some(text) => Some(text@),
                None => None,
            },
        ),
        r.1@ == sent_line(
            req_id as nat,
            action@,
            state@,
            match body {
                Some(text) => Some(text@),
                None => None,
            },
        ),
        body matches Some(text) ==> encode_utf8(text@).len() <= usize::MAX,
{
    let id = to_decimal(req_id);
    let mut msg = "MOO/1 ".to_owned();
    msg.append(action);
    msg.append(" ");
    msg.append(state);
    msg.append("\nRequest-Id: ");
    msg.append(id.as_str());
    msg.append("\n");
    let mut log = "-> ".to_owned();
    log.append(action);
    log.append(" ");
    log.append(id.as_str());
    log.append(" ");
    log.append(state);
    match body {
        Some(text) => {
            log.append(" ");
            log.append(text);
            assert(log@ =~= sent_line(req_id as nat, action@, state@, Some(text@)));
            let len = text.as_bytes().len();
            let digits = to_decimal(len);
            msg.append("Content-Length: ");
            msg.append(digits.as_str());
            msg.append("\nContent-Type: application/json\n\n");
            msg.append(text);
        },
        None => {
            assert(log@ =~= sent_line(req_id as nat, action@, state@, None));
            msg.append("\n");
        },
    }
    (msg, log)
}

/// Whether a message can be read back: the action is made of capital letters, the state stands
/// on one line, and that of a request names a service.
pub open spec fn readable(action: Seq<char>, state: Seq<char>) -> bool {
    &&& action.len() > 0
    &&& forall|i: int| 0 <= i < action.len() ==> is_capital(#[trigger] action[i])
    &&& !state.contains('\n')
    &&& action == "REQUEST"@ ==> request_target(state) is Some
}

/// What the reader of a message gets of it, but for the document in its body, which has the text
/// `body`.
pub open spec fn sent_head(
    req_id: nat,
    action: Seq<char>,
    state: Seq<char>,
    body: Option<Seq<char>>,
) -> MessageView {
    MessageView {
        verb: action,
        service: if action == "REQUEST"@ {
            Some(request_target(state)->Some_0.0)
        } else {
            None
        },
        name: if action == "REQUEST"@ {
            request_target(state)->Some_0.1
        } else {
            state
        },
        request_id: Some(decimal(req_id)),
        content_type: match body {
            Some(_) => Some("application/json"@),
            None => None,
        },
        content_length: match body {
            Some(text) => Some(encode_utf8(text).len() as usize),
            None => None,
        },
        headers: Map::empty(),
        body: None,
    }
}

/// The text of an optional body.
pub open spec fn text_part(body: Option<(Seq<char>, JsonView)>) -> Option<Seq<char>> {
    match body {
        Some((text, _)) => Some(text),
        None => None,
    }
}

/// What the reader of a message gets of it.
pub open spec fn sent_message(
    req_id: nat,
    action: Seq<char>,
    state: Seq<char>,
    body: Option<(Seq<char>, JsonView)>,
) -> MessageView {
    MessageView {
        body: match body {
            Some((_, v)) => Some(v),
            None => None,
        },
        ..sent_head(req_id, action, state, text_part(body))
    }
}

/// The line on which the body of a message stands, where it has one.
pub open spec fn body_lines(body: Option<Seq<char>>) -> Seq<Seq<char>> {
    match body {
        Some(text) => seq![text],
        None => Seq::empty(),
    }
}

/// A text that begins with a line and its line break is split into that line and the lines of
/// what follows.
proof fn lemma_split_line(line: Seq<char>, rest: Seq<char>)
    requires
        !line.contains('\n'),
    ensures
        split(line + "\n"@ + rest, '\n') == seq![line] + split(rest, '\n'),
{
    reveal_strlit("\n");
    assert("\n"@ =~= seq!['\n']);
    lemma_split_at(line, '\n', rest);
}

proof fn lemma_no_break(s: Seq<char>)
    requires
        all_digits(s),
    ensures
        !s.contains('\n'),
{
    assert forall|i: int| 0 <= i < s.len() implies s[i] != '\n' by {
        assert(is_digit(s[i]));
    }
}

spec fn first_text(action: Seq<char>, state: Seq<char>) -> Seq<char> {
    "MOO/1 "@ + action + " "@ + state
}

spec fn id_text(req_id: nat) -> Seq<char> {
    "Request-Id: "@ + decimal(req_id)
}

spec fn length_text(text: Seq<char>) -> Seq<char> {
    "Content-Length: "@ + decimal(encode_utf8(text).len())
}

spec fn frame_lines(
    req_id: nat,
    action: Seq<char>,
    state: Seq<char>,
    body: Option<Seq<char>>,
) -> Seq<Seq<char>> {
    match body {
        Some(text) => seq![
            first_text(action, state),
            id_text(req_id),
            length_text(text),
            "Content-Type: application/json"@,
            Seq::empty(),
            text,
        ],
        None => seq![
            first_text(action, state),
            id_text(req_id),
            Seq::empty(),
            Seq::empty(),
        ],
    }
}

proof fn lemma_head_lines(req_id: nat, action: Seq<char>, state: Seq<char>, rest: Seq<char>)
    requires
        readable(action, state),
    ensures
        split(head_text(req_id, action, state) + rest, '\n') == seq![
            first_text(action, state),
            id_text(req_id),
        ] + split(rest, '\n'),
{
    reveal_strlit("MOO/1 ");
    reveal_strlit(" ");
    reveal_strlit("\n");
    reveal_strlit("\nRequest-Id: ");
    reveal_strlit("Request-Id: ");
    lemma_decimal_digits(req_id);
    lemma_no_break(decimal(req_id));
    let first = first_text(action, state);
    let id = id_text(req_id);
    assert(!first.contains('\n')) by {
        assert forall|i: int| 0 <= i < first.len() implies first[i] != '\n' by {
            if 6 <= i < 6 + action.len() {
                assert(first[i] == action[i - 6]);
                assert(is_capital(action[i - 6]));
            } else if i > 6 + action.len() {
                assert(first[i] == state[i - 7 - action.len()]);
            }
        }
    }
    assert(!id.contains('\n')) by {
        assert forall|i: int| 0 <= i < id.len() implies id[i] != '\n' by {
            if i >= 12 {
                assert(id[i] == decimal(req_id)[i - 12]);
            }
        }
    }
    let tail = id + "\n"@ + rest;
    assert(head_text(req_id, action, state) + rest =~= first + "\n"@ + tail);
    lemma_split_line(first, tail);
    lemma_split_line(id, rest);
    assert(seq![first] + (seq![id] + split(rest, '\n')) =~= seq![first, id] + split(rest, '\n'));
}

proof fn lemma_frame_lines(
    req_id: nat,
    action: Seq<char>,
    state: Seq<char>,
    body: Option<Seq<char>>,
)
    requires
        readable(action, state),
        body matches Some(text) ==> !text.contains('\n'),
    ensures
        split(frame(req_id, action, state, body), '\n') == frame_lines(
            req_id,
            action,
            state,
            body,
        ),
{
    reveal_strlit("\n");
    let empty = Seq::<char>::empty();
    lemma_split_last(empty, '\n');
    match body {
        Some(text) => {
            reveal_strlit("Content-Length: ");
            reveal_strlit("Content-Type: application/json");
            reveal_strlit("\nContent-Type: application/json\n\n");
            let len = encode_utf8(text).len();
            lemma_decimal_digits(len);
            lemma_no_break(decimal(len));
            let length = length_text(text);
            let kind = "Content-Type: application/json"@;
            assert(!length.contains('\n')) by {
                assert forall|i: int| 0 <= i < length.len() implies length[i] != '\n' by {
                    if i >= 16 {
                        assert(length[i] == decimal(len)[i - 16]);
                    }
                }
            }
            let after_empty = empty + "\n"@ + text;
            let after_kind = kind + "\n"@ + after_empty;
            let rest = length + "\n"@ + after_kind;
            assert(frame(req_id, action, state, body) =~= head_text(req_id, action, state) + rest);
            lemma_head_lines(req_id, action, state, rest);
            lemma_split_line(length, after_kind);
            lemma_split_line(kind, after_empty);
            lemma_split_line(empty, text);
            lemma_split_last(text, '\n');
            assert(split(frame(req_id, action, state, body), '\n') =~= frame_lines(
                req_id,
                action,
                state,
                body,
            ));
        },
        None => {
            let rest = empty + "\n"@ + empty;
            assert(frame(req_id, action, state, body) =~= head_text(req_id, action, state) + rest);
            lemma_head_lines(req_id, action, state, rest);
            lemma_split_line(empty, empty);
            assert(split(frame(req_id, action, state, body), '\n') =~= frame_lines(
                req_id,
                action,
                state,
                body,
            ));
        },
    }
}

proof fn lemma_capitals_end(s: Seq<char>, from: int, end: int)
    requires
        0 <= from <= end < s.len(),
        forall|i: int| from <= i < end ==> is_capital(#[trigger] s[i]),
        !is_capital(s[end]),
    ensures
        capitals_end(s, from) == end,
    decreases end - from,
{
    if from < end {
        assert(is_capital(s[from]));
        lemma_capitals_end(s, from + 1, end);
    }
}

proof fn lemma_first_line(action: Seq<char>, state: Seq<char>)
    requires
        readable(action, state),
    ensures
        first_line(first_text(action, state)) == Some((action, state)),
{
    reveal_strlit("MOO/1 ");
    reveal_strlit("MOO/");
    reveal_strlit(" ");
    let line = first_text(action, state);
    let end = 6 + action.len() as int;
    assert(line.subrange(0, 4) =~= "MOO/"@);
    assert(line[4] == '1' && line[5] == ' ');
    assert(digits_end(line, 5) == 5);
    assert(digits_end(line, 4) == 5);
    assert forall|i: int| 6 <= i < end implies is_capital(#[trigger] line[i]) by {
        assert(line[i] == action[i - 6]);
    }
    assert(line[end] == ' ');
    lemma_capitals_end(line, 6, end);
    assert(line.subrange(6, end) =~= action);
    assert(line.subrange(end + 1, line.len() as int) =~= state);
}

/// A header line reads as its name and its value.
proof fn lemma_header_line(line: Seq<char>, name: Seq<char>, value: Seq<char>)
    requires
        line == name + ": "@ + value,
        name.len() > 0,
        !name.contains(':'),
        value.len() > 0,
        value[0] != ' ',
    ensures
        header_line(line) == Some((name, value)),
{
    reveal_strlit(": ");
    let at = name.len() as int;
    assert forall|i: int| 0 <= i < at implies line[i] != ':' by {
        assert(line[i] == name[i]);
    }
    assert(line[0] != ':');
    assert(skip_char(line, ':', 0) == 0);
    assert(line[at] == ':');
    lemma_find_char_unique(line, ':', 0, at);
    assert(line.subrange(0, at) =~= name);
    let rest = line.subrange(at + 1, line.len() as int);
    assert(rest =~= " "@ + value) by {
        reveal_strlit(" ");
    }
    assert(rest[0] == ' ') by {
        reveal_strlit(" ");
    }
    assert(rest[1] == value[0]) by {
        reveal_strlit(" ");
    }
    assert(skip_char(rest, ' ', 1) == 1);
    assert(skip_char(rest, ' ', 0) == 1);
    assert(rest.skip(1) =~= value);
}

proof fn lemma_id_line(req_id: nat)
    ensures
        header_line(id_text(req_id)) == Some(("Request-Id"@, decimal(req_id))),
{
    reveal_strlit("Request-Id: ");
    reveal_strlit("Request-Id");
    reveal_strlit(": ");
    lemma_decimal_digits(req_id);
    assert(is_digit(decimal(req_id)[0]));
    assert(id_text(req_id) =~= "Request-Id"@ + ": "@ + decimal(req_id));
    lemma_header_line(id_text(req_id), "Request-Id"@, decimal(req_id));
}

proof fn lemma_length_line(text: Seq<char>)
    ensures
        header_line(length_text(text)) == Some(
            ("Content-Length"@, decimal(encode_utf8(text).len())),
        ),
{
    reveal_strlit("Content-Length: ");
    reveal_strlit("Content-Length");
    reveal_strlit(": ");
    let len = encode_utf8(text).len();
    lemma_decimal_digits(len);
    assert(is_digit(decimal(len)[0]));
    assert(length_text(text) =~= "Content-Length"@ + ": "@ + decimal(len));
    lemma_header_line(length_text(text), "Content-Length"@, decimal(len));
}

proof fn lemma_type_line()
    ensures
        header_line("Content-Type: application/json"@) == Some(
            ("Content-Type"@, "application/json"@),
        ),
{
    reveal_strlit("Content-Type: application/json");
    reveal_strlit("Content-Type");
    reveal_strlit("application/json");
    reveal_strlit(": ");
    assert("Content-Type: application/json"@ =~= "Content-Type"@ + ": "@ + "application/json"@);
    lemma_header_line(
        "Content-Type: application/json"@,
        "Content-Type"@,
        "application/json"@,
    );
}

/// The head of a message is read as it was written, and its body is found on the line behind it.
pub proof fn head_reads_back(
    req_id: usize,
    action: Seq<char>,
    state: Seq<char>,
    body: Option<Seq<char>>,
)
    requires
        readable(action, state),
        body matches Some(text) ==> {
            &&& !text.contains('\n')
            &&& encode_utf8(text).len() <= usize::MAX
        },
    ensures
        read_head(frame(req_id as nat, action, state, body)) == Ok::<
            Option<(MessageView, Seq<Seq<char>>)>,
            Unreadable,
        >(Some((sent_head(req_id as nat, action, state, body), body_lines(body)))),
{
    let n = req_id as nat;
    let data = frame(n, action, state, body);
    let lines = frame_lines(n, action, state, body);
    lemma_frame_lines(n, action, state, body);
    lemma_first_line(action, state);
    let first = begun(lines[0])->Some_0;
    assert(begun(lines[0]) is Some);
    reveal_strlit("Request-Id");
    reveal_strlit("Content-Length");
    reveal_strlit("Content-Type");
    assert("Request-Id"@.len() != "Content-Length"@.len());
    assert("Request-Id"@.len() != "Content-Type"@.len());
    assert("Content-Type"@.len() != "Content-Length"@.len());
    lemma_id_line(n);
    lemma_decimal_digits(n);
    let m1 = MessageView { request_id: Some(decimal(n)), ..first };
    assert(lines[1].len() > 0) by {
        reveal_strlit("Request-Id: ");
    }
    assert(read_head(data) == read_headers(lines, 2, m1));
    match body {
        Some(text) => {
            let len = encode_utf8(text).len() as usize;
            lemma_length_line(text);
            decimal_round_trip(len);
            lemma_type_line();
            reveal_strlit("Content-Length: ");
            reveal_strlit("Content-Type: application/json");
            let m2 = MessageView { content_length: Some(len), ..m1 };
            let m3 = MessageView { content_type: Some("application/json"@), ..m2 };
            assert(read_headers(lines, 2, m1) == read_headers(lines, 3, m2));
            assert(read_headers(lines, 3, m2) == read_headers(lines, 4, m3));
            assert(lines.skip(5) =~= seq![text]);
        },
        None => {
            assert(document_lines(lines, 3, m1) =~= Seq::<Seq<char>>::empty());
        },
    }
}

/// What is read from a message is what was written into it.
///
/// The body has to stand on one line and to be a document.
pub proof fn frame_reads_back(
    req_id: usize,
    action: Seq<char>,
    state: Seq<char>,
    body: Option<(Seq<char>, JsonView)>,
)
    requires
        readable(action, state),
        body matches Some((text, v)) ==> {
            &&& !text.contains('\n')
            &&& encode_utf8(text).len() <= usize::MAX
            &&& parsed_json(text) == Some(v)
        },
    ensures
        read_message(frame(req_id as nat, action, state, text_part(body))) == Ok::<
            Option<MessageView>,
            Unreadable,
        >(Some(sent_message(req_id as nat, action, state, body))),
{
    head_reads_back(req_id, action, state, text_part(body));
    match body {
        Some((text, v)) => {
            assert(documents(seq![text]) =~= seq![Some(v)]);
            assert(!seq![Some(v)].contains(None));
        },
        None => {
            assert(documents(Seq::empty()) =~= Seq::<Option<JsonView>>::empty());
            assert(!documents(Seq::empty()).contains(None));
        },
    }
}

/// A message goes out as its first line with the version of the protocol, its action and its
/// state, a line with the id of its request, and, where it has a body, a line with the length of
/// the body in bytes, one with its type, an empty line, and the body.
pub proof fn frame_has_its_lines(
    req_id: nat,
    action: Seq<char>,
    state: Seq<char>,
    body: Option<Seq<char>>,
)
    requires
        readable(action, state),
        body matches Some(text) ==> !text.contains('\n'),
    ensures
        split(frame(req_id, action, state, body), '\n') == match body {
            Some(text) => seq![
                "MOO/1 "@ + action + " "@ + state,
                "Request-Id: "@ + decimal(req_id),
                "Content-Length: "@ + decimal(encode_utf8(text).len()),
                "Content-Type: application/json"@,
                Seq::<char>::empty(),
                text,
            ],
            None => seq![
                "MOO/1 "@ + action + " "@ + state,
                "Request-Id: "@ + decimal(req_id),
                Seq::<char>::empty(),
                Seq::<char>::empty(),
            ],
        },
{
    lemma_frame_lines(req_id, action, state, body);
}

/// The line that is logged for a message that goes out has an arrow, its action, the id of its
/// request and its state, and then its body.
pub proof fn sent_line_has_its_parts(
    req_id: nat,
    action: Seq<char>,
    state: Seq<char>,
    text: Seq<char>,
)
    requires
        !action.contains(' '),
        !state.contains(' '),
    ensures
        split(sent_line(req_id, action, state, None), ' ') == seq![
            "->"@,
            action,
            decimal(req_id),
            state,
        ],
        split(sent_line(req_id, action, state, Some(text)), ' ') == seq![
            "->"@,
            action,
            decimal(req_id),
            state,
        ] + split(text, ' '),
{
    reveal_strlit("-> ");
    reveal_strlit("->");
    reveal_strlit(" ");
    lemma_decimal_digits(req_id);
    let id = decimal(req_id);
    assert(!id.contains(' ')) by {
        assert forall|i: int| 0 <= i < id.len() implies id[i] != ' ' by {
            assert(is_digit(id[i]));
        }
    }
    let arrow = "->"@;
    assert(!arrow.contains(' '));
    let sep = seq![' '];
    let tail = state + sep + text;
    let plain = sent_line(req_id, action, state, None);
    let full = sent_line(req_id, action, state, Some(text));
    assert(plain =~= arrow + sep + (action + sep + (id + sep + state)));
    assert(full =~= arrow + sep + (action + sep + (id + sep + tail)));
    lemma_split_at(arrow, ' ', action + sep + (id + sep + state));
    lemma_split_at(action, ' ', id + sep + state);
    lemma_split_at(id, ' ', state);
    lemma_split_last(state, ' ');
    lemma_split_at(arrow, ' ', action + sep + (id + sep + tail));
    lemma_split_at(action, ' ', id + sep + tail);
    lemma_split_at(id, ' ', tail);
    lemma_split_at(state, ' ', text);
    assert(split(plain, ' ') =~= seq![arrow, action, id, state]);
    assert(split(full, ' ') =~= seq![arrow, action, id, state] + split(text, ' '));
}

} // verus!
