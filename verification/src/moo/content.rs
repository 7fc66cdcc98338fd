//! What comes with a message besides its text.

use vstd::prelude::*;
use vstd::slice::{slice_subrange, slice_to_vec};
use vstd::utf8::{
    decode_utf8, encode_utf8, encode_utf8_decode_utf8, encode_utf8_valid_utf8, valid_utf8,
};
use crate::moo::message::{
    lemma_request_has_service, read_message, MessageView, MooMessage, Unreadable,
};
use crate::moo::{is_received, ContentType, LogLevel, MooReceiver, ReceiveError, Session};
use crate::text::{same_text, utf8_text};

verus! {

/// Where the empty line ends that parts the head of a message from its content, from position
/// `from` on: at the end of the message where there is none.
pub open spec fn head_end(data: Seq<u8>, from: int) -> int
    decreases data.len() - from,
{
    if from + 1 >= data.len() {
        data.len() as int
    } else if data[from] == 10 && data[from + 1] == 10 {
        from + 2
    } else {
        head_end(data, from + 1)
    }
}

/// Whether content is what its type says of the bytes behind the head of a message.
pub open spec fn is_content(
    content: ContentType,
    content_type: Option<Seq<char>>,
    body: Seq<u8>,
) -> bool {
    if content_type == Some("application/json"@) {
        content is Json
    } else if content_type == Some("image/jpeg"@) {
        content matches ContentType::Jpeg(bytes) && bytes@ == body
    } else if content_type == Some("image/png"@) {
        content matches ContentType::Png(bytes) && bytes@ == body
    } else {
        content is Nothing
    }
}

/// Whether content of the type is an image.
pub open spec fn is_image(content_type: Option<Seq<char>>) -> bool {
    content_type == Some("image/jpeg"@) || content_type == Some("image/png"@)
}

/// The message that bytes are. Where they are no text, their head is one, as long as it is that
/// of an image.
pub open spec fn read_bytes(data: Seq<u8>) -> Result<Option<MessageView>, Unreadable> {
    if valid_utf8(data) {
        read_message(decode_utf8(data))
    } else {
        let head = data.take(head_end(data, 0));
        if valid_utf8(head) {
            match read_message(decode_utf8(head)) {
                Ok(Some(m)) => if is_image(m.content_type) {
                    Ok(Some(m))
                } else {
                    Ok(None)
                },
                _ => Ok(None),
            }
        } else {
            Ok(None)
        }
    }
}

/// A message that goes out as the bytes of its text is read as that text.
pub proof fn sent_bytes_are_read(text: Seq<char>)
    ensures
        read_bytes(encode_utf8(text)) == read_message(text),
{
    encode_utf8_valid_utf8(text);
    encode_utf8_decode_utf8(text);
}

proof fn lemma_head_end(head: Seq<u8>, body: Seq<u8>, from: int)
    requires
        0 <= from,
        from + 2 <= head.len(),
        head[head.len() - 2] == 10,
        head[head.len() - 1] == 10,
        head_end(head, from) == head.len(),
    ensures
        head_end(head + body, from) == head.len(),
    decreases head.len() - from,
{
    let data = head + body;
    assert(data[from] == head[from] && data[from + 1] == head[from + 1]);
    if from + 2 < head.len() {
        lemma_head_end(head, body, from + 1);
    }
}

/// What stands behind the first empty line of a message is its content, whatever bytes it is
/// made of.
pub proof fn content_is_behind_head(head: Seq<u8>, body: Seq<u8>)
    requires
        head.len() >= 2,
        head[head.len() - 2] == 10,
        head[head.len() - 1] == 10,
        head_end(head, 0) == head.len(),
    ensures
        (head + body).take(head_end(head + body, 0)) == head,
        (head + body).skip(head_end(head + body, 0)) == body,
{
    lemma_head_end(head, body, 0);
    assert((head + body).take(head.len() as int) =~= head);
    assert((head + body).skip(head.len() as int) =~= body);
}

/// Finds where the head of a message ends.
fn find_head_end(data: &[u8]) -> (r: usize)
    ensures
        r == head_end(data@, 0),
        r <= data@.len(),
{
    let len = data.len();
    let mut i: usize = 0;
    while i < len && len - i > 1
        invariant
            len == data@.len(),
            i <= len,
            head_end(data@, 0) == head_end(data@, i as int),
        decreases len - i,
    {
        if data[i] == 10 && data[i + 1] == 10 {
            return i + 2;
        }
        i += 1;
    }
    len
}

/// Whether the type of the content of a message is the given one.
fn has_type(m: &MooMessage, content_type: &str) -> (r: bool)
    ensures
        r == (m@.content_type == Some(content_type@)),
{
    match &m.content_type {
        Some(t) => same_text(t.as_str(), content_type),
        None => false,
    }
}

/// The content of a message, which stands behind its head.
pub fn content_of(m: &MooMessage, body: &[u8]) -> (r: ContentType)
    ensures
        is_content(r, m@.content_type, body@),
{
    if has_type(m, "application/json") {
        ContentType::Json
    } else if has_type(m, "image/jpeg") {
        ContentType::Jpeg(slice_to_vec(body))
    } else if has_type(m, "image/png") {
        ContentType::Png(slice_to_vec(body))
    } else {
        ContentType::Nothing
    }
}

/// Whether the type of the content of a message is that of an image.
fn is_image_message(m: &MooMessage) -> (r: bool)
    ensures
        r == is_image(m@.content_type),
{
    has_type(m, "image/jpeg") || has_type(m, "image/png")
}

/// Reads the message that bytes are, of which the head ends at `end`.
fn parse_bytes(data: &[u8], end: usize) -> (r: Result<Option<MooMessage>, Unreadable>)
    requires
        end == head_end(data@, 0),
        end <= data@.len(),
    ensures
        match r {
            Ok(Some(m)) => {
                &&& read_bytes(data@) == Ok::<Option<MessageView>, Unreadable>(Some(m@))
                &&& m@.verb == "REQUEST"@ ==> m@.service is Some
            },
            Ok(None) => read_bytes(data@) == Ok::<Option<MessageView>, Unreadable>(None),
            Err(e) => read_bytes(data@) == Err::<Option<MessageView>, Unreadable>(e),
        },
{
    if let Some(text) = utf8_text(data) {
        proof {
            lemma_request_has_service(text@);
        }
        return MooMessage::parse(text);
    }
    let head = slice_subrange(data, 0, end);
    assert(head@ =~= data@.take(end as int));
    match utf8_text(head) {
        Some(text) => {
            proof {
                lemma_request_has_service(text@);
            }
            match MooMessage::parse(text) {
                Ok(Some(m)) => if is_image_message(&m) {
                    Ok(Some(m))
                } else {
                    Ok(None)
                },
                _ => Ok(None),
            }
        },
        None => Ok(None),
    }
}

/// Whether a message is received with its content.
pub open spec fn is_received_with(
    r: Result<(MooMessage, ContentType, Option<String>), ReceiveError>,
    level: LogLevel,
    before: Session,
    after: Session,
    data: Seq<u8>,
) -> bool {
    match r {
        Ok((m, content, log)) => {
            &&& is_received(Ok((m, log)), level, before, after, read_bytes(data))
            &&& is_content(content, m@.content_type, data.skip(head_end(data, 0)))
        },
        Err(e) => is_received(Err(e), level, before, after, read_bytes(data)),
    }
}

impl MooReceiver {
    /// Receives a message as the bytes that came in: gives it with its content and the line to
    /// log for it.
    pub fn receive_bytes(&self, session: &mut Session, data: &[u8]) -> (r: Result<
        (MooMessage, ContentType, Option<String>),
        ReceiveError,
    >)
        ensures
            is_received_with(r, self.log_level, *old(session), *final(session), data@),
    {
        let end = find_head_end(data);
        let m = match parse_bytes(data, end) {
            Ok(Some(m)) => m,
            Ok(None) => {
                return Err(ReceiveError::ConnectionClosed);
            },
            Err(e) => {
                return Err(ReceiveError::Unreadable(e));
            },
        };
        let body = slice_subrange(data, end, data.len());
        assert(body@ =~= data@.skip(end as int));
        let content = content_of(&m, body);
        match self.receive_message(session, m) {
            Ok((m, log)) => Ok((m, content, log)),
            Err(e) => Err(e),
        }
    }
}

/// The head of a message ends behind its first empty line, and where it has none, with the
/// message.
pub proof fn head_ends_behind_an_empty_line(data: Seq<u8>, from: int)
    requires
        0 <= from <= data.len(),
    ensures
        ({
            let end = head_end(data, from);
            &&& from <= end <= data.len()
            &&& forall|i: int|
                from <= i < end - 2 ==> !(#[trigger] data[i] == 10 && data[i + 1] == 10)
            &&& end < data.len() ==> end >= from + 2 && data[end - 2] == 10 && data[end - 1] == 10
        }),
    decreases data.len() - from,
{
    if from + 1 < data.len() && !(data[from] == 10 && data[from + 1] == 10) {
        head_ends_behind_an_empty_line(data, from + 1);
    }
}

/// The bytes behind the head of a message are what its type says: an image of one of two formats,
/// with all of them. A document is read with the message, and of another type nothing is kept.
pub proof fn content_is_what_its_type_says(
    content: ContentType,
    content_type: Option<Seq<char>>,
    body: Seq<u8>,
)
    requires
        is_content(content, content_type, body),
    ensures
        content is Json <==> content_type == Some("application/json"@),
        content is Jpeg <==> content_type == Some("image/jpeg"@),
        content is Png <==> content_type == Some("image/png"@),
        content matches ContentType::Jpeg(bytes) ==> bytes@ == body,
        content matches ContentType::Png(bytes) ==> bytes@ == body,
{
    reveal_strlit("application/json");
    reveal_strlit("image/jpeg");
    reveal_strlit("image/png");
    assert("application/json"@.len() != "image/jpeg"@.len());
    assert("application/json"@.len() != "image/png"@.len());
    assert("image/jpeg"@.len() != "image/png"@.len());
}

/// Bytes that are no text are a message only where their head is the text of one whose content is
/// an image. Then they are that message.
pub proof fn image_is_read_behind_its_head(data: Seq<u8>, head: Seq<u8>)
    requires
        !valid_utf8(data),
        head == data.take(head_end(data, 0)),
    ensures
        read_bytes(data) matches Ok(Some(_)) <==> (valid_utf8(head) && (read_message(
            decode_utf8(head),
        ) matches Ok(Some(n)) && (n.content_type == Some("image/jpeg"@) || n.content_type == Some(
            "image/png"@,
        )))),
        read_bytes(data) matches Ok(Some(m)) ==> read_message(decode_utf8(head)) == Ok::<
            Option<MessageView>,
            Unreadable,
        >(Some(m)),
        read_bytes(data) is Ok,
{
}

} // verus!
