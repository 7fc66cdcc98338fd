//! What an answer of a core says to the user.

use vstd::prelude::*;
use crate::browse::{answer_says_its_result, browse_answer, BrowseResult, LoadResult};
use crate::cores::{CoreEvent, Services};
use crate::hub::{Event, Hub};
use crate::image::{found_image_is_pending, is_image_answer, pending_at};
use crate::json::{Json, JsonView};
use crate::moo::message::{body_of, message_json, request_number, MessageView, MooMessage};
use crate::moo::ContentType;
use crate::parsed::Parsed;
use crate::transport::{sections_of, sections_view, Section, SectionKind};

verus! {

broadcast use vstd::std_specs::hash::group_hash_axioms;

/// Whether an event says no more than what a message says, beside a document.
pub open spec fn says(event: Event, document: JsonView, parsed: Parsed) -> bool {
    event matches (CoreEvent::Nothing, Some((told, said))) && told@ == document && said == parsed
}

/// Whether an image, or why there is none, comes of an answer.
pub open spec fn image_speaks(name: Seq<char>, content: ContentType) -> bool {
    name == "UnexpectedError"@ || content is Jpeg || content is Png
}

/// What the parts of an answer say, from position `k` of the events on: the last part comes
/// first, with the answer, and the others follow it.
pub open spec fn parts_say(
    events: Seq<Event>,
    k: int,
    list: Seq<Parsed>,
    document: JsonView,
) -> bool {
    &&& k + list.len() == events.len()
    &&& forall|j: int|
        0 <= j < list.len() ==> says(
            #[trigger] events[k + j],
            if j == 0 {
                document
            } else {
                JsonView::Null
            },
            list[list.len() - 1 - j],
        )
}

/// Whether a list is the same from position `i` on.
pub open spec fn same_from(before: Seq<Services>, after: Seq<Services>, i: int) -> bool {
    forall|j: int| i <= j < before.len() ==> #[trigger] after[j] == before[j]
}

/// What the services of a list make of an answer, from position `i` on: the events from position
/// `k` on, and the services after it. `decoded` holds for each service what the parts of the
/// answer are, where all of them could be read.
///
/// The services are asked in turn. With a part of the playback, or with a step through the
/// lists of the core, the others are not asked any more.
pub open spec fn responded(
    before: Seq<Services>,
    after: Seq<Services>,
    i: int,
    m: MessageView,
    content: ContentType,
    decoded: Seq<Option<Vec<Parsed>>>,
    browse: Option<BrowseResult>,
    load: Option<LoadResult>,
    events: Seq<Event>,
    k: int,
) -> bool
    decreases before.len() - i,
{
    if i >= before.len() {
        k == events.len()
    } else {
        let req_id = request_number(m)->Some_0;
        let rest = decoded.skip(1);
        match before[i] {
            Services::Transport(_) => {
                &&& after[i] == before[i]
                &&& match decoded[0] {
                    Some(list) => if list@.len() > 0 {
                        parts_say(events, k, list@, message_json(m)) && same_from(
                            before,
                            after,
                            i + 1,
                        )
                    } else {
                        responded(
                            before,
                            after,
                            i + 1,
                            m,
                            content,
                            rest,
                            browse,
                            load,
                            events,
                            k,
                        )
                    },
                    None => {
                        &&& events.len() == k + 1
                        &&& says(events[k], message_json(m), Parsed::Nothing)
                        &&& same_from(before, after, i + 1)
                    },
                }
            },
            Services::Browse(b) => {
                let keys = b.session_keys@;
                let parsed = if keys.contains_key(req_id) {
                    browse_answer(m.name, req_id, keys[req_id], browse, load)
                } else {
                    Parsed::Nothing
                };
                &&& after[i] matches Services::Browse(left)
                &&& left.moo == b.moo
                &&& left.session_keys@ == keys.remove(req_id)
                &&& if parsed is Nothing {
                    responded(before, after, i + 1, m, content, rest, browse, load, events, k)
                } else {
                    &&& events.len() == k + 1
                    &&& says(events[k], message_json(m), parsed)
                    &&& same_from(before, after, i + 1)
                }
            },
            Services::Image(image) => {
                let keys = image.pending.keys();
                let p = pending_at(keys, image.pending@, req_id, 0);
                &&& after[i] matches Services::Image(left)
                &&& left.moo == image.moo
                &&& if p < keys.len() {
                    &&& left.pending@ == image.pending@.remove(keys[p])
                    &&& if image_speaks(m.name, content) {
                        &&& k < events.len()
                        &&& events[k] matches (CoreEvent::Nothing, Some((told, said)))
                        &&& told@ == JsonView::Null
                        &&& is_image_answer(Some(said), m.name, req_id, keys[p], content)
                        &&& responded(
                            before,
                            after,
                            i + 1,
                            m,
                            content,
                            rest,
                            browse,
                            load,
                            events,
                            k + 1,
                        )
                    } else {
                        responded(before, after, i + 1, m, content, rest, browse, load, events, k)
                    }
                } else {
                    &&& left.pending@ == image.pending@
                    &&& responded(before, after, i + 1, m, content, rest, browse, load, events, k)
                }
            },
            _ => {
                &&& after[i] == before[i]
                &&& responded(before, after, i + 1, m, content, rest, browse, load, events, k)
            },
        }
    }
}

/// Turns the parts of an answer into events, the last part first.
fn say_parts(list: Vec<Parsed>, msg: &MooMessage, events: &mut Vec<Event>)
    ensures
        final(events)@.len() == old(events)@.len() + list@.len(),
        final(events)@.take(old(events)@.len() as int) == old(events)@,
        parts_say(final(events)@, old(events)@.len() as int, list@, message_json(msg@)),
{
    let ghost all = list@;
    let ghost before = events@;
    let ghost k = events@.len() as int;
    let mut list = list;
    let mut first = true;
    while list.len() > 0
        invariant
            k == before.len(),
            list@.len() <= all.len(),
            list@ == all.take(list@.len() as int),
            first == (list@.len() == all.len()),
            events@.len() == k + all.len() - list@.len(),
            events@.take(k) == before,
            forall|j: int|
                0 <= j < all.len() - list@.len() ==> says(
                    #[trigger] events@[k + j],
                    if j == 0 {
                        message_json(msg@)
                    } else {
                        JsonView::Null
                    },
                    all[all.len() - 1 - j],
                ),
        decreases list@.len(),
    {
        let ghost now = events@;
        let ghost left = list@;
        if let Some(item) = list.pop() {
            let document = if first {
                msg.to_json()
            } else {
                Json::Null
            };
            events.push((CoreEvent::Nothing, Some((document, item))));
            first = false;
            proof {
                assert(item == all[left.len() - 1]);
                assert(events@.take(k) =~= now.take(k));
                assert(list@ =~= all.take(list@.len() as int));
                assert forall|j: int| 0 <= j < all.len() - list@.len() implies says(
                    #[trigger] events@[k + j],
                    if j == 0 {
                        message_json(msg@)
                    } else {
                        JsonView::Null
                    },
                    all[all.len() - 1 - j],
                ) by {
                    if j < all.len() - left.len() {
                        assert(events@[k + j] == now[k + j]);
                    }
                }
            }
        }
    }
}

/// Asks the services of a list for what they make of an answer, from position `i` on.
fn respond_from(
    list: &mut Vec<Services>,
    i: usize,
    msg: &MooMessage,
    content: &ContentType,
    decoded: Vec<Option<Vec<Parsed>>>,
    browse: Option<BrowseResult>,
    load: Option<LoadResult>,
    events: &mut Vec<Event>,
)
    requires
        i <= old(list)@.len(),
        decoded@.len() == old(list)@.len() - i,
        request_number(msg@) is Some,
    ensures
        final(list)@.len() == old(list)@.len(),
        forall|j: int| 0 <= j < i ==> #[trigger] final(list)@[j] == old(list)@[j],
        old(events)@.len() <= final(events)@.len(),
        final(events)@.take(old(events)@.len() as int) == old(events)@,
        responded(
            old(list)@,
            final(list)@,
            i as int,
            msg@,
            *content,
            decoded@,
            browse,
            load,
            final(events)@,
            old(events)@.len() as int,
        ),
    decreases old(list)@.len() - i,
{
    let ghost before = list@;
    let ghost told = events@;
    let ghost k = events@.len() as int;
    let ghost all = decoded@;
    if i >= list.len() {
        assert(events@.take(k) =~= told);
        return;
    }
    let req_id = match msg.request_number() {
        Some(n) => n,
        None => {
            return;
        },
    };
    let mut decoded = decoded;
    let mine = decoded.remove(0);
    assert(decoded@ =~= all.skip(1));
    let mut browse = browse;
    let mut load = load;
    let ghost (browse0, load0) = (browse, load);
    match &mut list[i] {
        Services::Transport(_) => match mine {
            Some(parts) => {
                if parts.len() > 0 {
                    say_parts(parts, msg, events);
                    return;
                }
            },
            None => {
                events.push((CoreEvent::Nothing, Some((msg.to_json(), Parsed::Nothing))));
                assert(events@.take(k) =~= told);
                return;
            },
        },
        Services::Browse(b) => {
            let open = b.session_keys.contains_key(&req_id);
            let parsed = if open {
                b.parse_msg(msg, browse.take(), load.take())
            } else {
                b.parse_msg(msg, None, None)
            };
            match parsed {
                Parsed::Nothing => {
                    assert(browse == browse0 && load == load0);
                },
                _ => {
                    events.push((CoreEvent::Nothing, Some((msg.to_json(), parsed))));
                    assert(events@.take(k) =~= told);
                    return;
                },
            }
        },
        Services::Image(image) => {
            if let Some(parsed) = image.parse_msg(msg, content) {
                events.push((CoreEvent::Nothing, Some((Json::Null, parsed))));
            }
        },
        _ => {},
    }
    let ghost between = list@;
    let ghost now = events@;
    assert(now.take(k) =~= told);
    respond_from(list, i + 1, msg, content, decoded, browse, load, events);
    proof {
        assert(events@.take(k) =~= events@.take(now.len() as int).take(k));
        if now.len() > k {
            assert(events@[k] == events@.take(now.len() as int)[k]);
        }
        assert(list@[i as int] == between[i as int]);
        lemma_responded_same(
            before,
            between,
            list@,
            i + 1,
            msg@,
            *content,
            all.skip(1),
            browse,
            load,
            events@,
            now.len() as int,
        );
    }
}

proof fn lemma_responded_same(
    a: Seq<Services>,
    b: Seq<Services>,
    after: Seq<Services>,
    i: int,
    m: MessageView,
    content: ContentType,
    decoded: Seq<Option<Vec<Parsed>>>,
    browse: Option<BrowseResult>,
    load: Option<LoadResult>,
    events: Seq<Event>,
    k: int,
)
    requires
        0 <= i,
        a.len() == b.len(),
        forall|j: int| i <= j < a.len() ==> a[j] == b[j],
        responded(b, after, i, m, content, decoded, browse, load, events, k),
    ensures
        responded(a, after, i, m, content, decoded, browse, load, events, k),
    decreases a.len() - i,
{
    if i < a.len() {
        assert(a[i] == b[i]);
        let rest = decoded.skip(1);
        if responded(b, after, i + 1, m, content, rest, browse, load, events, k) {
            lemma_responded_same(
                a,
                b,
                after,
                i + 1,
                m,
                content,
                rest,
                browse,
                load,
                events,
                k,
            );
        }
        if responded(b, after, i + 1, m, content, rest, browse, load, events, k + 1) {
            lemma_responded_same(
                a,
                b,
                after,
                i + 1,
                m,
                content,
                rest,
                browse,
                load,
                events,
                k + 1,
            );
        }
    }
}

impl Hub {
    /// The parts of an answer that each of the services has asked for.
    pub fn parts(&self, msg: &MooMessage) -> (r: Vec<Vec<Section>>)
        requires
            request_number(msg@) is Some,
        ensures
            match self.services {
                Some(list) => {
                    &&& r@.len() == list@.len()
                    &&& forall|i: int|
                        0 <= i < list@.len() ==> sections_view((#[trigger] r@[i])@) == (
                        match list@[i] {
                            Services::Transport(t) => sections_of(
                                t,
                                request_number(msg@)->Some_0,
                                msg@.name,
                                body_of(msg@),
                            ),
                            _ => Seq::<(SectionKind, JsonView)>::empty(),
                        })
                },
                None => r@.len() == 0,
            },
    {
        let mut r: Vec<Vec<Section>> = Vec::new();
        if let Some(list) = &self.services {
            let mut i: usize = 0;
            while i < list.len()
                invariant
                    i <= list@.len(),
                    r@.len() == i,
                    request_number(msg@) is Some,
                    forall|j: int|
                        0 <= j < i ==> sections_view((#[trigger] r@[j])@) == (match list@[j] {
                            Services::Transport(t) => sections_of(
                                t,
                                request_number(msg@)->Some_0,
                                msg@.name,
                                body_of(msg@),
                            ),
                            _ => Seq::<(SectionKind, JsonView)>::empty(),
                        }),
                decreases list@.len() - i,
            {
                let found = match &list[i] {
                    Services::Transport(t) => t.parse_msg(msg),
                    _ => Vec::new(),
                };
                assert(list@[i as int] is Transport || sections_view(found@) =~= Seq::<
                    (SectionKind, JsonView),
                >::empty());
                r.push(found);
                i += 1;
            }
        }
        r
    }

    /// Finds what an answer says to the user. `decoded` holds for each service what the parts of
    /// the answer are, where all of them could be read, and `browse` and `load` what its body
    /// is.
    pub fn on_response(
        &mut self,
        msg: &MooMessage,
        content: &ContentType,
        decoded: Vec<Option<Vec<Parsed>>>,
        browse: Option<BrowseResult>,
        load: Option<LoadResult>,
    ) -> (r: Vec<Event>)
        requires
            request_number(msg@) is Some,
            old(self).services matches Some(list) ==> decoded@.len() == list@.len(),
        ensures
            final(self).api == old(self).api,
            final(self).provided == old(self).provided,
            final(self).conns == old(self).conns,
            final(self).user_moos == old(self).user_moos,
            final(self).cores == old(self).cores,
            match old(self).services {
                Some(list) => {
                    &&& final(self).services matches Some(left)
                    &&& left@.len() == list@.len()
                    &&& responded(
                        list@,
                        left@,
                        0,
                        msg@,
                        *content,
                        decoded@,
                        browse,
                        load,
                        r@,
                        0,
                    )
                },
                None => final(self).services is None && r@ == Seq::<Event>::empty(),
            },
            old(self).wf() ==> final(self).wf(),
    {
        let mut events: Vec<Event> = Vec::new();
        if let Some(list) = &mut self.services {
            respond_from(list, 0, msg, content, decoded, browse, load, &mut events);
        }
        events
    }
}

/// Whether a service has nothing to say to an answer: it does not wait for one, or it has not
/// asked with that request.
pub open spec fn passes_on(service: Services, parts: Option<Vec<Parsed>>, req_id: usize) -> bool {
    match service {
        Services::Transport(_) => parts matches Some(list) && list@.len() == 0,
        Services::Browse(b) => !b.session_keys@.contains_key(req_id),
        Services::Image(image) => forall|p: int|
            0 <= p < image.pending.keys().len() ==> image.pending@[#[trigger] image.pending.keys()[p]]
                != Some(req_id),
        Services::Status(_) => true,
        Services::Settings(_) => true,
    }
}

proof fn lemma_passed(
    before: Seq<Services>,
    after: Seq<Services>,
    i: int,
    n: int,
    m: MessageView,
    content: ContentType,
    decoded: Seq<Option<Vec<Parsed>>>,
    browse: Option<BrowseResult>,
    load: Option<LoadResult>,
    events: Seq<Event>,
)
    requires
        0 <= i <= n <= before.len() == decoded.len(),
        responded(before, after, i, m, content, decoded.skip(i), browse, load, events, 0),
        forall|j: int|
            i <= j < n ==> passes_on(
                #[trigger] before[j],
                decoded[j],
                request_number(m)->Some_0,
            ),
    ensures
        responded(before, after, n, m, content, decoded.skip(n), browse, load, events, 0),
    decreases n - i,
{
    if i < n {
        assert(passes_on(before[i], decoded[i], request_number(m)->Some_0));
        assert(decoded.skip(i)[0] == decoded[i]);
        assert(decoded.skip(i).skip(1) =~= decoded.skip(i + 1));
        if before[i] is Image {
            let image = before[i]->Image_0;
            found_image_is_pending(
                image.pending.keys(),
                image.pending@,
                request_number(m)->Some_0,
                0,
            );
        }
        lemma_passed(before, after, i + 1, n, m, content, decoded, browse, load, events);
    }
}

/// An answer that no service has asked for says nothing to the user.
pub proof fn unasked_answer_says_nothing(
    before: Seq<Services>,
    after: Seq<Services>,
    m: MessageView,
    content: ContentType,
    decoded: Seq<Option<Vec<Parsed>>>,
    browse: Option<BrowseResult>,
    load: Option<LoadResult>,
    events: Seq<Event>,
)
    requires
        before.len() == decoded.len(),
        responded(before, after, 0, m, content, decoded, browse, load, events, 0),
        forall|j: int|
            0 <= j < before.len() ==> passes_on(
                #[trigger] before[j],
                decoded[j],
                request_number(m)->Some_0,
            ),
    ensures
        events.len() == 0,
{
    assert(decoded.skip(0) =~= decoded);
    lemma_passed(
        before,
        after,
        0,
        before.len() as int,
        m,
        content,
        decoded,
        browse,
        load,
        events,
    );
}

/// Each part of the playback that was read is told in an event of its own, the last first, and
/// the answer comes with that one alone. An answer with a part that could not be read is told
/// without any.
pub proof fn playback_is_told(
    before: Seq<Services>,
    after: Seq<Services>,
    m: MessageView,
    content: ContentType,
    decoded: Seq<Option<Vec<Parsed>>>,
    browse: Option<BrowseResult>,
    load: Option<LoadResult>,
    events: Seq<Event>,
    i: int,
)
    requires
        0 <= i < before.len() == decoded.len(),
        responded(before, after, 0, m, content, decoded, browse, load, events, 0),
        before[i] is Transport,
        forall|j: int|
            0 <= j < i ==> passes_on(
                #[trigger] before[j],
                decoded[j],
                request_number(m)->Some_0,
            ),
    ensures
        after[i] == before[i],
        decoded[i] matches Some(list) ==> list@.len() > 0 ==> {
            &&& events.len() == list@.len()
            &&& forall|e: int|
                0 <= e < events.len() ==> {
                    &&& (#[trigger] events[e]).0 is Nothing
                    &&& events[e].1 matches Some((document, said))
                    &&& said == list@[events.len() - 1 - e]
                    &&& document@ == if e == 0 {
                        message_json(m)
                    } else {
                        JsonView::Null
                    }
                }
        },
        decoded[i] is None ==> {
            &&& events.len() == 1
            &&& events[0].0 is Nothing
            &&& events[0].1 matches Some((document, said))
            &&& document@ == message_json(m)
            &&& said is Nothing
        },
{
    assert(decoded.skip(0) =~= decoded);
    lemma_passed(before, after, 0, i, m, content, decoded, browse, load, events);
    assert(decoded.skip(i)[0] == decoded[i]);
    if decoded[i] is Some && decoded[i]->Some_0@.len() > 0 {
        let list = decoded[i]->Some_0@;
        assert(parts_say(events, 0, list, message_json(m)));
        assert forall|e: int| 0 <= e < events.len() implies {
            &&& (#[trigger] events[e]).0 is Nothing
            &&& events[e].1 matches Some((document, said))
            &&& said == list[events.len() - 1 - e]
            &&& document@ == if e == 0 {
                message_json(m)
            } else {
                JsonView::Null
            }
        } by {
            assert(events[0 + e] == events[e]);
        }
    }
}

/// The answer to a step through the lists of the core is told once, with the answer and under
/// its session, and is not waited for any more. What else is waited for stays.
pub proof fn step_is_told(
    before: Seq<Services>,
    after: Seq<Services>,
    m: MessageView,
    content: ContentType,
    decoded: Seq<Option<Vec<Parsed>>>,
    browse: Option<BrowseResult>,
    load: Option<LoadResult>,
    events: Seq<Event>,
    i: int,
    other: usize,
)
    requires
        0 <= i < before.len() == decoded.len(),
        responded(before, after, 0, m, content, decoded, browse, load, events, 0),
        before[i] is Browse,
        before[i]->Browse_0.session_keys@.contains_key(request_number(m)->Some_0),
        forall|j: int|
            0 <= j < i ==> passes_on(
                #[trigger] before[j],
                decoded[j],
                request_number(m)->Some_0,
            ),
    ensures
        ({
            let req_id = request_number(m)->Some_0;
            let keys = before[i]->Browse_0.session_keys@;
            let key = keys[req_id];
            &&& after[i] matches Services::Browse(left)
            &&& !left.session_keys@.contains_key(req_id)
            &&& other != req_id ==> {
                &&& left.session_keys@.contains_key(other) <==> keys.contains_key(other)
                &&& keys.contains_key(other) ==> left.session_keys@[other] == keys[other]
            }
            &&& browse is Some || load is Some ==> {
                &&& events.len() == 1
                &&& events[0].0 is Nothing
                &&& events[0].1 matches Some((document, said))
                &&& document@ == message_json(m)
                &&& browse matches Some(result) ==> said == Parsed::BrowseResult(result, key)
                &&& browse is None ==> said == Parsed::LoadResult(load->Some_0, key)
            }
            &&& browse is None && load is None && (m.name == "InvalidItemKey"@ || m.name
                == "InvalidLevels"@ || m.name == "UnexpectedError"@ || m.name
                == "ZoneNotFound"@) ==> {
                &&& events.len() == 1
                &&& events[0].1 matches Some((document, said))
                &&& document@ == message_json(m)
                &&& said is Error
            }
        }),
{
    assert(decoded.skip(0) =~= decoded);
    lemma_passed(before, after, 0, i, m, content, decoded, browse, load, events);
    let req_id = request_number(m)->Some_0;
    answer_says_its_result(
        m.name,
        req_id,
        before[i]->Browse_0.session_keys@[req_id],
        browse,
        load,
    );
}

/// The answer for an image is told under the key of the image, and without the answer itself.
/// The image is not waited for any more, and the others still are.
pub proof fn image_is_told(
    before: Seq<Services>,
    after: Seq<Services>,
    m: MessageView,
    content: ContentType,
    decoded: Seq<Option<Vec<Parsed>>>,
    browse: Option<BrowseResult>,
    load: Option<LoadResult>,
    events: Seq<Event>,
    i: int,
    p: int,
    other: Seq<char>,
)
    requires
        0 <= i < before.len() == decoded.len(),
        responded(before, after, 0, m, content, decoded, browse, load, events, 0),
        before[i] is Image,
        forall|j: int|
            0 <= j < i ==> passes_on(
                #[trigger] before[j],
                decoded[j],
                request_number(m)->Some_0,
            ),
        ({
            let image = before[i]->Image_0;
            &&& 0 <= p < image.pending.keys().len()
            &&& image.pending@[image.pending.keys()[p]] == Some(request_number(m)->Some_0)
            &&& forall|q: int|
                0 <= q < p ==> image.pending@[#[trigger] image.pending.keys()[q]] != Some(
                    request_number(m)->Some_0,
                )
        }),
    ensures
        ({
            let image = before[i]->Image_0;
            let key = image.pending.keys()[p];
            &&& after[i] matches Services::Image(left)
            &&& !left.pending@.contains_key(key)
            &&& other != key ==> {
                &&& left.pending@.contains_key(other) <==> image.pending@.contains_key(other)
                &&& image.pending@.contains_key(other) ==> left.pending@[other]
                    == image.pending@[other]
            }
            &&& m.name == "UnexpectedError"@ || content is Jpeg || content is Png ==> {
                &&& events.len() > 0
                &&& events[0].0 is Nothing
                &&& events[0].1 matches Some((document, said))
                &&& document@ == JsonView::Null
                &&& m.name == "UnexpectedError"@ ==> said is Error
                &&& m.name != "UnexpectedError"@ && content is Jpeg ==> (said matches Parsed::Jpeg(
                    told,
                ) && told.0@ == key && told.1@ == content->Jpeg_0@)
                &&& m.name != "UnexpectedError"@ && content is Png ==> (said matches Parsed::Png(
                    told,
                ) && told.0@ == key && told.1@ == content->Png_0@)
            }
        }),
{
    assert(decoded.skip(0) =~= decoded);
    lemma_passed(before, after, 0, i, m, content, decoded, browse, load, events);
    let image = before[i]->Image_0;
    let keys = image.pending.keys();
    let req_id = request_number(m)->Some_0;
    found_image_is_pending(keys, image.pending@, req_id, 0);
    let found = pending_at(keys, image.pending@, req_id, 0);
    assert(found == p) by {
        if found < p {
            assert(image.pending@[image.pending.keys()[found]] != Some(req_id));
        }
        if p < found {
            assert(image.pending@[keys[p]] != Some(req_id));
        }
    }
}

/// Once a part of the playback, or a step through the lists of the core, is told, the services
/// behind are not asked: what they wait for, they still wait for.
pub proof fn services_behind_are_not_asked(
    before: Seq<Services>,
    after: Seq<Services>,
    m: MessageView,
    content: ContentType,
    decoded: Seq<Option<Vec<Parsed>>>,
    browse: Option<BrowseResult>,
    load: Option<LoadResult>,
    events: Seq<Event>,
    i: int,
    j: int,
)
    requires
        0 <= i < j < before.len() == decoded.len(),
        responded(before, after, 0, m, content, decoded, browse, load, events, 0),
        forall|k: int|
            0 <= k < i ==> passes_on(
                #[trigger] before[k],
                decoded[k],
                request_number(m)->Some_0,
            ),
        match before[i] {
            Services::Transport(_) => decoded[i] matches Some(list) ==> list@.len() > 0,
            Services::Browse(b) => b.session_keys@.contains_key(request_number(m)->Some_0) && (
            browse is Some || load is Some),
            _ => false,
        },
    ensures
        after[j] == before[j],
{
    assert(decoded.skip(0) =~= decoded);
    lemma_passed(before, after, 0, i, m, content, decoded, browse, load, events);
    assert(decoded.skip(i)[0] == decoded[i]);
}

} // verus!
