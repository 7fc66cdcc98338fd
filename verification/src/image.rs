//! Images of what a core offers.

use vstd::prelude::*;
use vstd::slice::slice_to_vec;
use crate::json::{empty_object, member, with_member, Json, JsonView};
use crate::moo::message::{request_number, MooMessage};
use crate::moo::{is_request, request, ContentType, Moo, Outgoing, Session};
use crate::parsed::{Parsed, RoonApiError};
use crate::table::Table;
use crate::text::same_text;

verus! {

pub const SVCNAME: &'static str = "com.roonlabs.image:1";

/// How an image is made to fit.
#[derive(Clone, Copy, Debug, PartialEq, Eq, Structural)]
pub enum Scale {
    Original,
    Fit,
    Fill,
    Stretch,
}

/// How an image is encoded.
#[derive(Clone, Copy, Debug, PartialEq, Eq, Structural)]
pub enum Format {
    Jpeg,
    Png,
}

/// The size of an image.
#[derive(Clone, Copy, Debug, PartialEq, Eq, Structural)]
pub struct Scaling {
    pub scale: Scale,
    pub width: u32,
    pub height: u32,
}

/// How an image is wanted.
#[derive(Clone, Copy, Debug, PartialEq, Eq, Structural)]
pub struct Args {
    pub scaling: Option<Scaling>,
    pub format: Option<Format>,
}

impl Default for Scale {
    fn default() -> (r: Self)
        ensures
            r == Scale::Original,
    {
        Scale::Original
    }
}

impl Default for Format {
    fn default() -> (r: Self)
        ensures
            r == Format::Jpeg,
    {
        Format::Jpeg
    }
}

impl Default for Scaling {
    fn default() -> (r: Self)
        ensures
            r == (Scaling { scale: Scale::Original, width: 0, height: 0 }),
    {
        Scaling { scale: Scale::Original, width: 0, height: 0 }
    }
}

impl Default for Args {
    fn default() -> (r: Self)
        ensures
            r == (Args { scaling: None, format: None }),
    {
        Args { scaling: None, format: None }
    }
}

impl Scale {
    /// The name by which a core knows the value.
    pub open spec fn text(self) -> Seq<char> {
        match self {
            Scale::Original => "original"@,
            Scale::Fit => "fit"@,
            Scale::Fill => "fill"@,
            Scale::Stretch => "stretch"@,
        }
    }

    /// The name by which a core knows the value.
    pub fn as_str(&self) -> (r: &'static str)
        ensures
            r@ == self.text(),
    {
        match self {
            Scale::Original => "original",
            Scale::Fit => "fit",
            Scale::Fill => "fill",
            Scale::Stretch => "stretch",
        }
    }
}

impl Format {
    /// The name by which a core knows the value.
    pub open spec fn text(self) -> Seq<char> {
        match self {
            Format::Jpeg => "image/jpeg"@,
            Format::Png => "image/png"@,
        }
    }

    /// The name by which a core knows the value.
    pub fn as_str(&self) -> (r: &'static str)
        ensures
            r@ == self.text(),
    {
        match self {
            Format::Jpeg => "image/jpeg",
            Format::Png => "image/png",
        }
    }
}

impl Scaling {
    pub fn new(scale: Scale, width: u32, height: u32) -> (r: Self)
        ensures
            r == (Scaling { scale, width, height }),
    {
        Scaling { scale, width, height }
    }
}

impl Args {
    pub fn new(scaling: Option<Scaling>, format: Option<Format>) -> (r: Self)
        ensures
            r == (Args { scaling, format }),
    {
        Args { scaling, format }
    }

    /// The arguments as a document. The members of the size stand beside the format.
    pub open spec fn json(self) -> JsonView {
        let v = match self.scaling {
            Some(s) => with_member(
                with_member(
                    with_member(empty_object(), "scale"@, JsonView::Text(s.scale.text())),
                    "width"@,
                    JsonView::Int(s.width as int),
                ),
                "height"@,
                JsonView::Int(s.height as int),
            ),
            None => empty_object(),
        };
        with_member(
            v,
            "format"@,
            match self.format {
                Some(f) => JsonView::Text(f.text()),
                None => JsonView::Null,
            },
        )
    }

    /// The arguments as a document.
    pub fn to_json(&self) -> (r: Json)
        ensures
            r@ == self.json(),
    {
        let mut v = Json::object();
        if let Some(s) = &self.scaling {
            v.set("scale", Json::text(s.scale.as_str()));
            v.set("width", Json::Uint(s.width as u64));
            v.set("height", Json::Uint(s.height as u64));
        }
        let format = match &self.format {
            Some(f) => Json::text(f.as_str()),
            None => Json::Null,
        };
        v.set("format", format);
        v
    }
}

/// The image service of a core: the connection, and the images that are pending with the ids of
/// their requests.
#[derive(Debug)]
pub struct Image {
    pub moo: Option<Moo>,
    pub pending: Table<Option<usize>>,
}

/// What comes of a wish for an image.
#[derive(Debug)]
pub enum Wish {
    /// There is no request, and none can be sent.
    Nothing,
    /// The image was asked for already.
    Pending(usize),
    /// The image has to be asked for.
    Ask(Outgoing),
}

/// The first image, from position `from` on, that is pending with the id of the request.
pub open spec fn pending_at(
    keys: Seq<Seq<char>>,
    pending: Map<Seq<char>, Option<usize>>,
    req_id: usize,
    from: int,
) -> int
    decreases keys.len() - from,
{
    if from >= keys.len() {
        keys.len() as int
    } else if pending[keys[from]] == Some(req_id) {
        from
    } else {
        pending_at(keys, pending, req_id, from + 1)
    }
}

/// An image that was asked for is not asked for again until it is answered, and the answer is
/// found by the id of the request.
pub proof fn pending_image_is_found(
    keys: Seq<Seq<char>>,
    pending: Map<Seq<char>, Option<usize>>,
    image_key: Seq<char>,
    req_id: usize,
)
    requires
        !keys.contains(image_key),
        forall|i: int| 0 <= i < keys.len() ==> pending[#[trigger] keys[i]] != Some(req_id),
    ensures
        ({
            let after = pending.insert(image_key, Some(req_id));
            &&& after.contains_key(image_key)
            &&& after[image_key] == Some(req_id)
            &&& pending_at(keys.push(image_key), after, req_id, 0) == keys.len()
            &&& !after.remove(image_key).contains_key(image_key)
        }),
{
    lemma_pending_at_last(keys, pending, image_key, req_id, 0);
}

proof fn lemma_pending_at_last(
    keys: Seq<Seq<char>>,
    pending: Map<Seq<char>, Option<usize>>,
    image_key: Seq<char>,
    req_id: usize,
    from: int,
)
    requires
        0 <= from <= keys.len(),
        !keys.contains(image_key),
        forall|i: int| 0 <= i < keys.len() ==> pending[#[trigger] keys[i]] != Some(req_id),
    ensures
        pending_at(
            keys.push(image_key),
            pending.insert(image_key, Some(req_id)),
            req_id,
            from,
        ) == keys.len(),
    decreases keys.len() - from,
{
    if from < keys.len() {
        assert(keys.push(image_key)[from] == keys[from]);
        assert(keys.contains(keys[from]));
        lemma_pending_at_last(keys, pending, image_key, req_id, from + 1);
    } else {
        assert(keys.push(image_key)[from] == image_key);
    }
}

/// Whether an answer for an image says what its name and its content say.
pub open spec fn is_image_answer(
    r: Option<Parsed>,
    name: Seq<char>,
    req_id: usize,
    image_key: Seq<char>,
    content: ContentType,
) -> bool {
    if name == "UnexpectedError"@ {
        r matches Some(Parsed::Error(RoonApiError::ImageUnexpectedError((id, key)))) && id
            == req_id && key@ == image_key
    } else {
        match content {
            ContentType::Jpeg(jpeg) => r matches Some(Parsed::Jpeg((key, data))) && key@
                == image_key && data@ == jpeg@,
            ContentType::Png(png) => r matches Some(Parsed::Png((key, data))) && key@
                == image_key && data@ == png@,
            _ => r is None,
        }
    }
}

impl Default for Image {
    fn default() -> (r: Self)
        ensures
            r.moo is None,
            r.pending@ == Map::<Seq<char>, Option<usize>>::empty(),
    {
        Image::new()
    }
}

impl Image {
    /// The service without a connection.
    pub fn new() -> (r: Self)
        ensures
            r.moo is None,
            r.pending@ == Map::<Seq<char>, Option<usize>>::empty(),
    {
        Image { moo: None, pending: Table::new() }
    }

    /// Connects the service.
    pub fn set_moo(&mut self, moo: Moo)
        ensures
            final(self).moo == Some(moo),
            final(self).pending == old(self).pending,
    {
        self.moo = Some(moo);
    }

    /// Asks for an image, unless it is pending already.
    pub fn get_image(&mut self, session: &Session, image_key: &str, args: Args) -> (r: Wish)
        ensures
            final(self).moo == old(self).moo,
            ({
                let pending = old(self).pending@;
                if pending.contains_key(image_key@) {
                    &&& final(self).pending@ == pending
                    &&& match pending[image_key@] {
                        Some(req_id) => r == Wish::Pending(req_id),
                        None => r == Wish::Nothing,
                    }
                } else {
                    &&& final(self).pending@ == pending.insert(image_key@, None)
                    &&& match old(self).moo {
                        Some(moo) => r matches Wish::Ask(out) && is_request(
                            out,
                            moo.log_level,
                            session.req_id,
                            SVCNAME@ + "/get_image"@,
                            Some(
                                with_member(
                                    args.json(),
                                    "image_key"@,
                                    JsonView::Text(image_key@),
                                ),
                            ),
                        ),
                        None => r == Wish::Nothing,
                    }
                }
            }),
    {
        if let Some(req_id) = self.pending.get(image_key) {
            return match req_id {
                Some(req_id) => Wish::Pending(*req_id),
                None => Wish::Nothing,
            };
        }
        self.pending.insert(image_key, None);
        let mut body = args.to_json();
        body.set("image_key", Json::text(image_key));
        match request(&self.moo, session, SVCNAME, "/get_image", Some(&body)) {
            Some(out) => Wish::Ask(out),
            None => Wish::Nothing,
        }
    }

    /// Notes the request for an image: the one that was sent, or none.
    pub fn get_image_sent(&mut self, image_key: &str, sent: Option<usize>)
        ensures
            final(self).moo == old(self).moo,
            final(self).pending@ == old(self).pending@.insert(image_key@, sent),
    {
        self.pending.insert(image_key, sent);
    }

    /// What an answer says, where it is one for a pending image.
    pub fn parse_msg(&mut self, msg: &MooMessage, body: &ContentType) -> (r: Option<Parsed>)
        requires
            request_number(msg@) is Some,
        ensures
            final(self).moo == old(self).moo,
            ({
                let req_id = request_number(msg@)->Some_0;
                let keys = old(self).pending.keys();
                let pending = old(self).pending@;
                let i = pending_at(keys, pending, req_id, 0);
                if i < keys.len() {
                    &&& final(self).pending@ == pending.remove(keys[i])
                    &&& is_image_answer(r, msg@.name, req_id, keys[i], *body)
                } else {
                    &&& final(self).pending@ == pending
                    &&& r is None
                }
            }),
    {
        let req_id = match msg.request_number() {
            Some(n) => n,
            None => {
                return None;
            },
        };
        let ghost keys = self.pending.keys();
        let ghost pending = self.pending@;
        let n = self.pending.len();
        let mut i: usize = 0;
        while i < n
            invariant_except_break
                i <= n,
                n == keys.len(),
                keys == self.pending.keys(),
                pending == self.pending@,
                pending_at(keys, pending, req_id, 0) == pending_at(
                    keys,
                    pending,
                    req_id,
                    i as int,
                ),
            ensures
                i <= n,
                i == pending_at(keys, pending, req_id, 0),
            decreases n - i,
        {
            let (_, value) = self.pending.entry(i);
            if let Some(id) = value {
                if *id == req_id {
                    break;
                }
            }
            i += 1;
        }
        if i == n {
            return None;
        }
        let image_key = self.pending.entry(i).0.clone();
        let _ = self.pending.remove(image_key.as_str());
        if same_text(msg.name.as_str(), "UnexpectedError") {
            return Some(Parsed::Error(RoonApiError::ImageUnexpectedError((req_id, image_key))));
        }
        match body {
            ContentType::Jpeg(jpeg) => Some(
                Parsed::Jpeg((image_key, slice_to_vec(jpeg.as_slice()))),
            ),
            ContentType::Png(png) => Some(Parsed::Png((image_key, slice_to_vec(png.as_slice())))),
            _ => None,
        }
    }
}

/// An image is asked for under its key, with the format and, where there is one, the size that
/// is wanted.
pub proof fn image_is_asked_for_as_wanted(args: Args, image_key: Seq<char>, json: JsonView)
    requires
        json == args.json() || json == with_member(
            args.json(),
            "image_key"@,
            JsonView::Text(image_key),
        ),
    ensures
        match args.scaling {
            Some(s) => {
                &&& member(json, "scale"@) == Some(JsonView::Text(s.scale.text()))
                &&& member(json, "width"@) == Some(JsonView::Int(s.width as int))
                &&& member(json, "height"@) == Some(JsonView::Int(s.height as int))
            },
            None => {
                &&& member(json, "scale"@) is None
                &&& member(json, "width"@) is None
                &&& member(json, "height"@) is None
            },
        },
        match args.format {
            Some(f) => member(json, "format"@) == Some(JsonView::Text(f.text())),
            None => member(json, "format"@) == Some(JsonView::Null),
        },
        member(
            with_member(args.json(), "image_key"@, JsonView::Text(image_key)),
            "image_key"@,
        ) == Some(JsonView::Text(image_key)),
{
    reveal_strlit("scale");
    reveal_strlit("width");
    reveal_strlit("height");
    reveal_strlit("format");
    reveal_strlit("image_key");
    assert("scale"@[0] != "width"@[0]);
    assert("scale"@.len() != "height"@.len());
    assert("scale"@.len() != "format"@.len());
    assert("scale"@.len() != "image_key"@.len());
    assert("width"@.len() != "height"@.len());
    assert("width"@.len() != "format"@.len());
    assert("width"@.len() != "image_key"@.len());
    assert("height"@[0] != "format"@[0]);
    assert("height"@.len() != "image_key"@.len());
    assert("format"@.len() != "image_key"@.len());
}

/// Each way to fit an image, and each format, has the name by which a core knows it, and no two
/// have the same.
pub proof fn names_of_images(scale: Scale, format: Format)
    ensures
        scale.text() == "original"@ <==> scale == Scale::Original,
        scale.text() == "fit"@ <==> scale == Scale::Fit,
        scale.text() == "fill"@ <==> scale == Scale::Fill,
        scale.text() == "stretch"@ <==> scale == Scale::Stretch,
        format.text() == "image/jpeg"@ <==> format == Format::Jpeg,
        format.text() == "image/png"@ <==> format == Format::Png,
{
    reveal_strlit("original");
    reveal_strlit("fit");
    reveal_strlit("fill");
    reveal_strlit("stretch");
    assert("original"@.len() != "fit"@.len());
    assert("original"@.len() != "fill"@.len());
    assert("original"@.len() != "stretch"@.len());
    assert("fit"@.len() != "fill"@.len());
    assert("fit"@.len() != "stretch"@.len());
    assert("fill"@.len() != "stretch"@.len());
    reveal_strlit("image/jpeg");
    reveal_strlit("image/png");
    assert("image/jpeg"@.len() != "image/png"@.len());
}

/// The image that is found for a request is the first that is pending with its id: one is found
/// exactly where one is pending.
pub proof fn found_image_is_pending(
    keys: Seq<Seq<char>>,
    pending: Map<Seq<char>, Option<usize>>,
    req_id: usize,
    from: int,
)
    requires
        0 <= from <= keys.len(),
    ensures
        from <= pending_at(keys, pending, req_id, from) <= keys.len(),
        pending_at(keys, pending, req_id, from) < keys.len() ==> pending[keys[pending_at(
            keys,
            pending,
            req_id,
            from,
        )]] == Some(req_id),
        forall|i: int|
            from <= i < pending_at(keys, pending, req_id, from) ==> pending[#[trigger] keys[i]]
                != Some(req_id),
    decreases keys.len() - from,
{
    if from < keys.len() && pending[keys[from]] != Some(req_id) {
        found_image_is_pending(keys, pending, req_id, from + 1);
    }
}

/// The answer for an image says the error, the bytes of the image under its key, or nothing: an
/// image of each format as one of that format.
pub proof fn image_answer_says_its_content(
    r: Option<Parsed>,
    name: Seq<char>,
    req_id: usize,
    image_key: Seq<char>,
    content: ContentType,
)
    requires
        is_image_answer(r, name, req_id, image_key, content),
    ensures
        r matches Some(Parsed::Error(e)) <==> name == "UnexpectedError"@,
        r matches Some(Parsed::Error(e)) ==> e matches RoonApiError::ImageUnexpectedError((id, key))
            && id == req_id && key@ == image_key,
        name != "UnexpectedError"@ ==> match content {
            ContentType::Jpeg(bytes) => r matches Some(Parsed::Jpeg((key, data))) && key@
                == image_key && data@ == bytes@,
            ContentType::Png(bytes) => r matches Some(Parsed::Png((key, data))) && key@
                == image_key && data@ == bytes@,
            ContentType::Json => r is None,
            ContentType::Nothing => r is None,
        },
{
}

} // verus!
