//! The extension: what it registers with, what it stores, and what it is paired with.

use vstd::prelude::*;
use vstd::utf8::{
    decode_utf8, encode_utf8, encode_utf8_decode_utf8, encode_utf8_valid_utf8, valid_utf8,
};
use crate::info::Info;
use crate::json::{
    empty_object, items_view, lemma_items_view_push, member, opt_json, takes_members, text_items,
    with_member, Json, JsonView,
};
use crate::json_text::{
    fits, keeps_members, lemma_storable_fits, member_depth, parsed_json, pretty_text, read_depth, storable,
};
use crate::moo::{next_id, taken};
use crate::pairing::Pairing;
use crate::service::{calls, handlers, register_service, subscribe_names, with_subs, Svc, SvcSpec};
use crate::text::{strings, utf8_text};

verus! {

/// The version of this library.
pub const ROON_API_VERSION: &'static str = "0.2.0";

/// What the extension registers with: what it tells about itself, the services that it needs
/// and that it provides, and the token that the core has given it.
#[derive(Debug)]
pub struct RegInfo {
    pub info: Info,
    pub required_services: Vec<String>,
    pub provided_services: Vec<String>,
    pub token: Option<Json>,
}

/// The extension: what it registers with, the cores that were found, whether it is to be paired
/// with one of them, and what it is paired with.
#[derive(Debug)]
pub struct RoonApi {
    pub reg_info: RegInfo,
    pub sood_conns: Vec<String>,
    pub with_pairing: bool,
    pub pairing: Pairing,
}

/// What a registration is sent as.
pub open spec fn reg_json(
    info: JsonView,
    required: Seq<Seq<char>>,
    provided: Seq<Seq<char>>,
    token: Option<JsonView>,
) -> JsonView {
    let v = with_member(info, "provided_services"@, JsonView::Array(text_items(provided)));
    let v = with_member(v, "required_services"@, JsonView::Array(text_items(required)));
    match token {
        Some(token) => with_member(v, "token"@, token),
        None => v,
    }
}

/// Texts as documents.
fn text_array(s: &Vec<String>) -> (r: Json)
    ensures
        r@ == JsonView::Array(text_items(strings(s@))),
{
    let mut items: Vec<Json> = Vec::new();
    let ghost all = strings(s@);
    let mut i: usize = 0;
    while i < s.len()
        invariant
            i <= s@.len(),
            all == strings(s@),
            items_view(items@) == text_items(all.take(i as int)),
        decreases s@.len() - i,
    {
        let item = Json::text(s[i].as_str());
        proof {
            lemma_items_view_push(items@, item);
            assert(text_items(all.take(i + 1)) =~= text_items(all.take(i as int)).push(
                JsonView::Text(all[i as int]),
            ));
        }
        items.push(item);
        i += 1;
    }
    assert(all.take(i as int) =~= all);
    Json::Array(items)
}

impl RegInfo {
    /// What the registration is sent as.
    pub open spec fn json(self) -> JsonView {
        reg_json(
            self.info.json(),
            strings(self.required_services@),
            strings(self.provided_services@),
            opt_json(self.token),
        )
    }

    /// What the registration is sent as.
    pub fn to_json(&self) -> (r: Json)
        ensures
            r@ == self.json(),
    {
        let mut v = self.info.to_json();
        v.set("provided_services", text_array(&self.provided_services));
        v.set("required_services", text_array(&self.required_services));
        if let Some(token) = &self.token {
            v.set("token", token.clone());
        }
        v
    }
}

/// The configuration that a file holds: none where it is missing, or is no document.
pub open spec fn stored_config(content: Option<Seq<u8>>) -> Option<JsonView> {
    match content {
        Some(bytes) => if valid_utf8(bytes) {
            parsed_json(decode_utf8(bytes))
        } else {
            None
        },
        None => None,
    }
}

/// The value that a configuration holds under `key`: an empty object where it holds none.
pub open spec fn config_value(config: Option<JsonView>, key: Seq<char>) -> JsonView {
    match config {
        Some(config) => match member(config, key) {
            Some(value) => value,
            None => empty_object(),
        },
        None => empty_object(),
    }
}

/// The configuration with a value under `key`: none where it is no object.
pub open spec fn with_config(config: Option<JsonView>, key: Seq<char>, value: JsonView) -> Option<
    JsonView,
> {
    match config {
        Some(config) => if takes_members(config) {
            Some(with_member(config, key, value))
        } else {
            None
        },
        None => Some(with_member(empty_object(), key, value)),
    }
}

/// Whether each value under another key is the same in two configurations, as far as it can be
/// read back as it was.
pub open spec fn others_stay(
    before: Option<JsonView>,
    after: Option<JsonView>,
    key: Seq<char>,
) -> bool {
    forall|other: Seq<char>|
        other != key && storable(config_value(before, other), member_depth())
            ==> #[trigger] config_value(after, other) == config_value(before, other)
}

/// The bytes behind an optional reference.
pub open spec fn bytes_of(content: Option<&[u8]>) -> Option<Seq<u8>> {
    match content {
        Some(bytes) => Some(bytes@),
        None => None,
    }
}

/// Reads the configuration that a file holds.
pub fn read_and_parse(content: Option<&[u8]>) -> (r: Option<Json>)
    ensures
        opt_json(r) == stored_config(bytes_of(content)),
        r matches Some(config) ==> fits(config@, read_depth()),
{
    match content {
        Some(bytes) => match utf8_text(bytes) {
            Some(text) => Json::parse(text),
            None => None,
        },
        None => None,
    }
}

/// The value that a configuration holds under `key`.
pub fn load_value(config: Option<&Json>, key: &str) -> (r: Json)
    ensures
        r@ == config_value(
            match config {
                Some(j) => Some(j@),
                None => None,
            },
            key@,
        ),
{
    match config {
        Some(config) => match config.get(key) {
            Some(value) => value.clone(),
            None => Json::object(),
        },
        None => Json::object(),
    }
}

/// Puts a value into a configuration.
pub fn save_value(config: Option<Json>, key: &str, value: Json) -> (r: Option<Json>)
    ensures
        opt_json(r) == with_config(opt_json(config), key@, value@),
{
    let mut config = match config {
        Some(config) => config,
        None => Json::object(),
    };
    if config.is_settable() {
        config.set(key, value);
        Some(config)
    } else {
        None
    }
}

/// A value that was put into a configuration is found in it.
pub proof fn saved_value_is_loaded(config: Option<JsonView>, key: Seq<char>, value: JsonView)
    requires
        with_config(config, key, value) is Some,
    ensures
        config_value(with_config(config, key, value), key) == value,
{
}

/// A value that is put into a configuration leaves the others as they are.
pub proof fn saved_value_keeps_others(
    config: Option<JsonView>,
    key: Seq<char>,
    value: JsonView,
    other: Seq<char>,
)
    requires
        with_config(config, key, value) is Some,
        other != key,
    ensures
        config_value(with_config(config, key, value), other) == config_value(config, other),
{
}

proof fn lemma_with_config_fits(config: Option<JsonView>, key: Seq<char>, value: JsonView)
    requires
        config matches Some(config) ==> fits(config, read_depth()),
        fits(value, member_depth()),
        with_config(config, key, value) is Some,
    ensures
        fits(with_config(config, key, value)->Some_0, read_depth()),
        with_config(config, key, value)->Some_0 is Object,
{
    let m = with_config(config, key, value)->Some_0->Object_0;
    assert forall|k: Seq<char>| #[trigger] m.contains_key(k) implies fits(m[k], member_depth()) by {
        if k != key {
            assert(config->Some_0->Object_0.contains_key(k));
        }
    }
}

impl RoonApi {
    /// The extension, which needs and provides no service yet and is not paired.
    pub fn new(info: Info) -> (r: Self)
        ensures
            r.reg_info.info == info,
            r.reg_info.required_services@ == Seq::<String>::empty(),
            r.reg_info.provided_services@ == Seq::<String>::empty(),
            r.reg_info.token is None,
            r.sood_conns@ == Seq::<String>::empty(),
            r.with_pairing,
            r.pairing.paired_core is None,
            r.pairing.lost_core_id is None,
    {
        RoonApi {
            reg_info: RegInfo {
                info,
                required_services: Vec::new(),
                provided_services: Vec::new(),
                token: None,
            },
            sood_conns: Vec::new(),
            with_pairing: true,
            pairing: Pairing::new(),
        }
    }

    /// The extension, which is paired with no core: it works with each that it finds.
    pub fn without_pairing(info: Info) -> (r: Self)
        ensures
            r.reg_info.info == info,
            r.reg_info.required_services@ == Seq::<String>::empty(),
            r.reg_info.provided_services@ == Seq::<String>::empty(),
            r.reg_info.token is None,
            r.sood_conns@ == Seq::<String>::empty(),
            !r.with_pairing,
            r.pairing.paired_core is None,
            r.pairing.lost_core_id is None,
    {
        let mut api = RoonApi::new(info);
        api.with_pairing = false;
        api
    }

    /// Makes the service that offers what `spec` says. Whoever shares what it keeps knows it by
    /// its number, which is taken from a counter.
    pub fn register_shared(&self, spec: SvcSpec, svc_count: &mut usize) -> (r: (Svc, usize))
        requires
            *old(svc_count) < usize::MAX,
        ensures
            r.0.name == spec.name,
            r.0.sub_types@ == Map::<Seq<char>, usize>::empty(),
            handlers(r.0.methods@) == with_subs(
                calls(spec.methods@),
                spec.subs@,
                spec.subs@.len() as int,
            ),
            strings(r.0.sub_names@) == subscribe_names(spec.subs@),
            r.0.state.is_new(),
            r.0.state.number == Some(r.1),
            r.0.wf(),
            taken(*old(svc_count), *final(svc_count), r.1),
    {
        let number = next_id(svc_count);
        let mut svc = self.register_service(spec);
        svc.state.number = Some(number);
        (svc, number)
    }

    /// Makes the service that offers what `spec` says. It has no subscribers.
    pub fn register_service(&self, spec: SvcSpec) -> (r: Svc)
        ensures
            r.name == spec.name,
            r.sub_types@ == Map::<Seq<char>, usize>::empty(),
            handlers(r.methods@) == with_subs(
                calls(spec.methods@),
                spec.subs@,
                spec.subs@.len() as int,
            ),
            strings(r.sub_names@) == subscribe_names(spec.subs@),
            r.state.is_new(),
            r.state.number is None,
            r.wf(),
    {
        register_service(spec)
    }

    /// Begins to look for cores: none of them is known.
    pub fn start_sood_receiver(&mut self)
        ensures
            final(self).sood_conns@ == Seq::<String>::empty(),
            final(self).reg_info == old(self).reg_info,
            final(self).with_pairing == old(self).with_pairing,
            final(self).pairing == old(self).pairing,
    {
        self.sood_conns = Vec::new();
    }

    /// The value that a configuration file holds under `key`.
    pub fn load_config(content: Option<&[u8]>, key: &str) -> (r: Json)
        ensures
            r@ == config_value(stored_config(bytes_of(content)), key@),
    {
        match read_and_parse(content) {
            Some(config) => load_value(Some(&config), key),
            None => load_value(None, key),
        }
    }

    /// The text of a configuration file into which a value is put: none where the configuration
    /// is no object. A value that can be stored is loaded again from the text, and so is each
    /// other one that can. A key without a value stays without one.
    pub fn save_config(content: Option<&[u8]>, key: &str, value: Json) -> (r: Option<String>)
        ensures
            match with_config(stored_config(bytes_of(content)), key@, value@) {
                Some(config) => {
                    &&& r matches Some(text)
                    &&& text@ == pretty_text(config)
                    &&& storable(config, read_depth()) ==> stored_config(
                        Some(encode_utf8(text@)),
                    ) == Some(config)
                    &&& storable(value@, member_depth()) ==> config_value(
                        stored_config(Some(encode_utf8(text@))),
                        key@,
                    ) == value@
                    &&& storable(value@, member_depth()) || fits(value@, member_depth())
                        ==> others_stay(
                        stored_config(bytes_of(content)),
                        stored_config(Some(encode_utf8(text@))),
                        key@,
                    )
                },
                None => r is None,
            },
    {
        let ghost before = stored_config(bytes_of(content));
        let ghost value_view = value@;
        match save_value(read_and_parse(content), key, value) {
            Some(config) => {
                let text = config.to_pretty_text();
                proof {
                    encode_utf8_valid_utf8(text@);
                    encode_utf8_decode_utf8(text@);
                    let after = stored_config(Some(encode_utf8(text@)));
                    if storable(value_view, member_depth()) {
                        lemma_storable_fits(value_view, member_depth());
                    }
                    if fits(value_view, member_depth()) {
                        lemma_with_config_fits(before, key@, value_view);
                        assert(keeps_members(config@, after));
                        assert forall|other: Seq<char>|
                            other != key@ && storable(
                                config_value(before, other),
                                member_depth(),
                            ) implies #[trigger] config_value(after, other) == config_value(
                            before,
                            other,
                        ) by {
                            let m = config@->Object_0;
                            if m.contains_key(other) {
                                assert(config_value(before, other) == m[other]);
                            }
                            assert(after->Some_0->Object_0.dom().contains(other)
                                == m.dom().contains(other));
                        }
                    }
                }
                Some(text)
            },
            None => None,
        }
    }
}

/// What the extension registers with tells about it what it tells about itself, and names the
/// services that it needs, those that it provides, and its token, where it has one.
pub proof fn registration_names_its_parts(
    info: Info,
    required: Seq<Seq<char>>,
    provided: Seq<Seq<char>>,
    token: Option<JsonView>,
    key: Seq<char>,
)
    ensures
        ({
            let json = reg_json(info.json(), required, provided, token);
            &&& member(json, "required_services"@) == Some(JsonView::Array(text_items(required)))
            &&& member(json, "provided_services"@) == Some(JsonView::Array(text_items(provided)))
            &&& member(json, "token"@) == token
            &&& key != "required_services"@ && key != "provided_services"@ && key != "token"@
                ==> member(json, key) == member(info.json(), key)
        }),
{
    reveal_strlit("extension_id");
    reveal_strlit("display_name");
    reveal_strlit("display_version");
    reveal_strlit("publisher");
    reveal_strlit("email");
    reveal_strlit("website");
    reveal_strlit("required_services");
    reveal_strlit("provided_services");
    reveal_strlit("token");
    assert("extension_id"@[0] != "display_name"@[0]);
    assert("extension_id"@.len() != "display_version"@.len());
    assert("extension_id"@.len() != "publisher"@.len());
    assert("extension_id"@.len() != "email"@.len());
    assert("extension_id"@.len() != "website"@.len());
    assert("extension_id"@.len() != "required_services"@.len());
    assert("extension_id"@.len() != "provided_services"@.len());
    assert("extension_id"@.len() != "token"@.len());
    assert("display_name"@.len() != "display_version"@.len());
    assert("display_name"@.len() != "publisher"@.len());
    assert("display_name"@.len() != "email"@.len());
    assert("display_name"@.len() != "website"@.len());
    assert("display_name"@.len() != "required_services"@.len());
    assert("display_name"@.len() != "provided_services"@.len());
    assert("display_name"@.len() != "token"@.len());
    assert("display_version"@.len() != "publisher"@.len());
    assert("display_version"@.len() != "email"@.len());
    assert("display_version"@.len() != "website"@.len());
    assert("display_version"@.len() != "required_services"@.len());
    assert("display_version"@.len() != "provided_services"@.len());
    assert("display_version"@.len() != "token"@.len());
    assert("publisher"@.len() != "email"@.len());
    assert("publisher"@.len() != "website"@.len());
    assert("publisher"@.len() != "required_services"@.len());
    assert("publisher"@.len() != "provided_services"@.len());
    assert("publisher"@.len() != "token"@.len());
    assert("email"@.len() != "website"@.len());
    assert("email"@.len() != "required_services"@.len());
    assert("email"@.len() != "provided_services"@.len());
    assert("email"@[0] != "token"@[0]);
    assert("website"@.len() != "required_services"@.len());
    assert("website"@.len() != "provided_services"@.len());
    assert("website"@.len() != "token"@.len());
    assert("required_services"@[0] != "provided_services"@[0]);
    assert("required_services"@.len() != "token"@.len());
    assert("provided_services"@.len() != "token"@.len());
}

/// What was stored is found under its key, and nothing but an empty object where nothing was: in
/// a configuration without the key, in one that is no object, and in none.
pub proof fn nothing_stored_is_an_empty_object(config: Option<JsonView>, key: Seq<char>)
    ensures
        config matches Some(JsonView::Object(m)) ==> {
            &&& m.contains_key(key) ==> config_value(config, key) == m[key]
            &&& !m.contains_key(key) ==> config_value(config, key) == JsonView::Object(Map::empty())
        },
        !(config matches Some(JsonView::Object(_))) ==> config_value(config, key)
            == JsonView::Object(Map::empty()),
        with_config(config, key, JsonView::Null) is Some <==> config is None || config->Some_0
            is Object || config->Some_0 is Null,
{
}

/// A file holds the configuration that its text is, where its bytes are one. A file that is
/// missing, or whose bytes are no text, holds none.
pub proof fn file_holds_its_text(text: Seq<char>, bytes: Seq<u8>)
    ensures
        stored_config(Some(encode_utf8(text))) == parsed_json(text),
        !valid_utf8(bytes) ==> stored_config(Some(bytes)) is None,
        stored_config(None) is None,
{
    encode_utf8_valid_utf8(text);
    encode_utf8_decode_utf8(text);
}

/// Where the others stay, each value under another key is loaded as it was, if it can be read
/// back as it was.
pub proof fn other_values_are_loaded(
    before: Option<JsonView>,
    after: Option<JsonView>,
    key: Seq<char>,
    other: Seq<char>,
)
    requires
        others_stay(before, after, key),
        other != key,
        storable(config_value(before, other), 126),
    ensures
        config_value(after, other) == config_value(before, other),
{
}

} // verus!
