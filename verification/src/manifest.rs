//! Voice manifests: what a voice tells about itself at run time.
//!
//! Manifests are advisory. They do not affect routing, enforce types or create
//! subscriptions; they exist for discovery and documentation.
use vstd::prelude::*;

use crate::protocol;
use crate::protocol::SignalType;
use crate::text;
use crate::text_map::TextMap;
use crate::values;
use crate::values::{Value, ValueModel};

verus! {

/// A single route that a voice exposes.
#[derive(Debug, PartialEq)]
pub struct RouteInfo {
    /// A routing pattern.
    pub address: String,
    /// The signal type of the route.
    pub signal: SignalType,
    /// Free-form hint about the shape of the payload.
    pub payload_hint: Option<String>,
    /// Human-readable explanation.
    pub description: Option<String>,
    /// Example payload.
    pub example: Option<Value>,
}

/// What a route is, mathematically.
pub struct RouteModel {
    pub address: Seq<char>,
    pub signal: SignalType,
    pub payload_hint: Option<Seq<char>>,
    pub description: Option<Seq<char>>,
    pub example: Option<ValueModel>,
}

/// What an optional value stands for.
pub open spec fn opt_value_view(v: Option<Value>) -> Option<ValueModel> {
    match v {
        Some(x) => Some(x@),
        None => None,
    }
}

impl View for RouteInfo {
    type V = RouteModel;

    open spec fn view(&self) -> RouteModel {
        RouteModel {
            address: self.address@,
            signal: self.signal,
            payload_hint: text::opt_view(self.payload_hint),
            description: text::opt_view(self.description),
            example: opt_value_view(self.example),
        }
    }
}

/// The fields with `key` set to a value, where there is one.
pub open spec fn with_value(
    f: Map<Seq<char>, ValueModel>,
    key: Seq<char>,
    v: Option<ValueModel>,
) -> Map<Seq<char>, ValueModel> {
    match v {
        Some(x) => f.insert(key, x),
        None => f,
    }
}

/// The value that stands for a route on the wire.
pub open spec fn route_value(r: RouteModel) -> ValueModel {
    let required = Map::<Seq<char>, ValueModel>::empty().insert(
        "address"@,
        ValueModel::String(r.address),
    ).insert("signal"@, ValueModel::String(protocol::signal_text(r.signal)));
    let hinted = values::with_text(required, "payload_hint"@, r.payload_hint);
    let described = values::with_text(hinted, "description"@, r.description);
    ValueModel::Dict(with_value(described, "example"@, r.example))
}

/// The route that a value on the wire stands for.
pub open spec fn route_from(v: ValueModel) -> Option<RouteModel> {
    match v {
        ValueModel::Dict(f) => match protocol::string_field(f, "address"@) {
            None => None,
            Some(address) => match protocol::string_field(f, "signal"@) {
                None => None,
                Some(name) => match protocol::signal_named(name) {
                    None => None,
                    Some(signal) => Some(
                        RouteModel {
                            address,
                            signal,
                            payload_hint: protocol::string_field(f, "payload_hint"@),
                            description: protocol::string_field(f, "description"@),
                            example: protocol::value_field(f, "example"@),
                        },
                    ),
                },
            },
        },
        _ => None,
    }
}

impl RouteInfo {
    /// The value that stands for the route on the wire.
    pub fn to_value(&self) -> (r: Value)
        ensures
            r@ == route_value(self@),
    {
        let mut m = values::new_map();
        values::set_field(&mut m, "address", Value::String(self.address.clone()));
        values::set_field(
            &mut m,
            "signal",
            Value::String(protocol::signal_type_to_str(self.signal).to_owned()),
        );
        values::set_text(&mut m, "payload_hint", &self.payload_hint);
        values::set_text(&mut m, "description", &self.description);
        if let Some(ex) = &self.example {
            values::set_field(&mut m, "example", ex.clone());
        }
        Value::Dict(m)
    }

    /// The route that a value on the wire stands for. There is none where the
    /// value is no map, the address is missing or no text, or the signal is
    /// missing or no signal type.
    pub fn from_value(v: &Value) -> (r: Option<Self>)
        ensures
            match r {
                Some(x) => route_from(v@) == Some(x@),
                None => route_from(v@) is None,
            },
    {
        let m = match v {
            Value::Dict(m) => m,
            _ => {
                return None;
            },
        };
        let address = match protocol::get_string(m, "address") {
            Some(s) => s,
            None => {
                return None;
            },
        };
        let signal = match protocol::get_string(m, "signal") {
            Some(s) => match protocol::parse_signal_type(s.as_str()) {
                Some(t) => t,
                None => {
                    return None;
                },
            },
            None => {
                return None;
            },
        };
        let payload_hint = protocol::get_string(m, "payload_hint");
        let description = protocol::get_string(m, "description");
        let example = protocol::get_value(m, "example");
        Some(RouteInfo { address, signal, payload_hint, description, example })
    }
}

impl Clone for RouteInfo {
    fn clone(&self) -> (r: Self)
        ensures
            r@ == self@,
    {
        let example = match &self.example {
            Some(v) => Some(v.clone()),
            None => None,
        };
        RouteInfo {
            address: self.address.clone(),
            signal: self.signal,
            payload_hint: text::clone_opt(&self.payload_hint),
            description: text::clone_opt(&self.description),
            example,
        }
    }
}

/// What a voice tells about its capabilities and interfaces.
#[derive(Debug, PartialEq)]
pub struct VoiceManifest {
    /// Human-readable name (need not be unique).
    pub name: String,
    /// Human-readable description.
    pub description: Option<String>,
    /// Application version (no format enforced).
    pub version: Option<String>,
    /// Free-form tags.
    pub tags: Vec<String>,
    /// Capabilities that the voice offers.
    pub provides: Vec<String>,
    /// Capabilities that the voice likely requires.
    pub expects: Vec<String>,
    /// Routes that the voice exposes.
    pub routes: Vec<RouteInfo>,
}

/// What a manifest is, mathematically.
#[verifier::ext_equal]
pub struct ManifestModel {
    pub name: Seq<char>,
    pub description: Option<Seq<char>>,
    pub version: Option<Seq<char>>,
    pub tags: Seq<Seq<char>>,
    pub provides: Seq<Seq<char>>,
    pub expects: Seq<Seq<char>>,
    pub routes: Seq<RouteModel>,
}

/// What each route of a list stands for.
pub open spec fn route_views(s: Seq<RouteInfo>) -> Seq<RouteModel> {
    s.map_values(|r: RouteInfo| r@)
}

impl View for VoiceManifest {
    type V = ManifestModel;

    open spec fn view(&self) -> ManifestModel {
        ManifestModel {
            name: self.name@,
            description: text::opt_view(self.description),
            version: text::opt_view(self.version),
            tags: text::views(self.tags@),
            provides: text::views(self.provides@),
            expects: text::views(self.expects@),
            routes: route_views(self.routes@),
        }
    }
}

/// The list value that holds the given texts.
pub open spec fn text_list(s: Seq<Seq<char>>) -> ValueModel {
    ValueModel::List(s.map_values(|t: Seq<char>| ValueModel::String(t)))
}

/// The list value that holds the given routes.
pub open spec fn route_list(s: Seq<RouteModel>) -> ValueModel {
    ValueModel::List(s.map_values(|r: RouteModel| route_value(r)))
}

/// The texts among the given values, in order.
pub open spec fn texts_among(s: Seq<ValueModel>) -> Seq<Seq<char>>
    decreases s.len(),
{
    if s.len() == 0 {
        Seq::empty()
    } else {
        let init = texts_among(s.drop_last());
        match s.last() {
            ValueModel::String(t) => init.push(t),
            _ => init,
        }
    }
}

/// The routes among the given values, in order.
pub open spec fn routes_among(s: Seq<ValueModel>) -> Seq<RouteModel>
    decreases s.len(),
{
    if s.len() == 0 {
        Seq::empty()
    } else {
        let init = routes_among(s.drop_last());
        match route_from(s.last()) {
            Some(r) => init.push(r),
            None => init,
        }
    }
}

/// The texts of a list value; none where it is absent or no list.
pub open spec fn texts_of(v: Option<ValueModel>) -> Seq<Seq<char>> {
    match v {
        Some(ValueModel::List(items)) => texts_among(items),
        _ => Seq::empty(),
    }
}

/// The routes of a list value; none where it is absent or no list.
pub open spec fn routes_of(v: Option<ValueModel>) -> Seq<RouteModel> {
    match v {
        Some(ValueModel::List(items)) => routes_among(items),
        _ => Seq::empty(),
    }
}

/// The value that stands for a manifest on the wire.
pub open spec fn manifest_value(m: ManifestModel) -> ValueModel {
    let named = Map::<Seq<char>, ValueModel>::empty().insert("name"@, ValueModel::String(m.name));
    let described = values::with_text(named, "description"@, m.description);
    let versioned = values::with_text(described, "version"@, m.version);
    ValueModel::Dict(
        versioned.insert("tags"@, text_list(m.tags)).insert(
            "provides"@,
            text_list(m.provides),
        ).insert("expects"@, text_list(m.expects)).insert("routes"@, route_list(m.routes)),
    )
}

/// The manifest that a value on the wire stands for.
pub open spec fn manifest_from(v: ValueModel) -> Option<ManifestModel> {
    match v {
        ValueModel::Dict(f) => match protocol::string_field(f, "name"@) {
            None => None,
            Some(name) => Some(
                ManifestModel {
                    name,
                    description: protocol::string_field(f, "description"@),
                    version: protocol::string_field(f, "version"@),
                    tags: texts_of(protocol::value_field(f, "tags"@)),
                    provides: texts_of(protocol::value_field(f, "provides"@)),
                    expects: texts_of(protocol::value_field(f, "expects"@)),
                    routes: routes_of(protocol::value_field(f, "routes"@)),
                },
            ),
        },
        _ => None,
    }
}

/// An optional text after a patch: a text sets it, null clears it, anything else
/// leaves it.
pub open spec fn patched_text(
    current: Option<Seq<char>>,
    f: Map<Seq<char>, ValueModel>,
    key: Seq<char>,
) -> Option<Seq<char>> {
    match protocol::value_field(f, key) {
        Some(ValueModel::String(s)) => Some(s),
        Some(ValueModel::Null) => None,
        _ => current,
    }
}

/// A list of texts after a patch: replaced entirely where the patch holds it.
pub open spec fn patched_texts(
    current: Seq<Seq<char>>,
    f: Map<Seq<char>, ValueModel>,
    key: Seq<char>,
) -> Seq<Seq<char>> {
    if f.dom().contains(key) {
        texts_of(Some(f[key]))
    } else {
        current
    }
}

/// A manifest after a patch.
pub open spec fn patched(m: ManifestModel, f: Map<Seq<char>, ValueModel>) -> ManifestModel {
    ManifestModel {
        name: match protocol::string_field(f, "name"@) {
            Some(s) => s,
            None => m.name,
        },
        description: patched_text(m.description, f, "description"@),
        version: patched_text(m.version, f, "version"@),
        tags: patched_texts(m.tags, f, "tags"@),
        provides: patched_texts(m.provides, f, "provides"@),
        expects: patched_texts(m.expects, f, "expects"@),
        routes: if f.dom().contains("routes"@) {
            routes_of(Some(f["routes"@]))
        } else {
            m.routes
        },
    }
}

/// The list value that holds the given texts.
fn list_of_texts(v: &Vec<String>) -> (r: Value)
    ensures
        r@ == text_list(text::views(v@)),
{
    let mut out: Vec<Value> = Vec::new();
    let mut i: usize = 0;
    while i < v.len()
        invariant
            i <= v@.len(),
            out@.len() == i,
            forall|j: int|
                0 <= j < i ==> values::model(#[trigger] out@[j]) == ValueModel::String(v@[j]@),
        decreases v@.len() - i,
    {
        out.push(Value::String(v[i].clone()));
        i = i + 1;
    }
    assert(values::models(out@) =~= text::views(v@).map_values(
        |t: Seq<char>| ValueModel::String(t),
    ));
    Value::List(out)
}

/// The list value that holds the given routes.
fn list_of_routes(v: &Vec<RouteInfo>) -> (r: Value)
    ensures
        r@ == route_list(route_views(v@)),
{
    let mut out: Vec<Value> = Vec::new();
    let mut i: usize = 0;
    while i < v.len()
        invariant
            i <= v@.len(),
            out@.len() == i,
            forall|j: int| 0 <= j < i ==> values::model(#[trigger] out@[j]) == route_value(v@[j]@),
        decreases v@.len() - i,
    {
        out.push(v[i].to_value());
        i = i + 1;
    }
    assert(values::models(out@) =~= route_views(v@).map_values(
        |r: RouteModel| route_value(r),
    ));
    Value::List(out)
}

/// The texts of a list value. Empty where the value is absent or no list; what
/// is no text is skipped.
pub fn parse_string_list(v: Option<&Value>) -> (r: Vec<String>)
    ensures
        text::views(r@) == texts_of(
            match v {
                Some(x) => Some(x@),
                None => None,
            },
        ),
{
    let mut out: Vec<String> = Vec::new();
    assert(text::views(out@) =~= Seq::<Seq<char>>::empty());
    match v {
        Some(Value::List(items)) => {
            let ghost all = values::models(items@);
            let mut i: usize = 0;
            assert(all.take(0) =~= Seq::empty());
            while i < items.len()
                invariant
                    i <= items@.len(),
                    all == values::models(items@),
                    text::views(out@) == texts_among(all.take(i as int)),
                decreases items@.len() - i,
            {
                assert(all.take(i as int + 1).drop_last() =~= all.take(i as int));
                assert(all.take(i as int + 1).last() == values::model(items@[i as int]));
                let ghost start = out@;
                if let Value::String(s) = &items[i] {
                    out.push(s.clone());
                    assert(text::views(out@) =~= text::views(start).push(s@));
                }
                i = i + 1;
            }
            assert(all.take(all.len() as int) =~= all);
        },
        _ => {},
    }
    out
}

/// The routes of a list value. Empty where the value is absent or no list; what
/// is no route is skipped.
pub fn parse_route_list(v: Option<&Value>) -> (r: Vec<RouteInfo>)
    ensures
        route_views(r@) == routes_of(
            match v {
                Some(x) => Some(x@),
                None => None,
            },
        ),
{
    let mut out: Vec<RouteInfo> = Vec::new();
    assert(route_views(out@) =~= Seq::<RouteModel>::empty());
    match v {
        Some(Value::List(items)) => {
            let ghost all = values::models(items@);
            let mut i: usize = 0;
            assert(all.take(0) =~= Seq::empty());
            while i < items.len()
                invariant
                    i <= items@.len(),
                    all == values::models(items@),
                    route_views(out@) == routes_among(all.take(i as int)),
                decreases items@.len() - i,
            {
                assert(all.take(i as int + 1).drop_last() =~= all.take(i as int));
                assert(all.take(i as int + 1).last() == values::model(items@[i as int]));
                let ghost start = out@;
                if let Some(route) = RouteInfo::from_value(&items[i]) {
                    out.push(route);
                    assert(route_views(out@) =~= route_views(start).push(route@));
                }
                i = i + 1;
            }
            assert(all.take(all.len() as int) =~= all);
        },
        _ => {},
    }
    out
}

impl Default for VoiceManifest {
    fn default() -> (r: Self)
        ensures
            r@ == empty_manifest(Seq::empty()),
    {
        proof {
            reveal_strlit("");
            assert(""@ =~= Seq::empty());
        }
        VoiceManifest::new("")
    }
}

/// A manifest with a name and nothing else.
pub open spec fn empty_manifest(name: Seq<char>) -> ManifestModel {
    ManifestModel {
        name,
        description: None,
        version: None,
        tags: Seq::empty(),
        provides: Seq::empty(),
        expects: Seq::empty(),
        routes: Seq::empty(),
    }
}

impl VoiceManifest {
    /// A manifest with only a name.
    pub fn new(name: &str) -> (r: Self)
        ensures
            r@ == empty_manifest(name@),
    {
        let r = VoiceManifest {
            name: name.to_owned(),
            description: None,
            version: None,
            tags: Vec::new(),
            provides: Vec::new(),
            expects: Vec::new(),
            routes: Vec::new(),
        };
        assert(r@ =~= empty_manifest(name@));
        r
    }

    /// The value that stands for the manifest on the wire.
    pub fn to_value(&self) -> (r: Value)
        ensures
            r@ == manifest_value(self@),
    {
        let mut m = values::new_map();
        values::set_field(&mut m, "name", Value::String(self.name.clone()));
        values::set_text(&mut m, "description", &self.description);
        values::set_text(&mut m, "version", &self.version);
        values::set_field(&mut m, "tags", list_of_texts(&self.tags));
        values::set_field(&mut m, "provides", list_of_texts(&self.provides));
        values::set_field(&mut m, "expects", list_of_texts(&self.expects));
        values::set_field(&mut m, "routes", list_of_routes(&self.routes));
        Value::Dict(m)
    }

    /// The manifest that a value on the wire stands for. There is none where the
    /// value is no map or the name is missing or no text.
    pub fn from_value(v: &Value) -> (r: Option<Self>)
        ensures
            match r {
                Some(x) => manifest_from(v@) == Some(x@),
                None => manifest_from(v@) is None,
            },
    {
        let m = match v {
            Value::Dict(m) => m,
            _ => {
                return None;
            },
        };
        let name = match protocol::get_string(m, "name") {
            Some(s) => s,
            None => {
                return None;
            },
        };
        let description = protocol::get_string(m, "description");
        let version = protocol::get_string(m, "version");
        let tags = parse_string_list(values::field(m, "tags"));
        let provides = parse_string_list(values::field(m, "provides"));
        let expects = parse_string_list(values::field(m, "expects"));
        let routes = parse_route_list(values::field(m, "routes"));
        Some(VoiceManifest { name, description, version, tags, provides, expects, routes })
    }

    /// Applies a patch. Only fields that the patch holds are updated; lists are
    /// replaced entirely, and null clears the description and the version.
    pub fn apply_patch(&mut self, patch: &TextMap<Value>)
        ensures
            final(self)@ == patched(old(self)@, values::fields(*patch)),
    {
        if let Some(Value::String(s)) = values::field(patch, "name") {
            self.name = s.clone();
        }
        match values::field(patch, "description") {
            Some(Value::String(s)) => {
                self.description = Some(s.clone());
            },
            Some(Value::Null) => {
                self.description = None;
            },
            _ => {},
        }
        match values::field(patch, "version") {
            Some(Value::String(s)) => {
                self.version = Some(s.clone());
            },
            Some(Value::Null) => {
                self.version = None;
            },
            _ => {},
        }
        if let Some(v) = values::field(patch, "tags") {
            self.tags = parse_string_list(Some(v));
        }
        if let Some(v) = values::field(patch, "provides") {
            self.provides = parse_string_list(Some(v));
        }
        if let Some(v) = values::field(patch, "expects") {
            self.expects = parse_string_list(Some(v));
        }
        if let Some(v) = values::field(patch, "routes") {
            self.routes = parse_route_list(Some(v));
        }
    }
}

impl Clone for VoiceManifest {
    fn clone(&self) -> (r: Self)
        ensures
            r@ == self@,
    {
        let mut routes: Vec<RouteInfo> = Vec::new();
        let mut i: usize = 0;
        while i < self.routes.len()
            invariant
                i <= self.routes@.len(),
                routes@.len() == i,
                forall|j: int| 0 <= j < i ==> (#[trigger] routes@[j])@ == self.routes@[j]@,
            decreases self.routes@.len() - i,
        {
            routes.push(self.routes[i].clone());
            i = i + 1;
        }
        assert(route_views(routes@) =~= route_views(self.routes@));
        VoiceManifest {
            name: self.name.clone(),
            description: text::clone_opt(&self.description),
            version: text::clone_opt(&self.version),
            tags: text::clone_strings(&self.tags),
            provides: text::clone_strings(&self.provides),
            expects: text::clone_strings(&self.expects),
            routes,
        }
    }
}

// ---------------------------------------------------------------------------
// Laws
// ---------------------------------------------------------------------------

/// The field names of a route are different names.
pub proof fn lemma_route_keys()
    ensures
        "address"@ != "signal"@,
        "address"@ != "payload_hint"@,
        "address"@ != "description"@,
        "address"@ != "example"@,
        "signal"@ != "payload_hint"@,
        "signal"@ != "description"@,
        "signal"@ != "example"@,
        "payload_hint"@ != "description"@,
        "payload_hint"@ != "example"@,
        "description"@ != "example"@,
{
    reveal_strlit("address");
    reveal_strlit("signal");
    reveal_strlit("payload_hint");
    reveal_strlit("description");
    reveal_strlit("example");
    assert("address"@.len() == 7 && "signal"@.len() == 6 && "payload_hint"@.len() == 12
        && "description"@.len() == 11 && "example"@.len() == 7);
    assert("address"@[0] != "example"@[0]);
}

/// The field names of a manifest are different names.
pub proof fn lemma_manifest_keys()
    ensures
        "name"@ != "description"@,
        "name"@ != "version"@,
        "name"@ != "tags"@,
        "name"@ != "provides"@,
        "name"@ != "expects"@,
        "name"@ != "routes"@,
        "description"@ != "version"@,
        "description"@ != "tags"@,
        "description"@ != "provides"@,
        "description"@ != "expects"@,
        "description"@ != "routes"@,
        "version"@ != "tags"@,
        "version"@ != "provides"@,
        "version"@ != "expects"@,
        "version"@ != "routes"@,
        "tags"@ != "provides"@,
        "tags"@ != "expects"@,
        "tags"@ != "routes"@,
        "provides"@ != "expects"@,
        "provides"@ != "routes"@,
        "expects"@ != "routes"@,
{
    reveal_strlit("name");
    reveal_strlit("description");
    reveal_strlit("version");
    reveal_strlit("tags");
    reveal_strlit("provides");
    reveal_strlit("expects");
    reveal_strlit("routes");
    assert("name"@.len() == 4 && "description"@.len() == 11 && "version"@.len() == 7
        && "tags"@.len() == 4 && "provides"@.len() == 8 && "expects"@.len() == 7
        && "routes"@.len() == 6);
    assert("name"@[0] != "tags"@[0]);
    assert("version"@[0] != "expects"@[0]);
}

/// Reading back what was written for a route gives the route.
pub proof fn law_route_round_trip(r: RouteModel)
    ensures
        route_from(route_value(r)) == Some(r),
{
    lemma_route_keys();
    protocol::law_signal_name_round_trip(r.signal);
}

proof fn lemma_texts_round_trip(s: Seq<Seq<char>>)
    ensures
        texts_among(s.map_values(|t: Seq<char>| ValueModel::String(t))) == s,
    decreases s.len(),
{
    let all = s.map_values(|t: Seq<char>| ValueModel::String(t));
    if s.len() == 0 {
        assert(texts_among(all) =~= s);
    } else {
        lemma_texts_round_trip(s.drop_last());
        assert(all.drop_last() =~= s.drop_last().map_values(
            |t: Seq<char>| ValueModel::String(t),
        ));
        assert(texts_among(all) =~= s);
    }
}

proof fn lemma_routes_round_trip(s: Seq<RouteModel>)
    ensures
        routes_among(s.map_values(|r: RouteModel| route_value(r))) == s,
    decreases s.len(),
{
    let all = s.map_values(|r: RouteModel| route_value(r));
    if s.len() == 0 {
        assert(routes_among(all) =~= s);
    } else {
        lemma_routes_round_trip(s.drop_last());
        law_route_round_trip(s.last());
        assert(all.drop_last() =~= s.drop_last().map_values(|r: RouteModel| route_value(r)));
        assert(routes_among(all) =~= s);
    }
}

/// Reading back what was written for a manifest gives the manifest.
pub proof fn law_manifest_round_trip(m: ManifestModel)
    ensures
        manifest_from(manifest_value(m)) == Some(m),
{
    lemma_manifest_keys();
    lemma_texts_round_trip(m.tags);
    lemma_texts_round_trip(m.provides);
    lemma_texts_round_trip(m.expects);
    lemma_routes_round_trip(m.routes);
}

/// An empty patch changes nothing.
pub proof fn law_empty_patch_changes_nothing(m: ManifestModel)
    ensures
        patched(m, Map::empty()) == m,
{
}

/// A patch leaves every field alone that it does not hold.
pub proof fn law_patch_leaves_absent_fields(m: ManifestModel, f: Map<Seq<char>, ValueModel>)
    ensures
        !f.dom().contains("name"@) ==> patched(m, f).name == m.name,
        !f.dom().contains("description"@) ==> patched(m, f).description == m.description,
        !f.dom().contains("version"@) ==> patched(m, f).version == m.version,
        !f.dom().contains("tags"@) ==> patched(m, f).tags == m.tags,
        !f.dom().contains("provides"@) ==> patched(m, f).provides == m.provides,
        !f.dom().contains("expects"@) ==> patched(m, f).expects == m.expects,
        !f.dom().contains("routes"@) ==> patched(m, f).routes == m.routes,
{
}

/// Applying a patch twice is applying it once.
pub proof fn law_patch_idempotent(m: ManifestModel, f: Map<Seq<char>, ValueModel>)
    ensures
        patched(patched(m, f), f) == patched(m, f),
{
}

/// Patching with the whole of another manifest gives that manifest, save that an
/// absent description or version is left as it was.
pub proof fn law_full_patch_replaces(m: ManifestModel, n: ManifestModel)
    ensures
        patched(m, manifest_value(n)->Dict_0) == (ManifestModel {
            description: if n.description is Some {
                n.description
            } else {
                m.description
            },
            version: if n.version is Some {
                n.version
            } else {
                m.version
            },
            ..n
        }),
{
    lemma_manifest_keys();
    lemma_texts_round_trip(n.tags);
    lemma_texts_round_trip(n.provides);
    lemma_texts_round_trip(n.expects);
    lemma_routes_round_trip(n.routes);
}

/// The fields of a route on the wire: its address and its signal type always, the others
/// where the route has them.
pub proof fn law_route_fields(r: RouteModel)
    ensures
        route_value(r) matches ValueModel::Dict(f) && {
            &&& protocol::string_field(f, "address"@) == Some(r.address)
            &&& protocol::string_field(f, "signal"@) == Some(protocol::signal_text(r.signal))
            &&& protocol::string_field(f, "payload_hint"@) == r.payload_hint
            &&& protocol::string_field(f, "description"@) == r.description
            &&& protocol::value_field(f, "example"@) == r.example
            &&& r.payload_hint is None ==> !f.dom().contains("payload_hint"@)
            &&& r.description is None ==> !f.dom().contains("description"@)
        },
{
    lemma_route_keys();
}

/// A route needs an address and a signal type; the other fields may be absent, and of
/// another kind they count as absent.
pub proof fn law_route_needs_address_and_signal(f: Map<Seq<char>, ValueModel>, v: ValueModel)
    ensures
        !(v is Dict) ==> route_from(v) is None,
        route_from(ValueModel::Dict(f)) is Some <==> protocol::string_field(f, "address"@) is Some
            && (protocol::string_field(f, "signal"@) matches Some(name) && (name == "event"@ || name
            == "param"@ || name == "stream"@)),
        route_from(ValueModel::Dict(f)) matches Some(r) ==> {
            &&& Some(r.address) == protocol::string_field(f, "address"@)
            &&& Some(protocol::signal_text(r.signal)) == protocol::string_field(f, "signal"@)
            &&& !f.dom().contains("payload_hint"@) ==> r.payload_hint is None
            &&& !f.dom().contains("description"@) ==> r.description is None
            &&& !f.dom().contains("example"@) ==> r.example is None
        },
{
}

/// The fields of a manifest on the wire: its name and its lists always, description and
/// version where the manifest has them. List item `i` on the wire is item `i`.
pub proof fn law_manifest_fields(m: ManifestModel)
    ensures
        manifest_value(m) matches ValueModel::Dict(f) && {
            &&& protocol::string_field(f, "name"@) == Some(m.name)
            &&& protocol::string_field(f, "description"@) == m.description
            &&& protocol::string_field(f, "version"@) == m.version
            &&& m.description is None ==> !f.dom().contains("description"@)
            &&& m.version is None ==> !f.dom().contains("version"@)
            &&& is_list_of_texts(protocol::value_field(f, "tags"@), m.tags)
            &&& is_list_of_texts(protocol::value_field(f, "provides"@), m.provides)
            &&& is_list_of_texts(protocol::value_field(f, "expects"@), m.expects)
            &&& protocol::value_field(f, "routes"@) matches Some(ValueModel::List(items))
                && items.len() == m.routes.len() && forall|i: int|
                0 <= i < items.len() ==> route_from(#[trigger] items[i]) == Some(m.routes[i])
        },
{
    lemma_manifest_keys();
    let items = m.routes.map_values(|r: RouteModel| route_value(r));
    assert forall|i: int| 0 <= i < items.len() implies route_from(#[trigger] items[i]) == Some(
        m.routes[i],
    ) by {
        law_route_round_trip(m.routes[i]);
    }
}

/// Whether a value is the list of the given texts.
pub open spec fn is_list_of_texts(v: Option<ValueModel>, s: Seq<Seq<char>>) -> bool {
    v matches Some(ValueModel::List(items)) && items.len() == s.len() && forall|i: int|
        0 <= i < items.len() ==> #[trigger] items[i] == ValueModel::String(s[i])
}

/// A manifest needs a name alone. Lists that are absent, or no lists, are empty.
pub proof fn law_manifest_needs_a_name(f: Map<Seq<char>, ValueModel>, v: ValueModel)
    ensures
        !(v is Dict) ==> manifest_from(v) is None,
        manifest_from(ValueModel::Dict(f)) is Some <==> protocol::string_field(f, "name"@) is Some,
        manifest_from(ValueModel::Dict(f)) matches Some(m) ==> {
            &&& Some(m.name) == protocol::string_field(f, "name"@)
            &&& m.description == protocol::string_field(f, "description"@)
            &&& m.version == protocol::string_field(f, "version"@)
            &&& !(protocol::value_field(f, "tags"@) matches Some(ValueModel::List(_)))
                ==> m.tags.len() == 0
            &&& !(protocol::value_field(f, "provides"@) matches Some(ValueModel::List(_)))
                ==> m.provides.len() == 0
            &&& !(protocol::value_field(f, "expects"@) matches Some(ValueModel::List(_)))
                ==> m.expects.len() == 0
            &&& !(protocol::value_field(f, "routes"@) matches Some(ValueModel::List(_)))
                ==> m.routes.len() == 0
        },
{
}

/// Lists are read item by item, in order: what is no text is left out of texts, and what
/// is no route out of routes.
pub proof fn law_lists_are_read_in_order(a: Seq<ValueModel>, b: Seq<ValueModel>, v: ValueModel)
    ensures
        texts_among(a + b) == texts_among(a) + texts_among(b),
        routes_among(a + b) == routes_among(a) + routes_among(b),
        texts_among(seq![v]) == (match v {
            ValueModel::String(s) => seq![s],
            _ => Seq::empty(),
        }),
        routes_among(seq![v]) == (match route_from(v) {
            Some(r) => seq![r],
            None => Seq::empty(),
        }),
    decreases b.len(),
{
    if b.len() == 0 {
        assert(a + b =~= a);
        assert(texts_among(a) + texts_among(b) =~= texts_among(a));
        assert(routes_among(a) + routes_among(b) =~= routes_among(a));
    } else {
        assert((a + b).drop_last() =~= a + b.drop_last());
        assert((a + b).last() == b.last());
        law_lists_are_read_in_order(a, b.drop_last(), v);
        assert(texts_among(a + b) =~= texts_among(a) + texts_among(b));
        assert(routes_among(a + b) =~= routes_among(a) + routes_among(b));
    }
    assert(seq![v].drop_last() =~= Seq::empty());
    assert(texts_among(seq![v].drop_last()) =~= Seq::empty());
    assert(routes_among(seq![v].drop_last()) =~= Seq::empty());
    assert(texts_among(seq![v]) =~= (match v {
        ValueModel::String(s) => seq![s],
        _ => Seq::empty(),
    }));
    assert(routes_among(seq![v]) =~= (match route_from(v) {
        Some(r) => seq![r],
        None => Seq::empty(),
    }));
}

/// Null clears the description and the version, a text sets them, and a value of another
/// kind leaves them; the name is set by a text alone.
pub proof fn law_patch_of_texts(
    m: ManifestModel,
    f: Map<Seq<char>, ValueModel>,
    s: Seq<char>,
    v: ValueModel,
)
    requires
        !(v is String),
        !(v is Null),
    ensures
        patched(m, f.insert("description"@, ValueModel::Null)).description is None,
        patched(m, f.insert("version"@, ValueModel::Null)).version is None,
        patched(m, f.insert("description"@, ValueModel::String(s))).description == Some(s),
        patched(m, f.insert("version"@, ValueModel::String(s))).version == Some(s),
        patched(m, f.insert("description"@, v)).description == m.description,
        patched(m, f.insert("version"@, v)).version == m.version,
        patched(m, f.insert("name"@, ValueModel::String(s))).name == s,
        patched(m, f.insert("name"@, v)).name == m.name,
        patched(m, f.insert("name"@, ValueModel::Null)).name == m.name,
{
}

/// A list in a patch replaces the whole list; what is no list empties it.
pub proof fn law_patch_of_lists(
    m: ManifestModel,
    f: Map<Seq<char>, ValueModel>,
    tags: Seq<Seq<char>>,
    routes: Seq<RouteModel>,
    v: ValueModel,
)
    requires
        !(v is List),
    ensures
        patched(m, f.insert("tags"@, text_list(tags))).tags == tags,
        patched(m, f.insert("provides"@, text_list(tags))).provides == tags,
        patched(m, f.insert("expects"@, text_list(tags))).expects == tags,
        patched(m, f.insert("routes"@, route_list(routes))).routes == routes,
        patched(m, f.insert("tags"@, v)).tags.len() == 0,
        patched(m, f.insert("provides"@, v)).provides.len() == 0,
        patched(m, f.insert("expects"@, v)).expects.len() == 0,
        patched(m, f.insert("routes"@, v)).routes.len() == 0,
{
    lemma_texts_round_trip(tags);
    lemma_routes_round_trip(routes);
}

} // verus!
