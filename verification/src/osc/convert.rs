//! Conversion between values and OSC arguments, and address translation.
//!
//! Integers become 32-bit ones (clamped), tuples and lists several arguments,
//! maps a JSON text, and tagged binary data a blob with the tag in front. In the
//! other direction no argument is null, one argument a value, and several are a
//! tuple.
use vstd::prelude::*;

use crate::protocol;
use crate::protocol::{MessageModel, SignalType, WireMessage};
use crate::text;
use crate::text_map::TextMap;
use crate::values;
use crate::values::{FloatValue, Value, ValueModel};

verus! {

// ---------------------------------------------------------------------------
// Arguments
// ---------------------------------------------------------------------------

/// An OSC argument.
///
/// A float is held as the double that it is narrowed from or widened to, and a
/// map as what its JSON text is made from; received JSON is a string like any
/// other.
#[derive(Debug)]
pub enum OscArg {
    Nil,
    Bool(bool),
    Int(i32),
    Float(FloatValue),
    String(String),
    Blob(Vec<u8>),
    Array(Vec<OscArg>),
    /// A received argument of a kind without a counterpart, as its debug text.
    Rare(String),
    Json(TextMap<Value>),
}

/// What an OSC argument is, mathematically.
pub enum OscModel {
    Nil,
    Bool(bool),
    Int(i32),
    Float(FloatValue),
    String(Seq<char>),
    Blob(Seq<u8>),
    Array(Seq<OscModel>),
    Rare(Seq<char>),
    Json(Map<Seq<char>, ValueModel>),
}

/// What an argument stands for.
pub open spec fn arg_model(a: OscArg) -> OscModel
    decreases a,
{
    match a {
        OscArg::Nil => OscModel::Nil,
        OscArg::Bool(b) => OscModel::Bool(b),
        OscArg::Int(n) => OscModel::Int(n),
        OscArg::Float(f) => OscModel::Float(f),
        OscArg::String(s) => OscModel::String(s@),
        OscArg::Blob(b) => OscModel::Blob(b@),
        OscArg::Array(items) => OscModel::Array(arg_models(items@)),
        OscArg::Rare(s) => OscModel::Rare(s@),
        OscArg::Json(m) => OscModel::Json(values::fields(m)),
    }
}

/// What each argument of a list stands for.
pub open spec fn arg_models(s: Seq<OscArg>) -> Seq<OscModel>
    decreases s,
{
    Seq::new(
        s.len(),
        |i: int|
            if 0 <= i < s.len() {
                arg_model(s[i])
            } else {
                OscModel::Nil
            },
    )
}

impl View for OscArg {
    type V = OscModel;

    open spec fn view(&self) -> OscModel {
        arg_model(*self)
    }
}

/// The integer nearest to `n` that fits in 32 bits.
pub open spec fn clamped(n: i64) -> i32 {
    if n < i32::MIN {
        i32::MIN
    } else if n > i32::MAX {
        i32::MAX
    } else {
        n as i32
    }
}

/// The OSC arguments of a value.
pub open spec fn osc_args(v: ValueModel) -> Seq<OscModel>
    decreases v,
{
    match v {
        ValueModel::Null => seq![OscModel::Nil],
        ValueModel::Bool(b) => seq![OscModel::Bool(b)],
        ValueModel::Integer(n) => seq![OscModel::Int(clamped(n))],
        ValueModel::Float(f) => seq![OscModel::Float(f)],
        ValueModel::String(s) => seq![OscModel::String(s)],
        ValueModel::Binary(b) => seq![OscModel::Blob(b)],
        ValueModel::Tuple(items) => osc_args_of_all(items),
        ValueModel::List(items) => osc_args_of_all(items),
        ValueModel::Dict(f) => seq![OscModel::Json(f)],
        ValueModel::TypedBinary { tag, data } => seq![
            OscModel::Blob(vstd::utf8::encode_utf8(tag).push(0u8) + data),
        ],
    }
}

/// The OSC arguments of several values, one after the other.
pub open spec fn osc_args_of_all(s: Seq<ValueModel>) -> Seq<OscModel>
    decreases s,
{
    if s.len() == 0 {
        Seq::empty()
    } else {
        osc_args_of_all(s.drop_last()) + osc_args(s.last())
    }
}

/// Whether an argument is one that can be received: JSON arrives as a string.
pub open spec fn is_received(a: OscModel) -> bool
    decreases a,
{
    match a {
        OscModel::Json(_) => false,
        OscModel::Array(items) => are_received(items),
        _ => true,
    }
}

/// Whether each argument of a list is one that can be received.
pub open spec fn are_received(s: Seq<OscModel>) -> bool
    decreases s,
{
    forall|i: int| 0 <= i < s.len() ==> is_received(#[trigger] s[i])
}

/// The value of an OSC argument that was received.
pub open spec fn arg_value(a: OscModel) -> ValueModel
    recommends
        is_received(a),
    decreases a,
{
    match a {
        OscModel::Nil => ValueModel::Null,
        OscModel::Bool(b) => ValueModel::Bool(b),
        OscModel::Int(n) => ValueModel::Integer(n as i64),
        OscModel::Float(f) => ValueModel::Float(f),
        OscModel::String(s) => ValueModel::String(s),
        OscModel::Blob(b) => ValueModel::Binary(b),
        OscModel::Array(items) => ValueModel::List(arg_values(items)),
        OscModel::Rare(s) => ValueModel::String(s),
        OscModel::Json(_) => arbitrary(),
    }
}

/// The values of several OSC arguments.
pub open spec fn arg_values(s: Seq<OscModel>) -> Seq<ValueModel>
    decreases s,
{
    Seq::new(
        s.len(),
        |i: int|
            if 0 <= i < s.len() {
                arg_value(s[i])
            } else {
                ValueModel::Null
            },
    )
}

/// The value of a list of OSC arguments.
pub open spec fn args_value(s: Seq<OscModel>) -> ValueModel {
    if s.len() == 0 {
        ValueModel::Null
    } else if s.len() == 1 {
        arg_value(s[0])
    } else {
        ValueModel::Tuple(arg_values(s))
    }
}

fn one(a: OscArg) -> (r: Vec<OscArg>)
    ensures
        arg_models(r@) == seq![a@],
{
    let mut v: Vec<OscArg> = Vec::new();
    v.push(a);
    assert(arg_models(v@) =~= seq![a@]);
    v
}

fn tagged_blob(tag: &String, data: &Vec<u8>) -> (r: Vec<u8>)
    ensures
        r@ == vstd::utf8::encode_utf8(tag@).push(0u8) + data@,
{
    let bytes = tag.as_str().as_bytes();
    let mut out: Vec<u8> = Vec::new();
    let mut i: usize = 0;
    while i < bytes.len()
        invariant
            i <= bytes@.len(),
            out@ == bytes@.take(i as int),
        decreases bytes@.len() - i,
    {
        out.push(bytes[i]);
        i = i + 1;
        assert(out@ =~= bytes@.take(i as int));
    }
    assert(bytes@.take(bytes@.len() as int) =~= bytes@);
    out.push(0);
    let mut rest = values::clone_bytes(data);
    out.append(&mut rest);
    out
}

/// Converts a value to OSC arguments. Tuples and lists become several.
pub fn ensemble_to_osc_args(payload: &Value) -> (r: Vec<OscArg>)
    ensures
        arg_models(r@) == osc_args(payload@),
    decreases payload,
{
    match payload {
        Value::Null => one(OscArg::Nil),
        Value::Bool(b) => one(OscArg::Bool(*b)),
        Value::Integer(n) => {
            let c: i32 = if *n < i32::MIN as i64 {
                i32::MIN
            } else if *n > i32::MAX as i64 {
                i32::MAX
            } else {
                *n as i32
            };
            one(OscArg::Int(c))
        },
        Value::Float(f) => one(OscArg::Float(*f)),
        Value::String(s) => one(OscArg::String(s.clone())),
        Value::Binary(b) => one(OscArg::Blob(values::clone_bytes(b))),
        Value::Tuple(items) => all_to_osc_args(items),
        Value::List(items) => all_to_osc_args(items),
        Value::Dict(m) => one(OscArg::Json(values::clone_map(m))),
        Value::TypedBinary { tag, data } => one(OscArg::Blob(tagged_blob(tag, data))),
    }
}

fn all_to_osc_args(items: &Vec<Value>) -> (r: Vec<OscArg>)
    ensures
        arg_models(r@) == osc_args_of_all(values::models(items@)),
    decreases items,
{
    let mut out: Vec<OscArg> = Vec::new();
    let mut i: usize = 0;
    let ghost all = values::models(items@);
    assert(all.take(0) =~= Seq::empty());
    assert(arg_models(out@) =~= osc_args_of_all(all.take(0)));
    while i < items.len()
        invariant
            i <= items@.len(),
            all == values::models(items@),
            arg_models(out@) == osc_args_of_all(all.take(i as int)),
        decreases items@.len() - i,
    {
        assert(decreases_to!(items => items@[i as int]));
        let mut more = ensemble_to_osc_args(&items[i]);
        let ghost start = out@;
        let ghost added = more@;
        out.append(&mut more);
        assert(arg_models(out@) =~= arg_models(start) + arg_models(added));
        assert(all.take(i as int + 1).drop_last() =~= all.take(i as int));
        assert(all.take(i as int + 1).last() == values::model(items@[i as int]));
        i = i + 1;
    }
    assert(all.take(all.len() as int) =~= all);
    out
}

/// Converts an OSC argument that was received to a value.
pub fn osc_type_to_value(arg: &OscArg) -> (r: Value)
    requires
        is_received(arg@),
    ensures
        r@ == arg_value(arg@),
    decreases arg,
{
    match arg {
        OscArg::Nil => Value::Null,
        OscArg::Bool(b) => Value::Bool(*b),
        OscArg::Int(n) => Value::Integer(*n as i64),
        OscArg::Float(f) => Value::Float(*f),
        OscArg::String(s) => Value::String(s.clone()),
        OscArg::Blob(b) => Value::Binary(values::clone_bytes(b)),
        OscArg::Array(items) => Value::List(all_to_values(items)),
        OscArg::Rare(s) => Value::String(s.clone()),
        OscArg::Json(_) => Value::Null,
    }
}

fn all_to_values(items: &Vec<OscArg>) -> (r: Vec<Value>)
    requires
        are_received(arg_models(items@)),
    ensures
        values::models(r@) == arg_values(arg_models(items@)),
    decreases items,
{
    let mut out: Vec<Value> = Vec::new();
    let mut i: usize = 0;
    while i < items.len()
        invariant
            i <= items@.len(),
            are_received(arg_models(items@)),
            out@.len() == i,
            forall|j: int|
                0 <= j < i ==> values::model(#[trigger] out@[j]) == arg_value(
                    arg_model(items@[j]),
                ),
        decreases items@.len() - i,
    {
        assert(decreases_to!(items => items@[i as int]));
        assert(is_received(arg_models(items@)[i as int]));
        let v = osc_type_to_value(&items[i]);
        out.push(v);
        i = i + 1;
    }
    assert(values::models(out@) =~= arg_values(arg_models(items@)));
    out
}

/// Converts OSC arguments to a value.
pub fn osc_to_ensemble_value(args: &Vec<OscArg>) -> (r: Value)
    requires
        are_received(arg_models(args@)),
    ensures
        r@ == args_value(arg_models(args@)),
{
    if args.len() == 0 {
        Value::Null
    } else if args.len() == 1 {
        osc_type_to_value(&args[0])
    } else {
        Value::Tuple(all_to_values(args))
    }
}

// ---------------------------------------------------------------------------
// Addresses
// ---------------------------------------------------------------------------

/// The text without the slashes at its end.
pub open spec fn without_end_slashes(s: Seq<char>) -> Seq<char>
    decreases s.len(),
{
    if s.len() > 0 && s.last() == '/' {
        without_end_slashes(s.drop_last())
    } else {
        s
    }
}

/// What follows a prefix in an address, where the prefix ends at a segment
/// boundary of it. Slashes at the end of the prefix do not count.
pub open spec fn after_prefix(addr: Seq<char>, prefix: Seq<char>) -> Option<Seq<char>> {
    let p = without_end_slashes(prefix);
    if text::has_prefix(addr, p) {
        let rest = addr.skip(p.len() as int);
        if rest.len() == 0 || rest[0] == '/' {
            Some(rest)
        } else {
            None
        }
    } else {
        None
    }
}

/// The address that a prefix and the rest of an address make.
pub open spec fn prefixed(prefix: Seq<char>, rest: Seq<char>) -> Seq<char> {
    if prefix.len() == 0 {
        if rest.len() == 0 {
            seq!['/']
        } else if rest[0] != '/' {
            seq!['/'] + rest
        } else {
            rest
        }
    } else if rest.len() == 0 {
        prefix
    } else if rest[0] == '/' {
        prefix + rest
    } else {
        prefix.push('/') + rest
    }
}

/// The OSC address of an outbound address; none where it is not below the prefix.
pub open spec fn outbound_address(
    ens_addr: Seq<char>,
    ens_prefix: Seq<char>,
    osc_prefix: Seq<char>,
) -> Option<Seq<char>> {
    if ens_prefix.len() == 0 {
        Some(prefixed(osc_prefix, ens_addr))
    } else {
        match after_prefix(ens_addr, ens_prefix) {
            Some(rest) => Some(prefixed(osc_prefix, rest)),
            None => None,
        }
    }
}

/// The address of an inbound OSC address. Where it is not below the OSC prefix it
/// is kept whole.
pub open spec fn inbound_address(
    osc_addr: Seq<char>,
    osc_prefix: Seq<char>,
    ens_prefix: Seq<char>,
) -> Seq<char> {
    let rest = if osc_prefix.len() == 0 {
        osc_addr
    } else {
        match after_prefix(osc_addr, osc_prefix) {
            Some(rest) => rest,
            None => osc_addr,
        }
    };
    prefixed(ens_prefix, rest)
}

fn trim_end_slashes(v: &Vec<char>) -> (r: Vec<char>)
    ensures
        r@ == without_end_slashes(v@),
{
    let mut to: usize = v.len();
    assert(v@.take(to as int) =~= v@);
    while to > 0 && v[to - 1] == '/'
        invariant
            to <= v@.len(),
            without_end_slashes(v@) == without_end_slashes(v@.take(to as int)),
        decreases to,
    {
        assert(v@.take(to as int).drop_last() =~= v@.take(to - 1));
        to = to - 1;
    }
    let mut out: Vec<char> = Vec::new();
    let mut i: usize = 0;
    while i < to
        invariant
            i <= to <= v@.len(),
            out@ == v@.take(i as int),
        decreases to - i,
    {
        out.push(v[i]);
        i = i + 1;
        assert(out@ =~= v@.take(i as int));
    }
    out
}

/// A prefix without the slashes at its end.
pub fn trimmed_prefix(prefix: &str) -> (r: String)
    ensures
        r@ == without_end_slashes(prefix@),
{
    let v = text::chars_of(prefix);
    let t = trim_end_slashes(&v);
    text::string_of(&t)
}

/// Strips a prefix from an address on a segment boundary: `/osc/out` is no prefix
/// of `/osc/output`. A slash at the end of the prefix is ignored.
pub fn strip_prefix_segment(addr: &str, prefix: &str) -> (r: Option<String>)
    ensures
        text::opt_view(r) == after_prefix(addr@, prefix@),
{
    let a = text::chars_of(addr);
    let given = text::chars_of(prefix);
    let p = trim_end_slashes(&given);
    if !text::starts_with(&a, &p) {
        return None;
    }
    let ghost rest = a@.skip(p@.len() as int);
    assert(a@.subrange(p@.len() as int, a@.len() as int) =~= rest);
    if p.len() == a.len() || a[p.len()] == '/' {
        Some(text::string_between(&a, p.len(), a.len()))
    } else {
        None
    }
}

fn put_prefix(prefix: &str, rest: &str) -> (r: String)
    ensures
        r@ == prefixed(prefix@, rest@),
{
    let p = text::chars_of(prefix);
    let s = text::chars_of(rest);
    let mut out: Vec<char> = text::chars_of(prefix);
    if s.len() == 0 {
        if p.len() == 0 {
            out.push('/');
            assert(out@ =~= seq!['/']);
        }
    } else {
        let mut tail = text::chars_of(rest);
        if s[0] != '/' {
            out.push('/');
        }
        let ghost head = out@;
        out.append(&mut tail);
        assert(out@ =~= head + rest@);
        assert(out@ =~= prefixed(prefix@, rest@));
    }
    text::string_of(&out)
}

/// Translates an address to an OSC address: strips the prefix, on a segment
/// boundary, and puts the OSC prefix in front. None where the address is not below
/// the prefix.
pub fn translate_address_outbound(ens_addr: &str, ens_prefix: &str, osc_prefix: &str) -> (r: Option<
    String,
>)
    ensures
        text::opt_view(r) == outbound_address(ens_addr@, ens_prefix@, osc_prefix@),
{
    if ens_prefix.is_empty() {
        return Some(put_prefix(osc_prefix, ens_addr));
    }
    match strip_prefix_segment(ens_addr, ens_prefix) {
        Some(rest) => Some(put_prefix(osc_prefix, rest.as_str())),
        None => None,
    }
}

/// Translates an OSC address to an address: strips the OSC prefix, where it is one
/// on a segment boundary, and puts the prefix in front.
pub fn translate_address_inbound(osc_addr: &str, osc_prefix: &str, ens_prefix: &str) -> (r: String)
    ensures
        r@ == inbound_address(osc_addr@, osc_prefix@, ens_prefix@),
{
    if osc_prefix.is_empty() {
        return put_prefix(ens_prefix, osc_addr);
    }
    match strip_prefix_segment(osc_addr, osc_prefix) {
        Some(rest) => put_prefix(ens_prefix, rest.as_str()),
        None => put_prefix(ens_prefix, osc_addr),
    }
}

// ---------------------------------------------------------------------------
// Messages
// ---------------------------------------------------------------------------

/// An OSC message.
#[derive(Debug)]
pub struct OscMessage {
    pub addr: String,
    pub args: Vec<OscArg>,
}

/// Whether the OSC message of an address and a payload is `r`.
pub open spec fn is_osc_message(
    r: Option<OscMessage>,
    ens_addr: Seq<char>,
    payload: ValueModel,
    ens_prefix: Seq<char>,
    osc_prefix: Seq<char>,
) -> bool {
    match outbound_address(ens_addr, ens_prefix, osc_prefix) {
        Some(addr) => r matches Some(m) && m.addr@ == addr && arg_models(m.args@) == osc_args(
            payload,
        ),
        None => r is None,
    }
}

/// The OSC message of an address and a payload.
pub fn to_osc_message(ens_addr: &str, payload: &Value, ens_prefix: &str, osc_prefix: &str) -> (r:
    Option<OscMessage>)
    ensures
        is_osc_message(r, ens_addr@, payload@, ens_prefix@, osc_prefix@),
{
    match translate_address_outbound(ens_addr, ens_prefix, osc_prefix) {
        Some(addr) => Some(OscMessage { addr, args: ensemble_to_osc_args(payload) }),
        None => None,
    }
}

/// The address and the arguments of the OSC message for a message of the hub.
pub open spec fn outgoing(
    m: MessageModel,
    ens_prefix: Seq<char>,
    osc_prefix: Seq<char>,
) -> Option<(Seq<char>, Seq<OscModel>)> {
    if m.msg_type == protocol::MSG_ACTION@ && m.payload is Dict {
        match outbound_address(protocol::action_address(m), ens_prefix, osc_prefix) {
            Some(addr) => Some((addr, osc_args(protocol::action_payload(m)))),
            None => None,
        }
    } else {
        None
    }
}

/// The OSC message to send for a message of the hub. Only actions become OSC
/// messages: an unset does not become one without arguments.
pub fn route_action(msg: &WireMessage, ens_prefix: &str, osc_prefix: &str) -> (r: Option<
    OscMessage,
>)
    ensures
        match r {
            Some(m) => outgoing(msg@, ens_prefix@, osc_prefix@) == Some(
                (m.addr@, arg_models(m.args@)),
            ),
            None => outgoing(msg@, ens_prefix@, osc_prefix@) is None,
        },
        if msg@.msg_type == protocol::MSG_ACTION@ && msg@.payload is Dict {
            is_osc_message(
                r,
                protocol::action_address(msg@),
                protocol::action_payload(msg@),
                ens_prefix@,
                osc_prefix@,
            )
        } else {
            r is None
        },
{
    if !protocol::is_type(msg, protocol::MSG_ACTION) {
        return None;
    }
    let map = match &msg.payload {
        Value::Dict(m) => m,
        _ => {
            return None;
        },
    };
    let address = match protocol::get_string(map, "address") {
        Some(a) => a,
        None => String::new(),
    };
    let payload = match protocol::get_value(map, "payload") {
        Some(v) => v,
        None => Value::Null,
    };
    to_osc_message(address.as_str(), &payload, ens_prefix, osc_prefix)
}

/// The action that an inbound OSC message stands for: an immediate event below
/// `/osc/in`.
pub open spec fn inbound_action(
    addr: Seq<char>,
    args: Seq<OscModel>,
    osc_prefix: Seq<char>,
) -> MessageModel {
    protocol::action_message(
        inbound_address(addr, osc_prefix, "/osc/in"@),
        SignalType::Event,
        FloatValue { bits: 0 },
        args_value(args),
    )
}

/// The action for an inbound OSC message.
pub fn received_action(msg: &OscMessage, osc_prefix: &str) -> (r: WireMessage)
    requires
        are_received(arg_models(msg.args@)),
    ensures
        r@ == inbound_action(msg.addr@, arg_models(msg.args@), osc_prefix@),
{
    let address = translate_address_inbound(msg.addr.as_str(), osc_prefix, "/osc/in");
    let value = osc_to_ensemble_value(&msg.args);
    protocol::action(address.as_str(), SignalType::Event, FloatValue::zero(), value)
}

// ---------------------------------------------------------------------------
// Laws
// ---------------------------------------------------------------------------

/// A slash at the end of a prefix makes no difference.
pub proof fn law_end_slash_is_ignored(addr: Seq<char>, prefix: Seq<char>)
    ensures
        after_prefix(addr, prefix.push('/')) == after_prefix(addr, prefix),
{
    assert(prefix.push('/').drop_last() =~= prefix);
}

/// What is stripped is a whole number of segments: the address is the prefix and
/// the rest, and the rest is empty or begins a segment.
pub proof fn law_prefix_ends_at_segment(addr: Seq<char>, prefix: Seq<char>)
    ensures
        after_prefix(addr, prefix) matches Some(rest) ==> addr == without_end_slashes(prefix) + rest
            && (rest.len() == 0 || rest[0] == '/'),
{
    let p = without_end_slashes(prefix);
    if text::has_prefix(addr, p) {
        assert(addr =~= addr.take(p.len() as int) + addr.skip(p.len() as int));
    }
}

/// Going out and coming back through the same prefixes gives the address again.
/// The bare prefix is the exception where there is no OSC prefix: it becomes `/`.
pub proof fn law_address_round_trip(ens_prefix: Seq<char>, osc_prefix: Seq<char>, rest: Seq<char>)
    requires
        ens_prefix.len() > 0 && ens_prefix.last() != '/',
        osc_prefix.len() == 0 || osc_prefix.last() != '/',
        rest.len() == 0 || rest[0] == '/',
        rest.len() > 0 || osc_prefix.len() > 0,
    ensures
        outbound_address(ens_prefix + rest, ens_prefix, osc_prefix) matches Some(osc_addr)
            && inbound_address(osc_addr, osc_prefix, ens_prefix) == ens_prefix + rest,
{
    let addr = ens_prefix + rest;
    assert(addr.take(ens_prefix.len() as int) =~= ens_prefix);
    assert(addr.skip(ens_prefix.len() as int) =~= rest);
    let osc_addr = prefixed(osc_prefix, rest);
    if osc_prefix.len() > 0 {
        assert(osc_addr =~= osc_prefix + rest);
        assert(osc_addr.take(osc_prefix.len() as int) =~= osc_prefix);
        assert(osc_addr.skip(osc_prefix.len() as int) =~= rest);
    }
    assert(prefixed(ens_prefix, rest) =~= ens_prefix + rest);
}

/// Whether OSC has a value as it is: null, a bool, a 32-bit integer, a string or
/// binary data.
pub open spec fn is_osc_scalar(v: ValueModel) -> bool {
    match v {
        ValueModel::Null | ValueModel::Bool(_) | ValueModel::String(_) | ValueModel::Binary(_) =>
            true,
        ValueModel::Integer(n) => i32::MIN <= n <= i32::MAX,
        _ => false,
    }
}

/// A value that OSC has as it is survives the trip to OSC arguments and back.
pub proof fn law_scalar_round_trip(v: ValueModel)
    requires
        is_osc_scalar(v),
    ensures
        are_received(osc_args(v)),
        args_value(osc_args(v)) == v,
{
}

/// A tuple of two or more values that OSC has as they are survives the trip too.
/// An empty one comes back as null, and one of a single value as that value.
pub proof fn law_tuple_round_trip(items: Seq<ValueModel>)
    requires
        items.len() >= 2,
        forall|i: int| 0 <= i < items.len() ==> is_osc_scalar(#[trigger] items[i]),
    ensures
        are_received(osc_args(ValueModel::Tuple(items))),
        args_value(osc_args(ValueModel::Tuple(items))) == ValueModel::Tuple(items),
{
    lemma_scalars_to_args(items);
    assert(arg_values(osc_args_of_all(items)) =~= items);
}

proof fn lemma_scalars_to_args(items: Seq<ValueModel>)
    requires
        forall|i: int| 0 <= i < items.len() ==> is_osc_scalar(#[trigger] items[i]),
    ensures
        osc_args_of_all(items).len() == items.len(),
        forall|i: int|
            0 <= i < items.len() ==> arg_value(#[trigger] osc_args_of_all(items)[i]) == items[i],
        are_received(osc_args_of_all(items)),
    decreases items.len(),
{
    if items.len() > 0 {
        let init = items.drop_last();
        assert forall|i: int| 0 <= i < init.len() implies is_osc_scalar(#[trigger] init[i]) by {
            assert(init[i] == items[i]);
        }
        lemma_scalars_to_args(init);
        let last = items.last();
        assert(is_osc_scalar(items[items.len() - 1]));
        assert(osc_args_of_all(items) == osc_args_of_all(init) + osc_args(last));
        assert(osc_args(last).len() == 1 && arg_value(osc_args(last)[0]) == last && is_received(
            osc_args(last)[0],
        ));
        assert forall|i: int| 0 <= i < items.len() implies arg_value(
            #[trigger] osc_args_of_all(items)[i],
        ) == items[i] && is_received(osc_args_of_all(items)[i]) by {
            if i < init.len() {
                assert(osc_args_of_all(items)[i] == osc_args_of_all(init)[i]);
            }
        }
    }
}

/// Clamping keeps the order of integers.
pub proof fn law_clamping_keeps_order(a: i64, b: i64)
    requires
        a <= b,
    ensures
        clamped(a) <= clamped(b),
{
}

/// A list goes out as the same arguments, in the same order, as the tuple of its
/// items.
pub proof fn law_list_goes_out_as_tuple(items: Seq<ValueModel>)
    ensures
        osc_args(ValueModel::List(items)) == osc_args(ValueModel::Tuple(items)),
{
}

/// Items go out one after the other, in order: the arguments of two groups of items
/// are those of the first group, then those of the second, and those of one item are
/// its own. This holds of nested collections too.
pub proof fn law_arguments_keep_their_order(
    first: Seq<ValueModel>,
    second: Seq<ValueModel>,
    item: ValueModel,
)
    ensures
        osc_args(ValueModel::Tuple(first + second)) == osc_args(ValueModel::Tuple(first))
            + osc_args(ValueModel::Tuple(second)),
        osc_args(ValueModel::Tuple(seq![item])) == osc_args(item),
        osc_args(ValueModel::Tuple(Seq::empty())).len() == 0,
{
    lemma_args_of_parts(first, second);
    assert(seq![item].drop_last() =~= Seq::empty());
    assert(osc_args_of_all(seq![item].drop_last()) =~= Seq::empty());
    assert(osc_args_of_all(seq![item]) =~= osc_args(item));
}

proof fn lemma_args_of_parts(first: Seq<ValueModel>, second: Seq<ValueModel>)
    ensures
        osc_args_of_all(first + second) == osc_args_of_all(first) + osc_args_of_all(second),
    decreases second.len(),
{
    if second.len() == 0 {
        assert(first + second =~= first);
    } else {
        lemma_args_of_parts(first, second.drop_last());
        assert((first + second).drop_last() =~= first + second.drop_last());
        assert((first + second).last() == second.last());
    }
    assert(osc_args_of_all(first + second) =~= osc_args_of_all(first) + osc_args_of_all(second));
}

/// Of a list of values that OSC has as they are, argument `i` is the argument of item
/// `i`, and two or more come back as the tuple of the items in order.
pub proof fn law_list_of_scalars(items: Seq<ValueModel>, i: int)
    requires
        forall|j: int| 0 <= j < items.len() ==> is_osc_scalar(#[trigger] items[j]),
        0 <= i < items.len(),
    ensures
        osc_args(ValueModel::List(items)).len() == items.len(),
        osc_args(items[i]) == seq![osc_args(ValueModel::List(items))[i]],
        items.len() >= 2 ==> args_value(osc_args(ValueModel::List(items))) == ValueModel::Tuple(
            items,
        ),
{
    lemma_scalars_to_args(items);
    assert(arg_values(osc_args_of_all(items)) =~= items);
    lemma_scalar_arg(items, i);
}

proof fn lemma_scalar_arg(items: Seq<ValueModel>, i: int)
    requires
        forall|j: int| 0 <= j < items.len() ==> is_osc_scalar(#[trigger] items[j]),
        0 <= i < items.len(),
    ensures
        osc_args(items[i]) == seq![osc_args_of_all(items)[i]],
    decreases items.len(),
{
    let init = items.drop_last();
    assert forall|j: int| 0 <= j < init.len() implies is_osc_scalar(#[trigger] init[j]) by {
        assert(init[j] == items[j]);
    }
    lemma_scalars_to_args(init);
    assert(is_osc_scalar(items[items.len() - 1]));
    assert(osc_args(items.last()).len() == 1);
    if i < init.len() {
        lemma_scalar_arg(init, i);
        assert(init[i] == items[i]);
    } else {
        assert(osc_args(items[i]) =~= seq![osc_args_of_all(items)[i]]);
    }
}

/// A float goes out as one float argument that holds it, and a map as one argument
/// that holds its fields.
pub proof fn law_floats_and_maps_are_one_argument(
    f: FloatValue,
    fields: Map<Seq<char>, ValueModel>,
)
    ensures
        osc_args(ValueModel::Float(f)) == seq![OscModel::Float(f)],
        args_value(seq![OscModel::Float(f)]) == ValueModel::Float(f),
        osc_args(ValueModel::Dict(fields)) == seq![OscModel::Json(fields)],
{
}

/// Tagged data goes out as one blob: the bytes of the tag, a zero, and the data.
pub proof fn law_tagged_data_is_one_blob(tag: Seq<char>, data: Seq<u8>)
    ensures
        osc_args(ValueModel::TypedBinary { tag, data }).len() == 1,
        osc_args(ValueModel::TypedBinary { tag, data })[0] matches OscModel::Blob(b) && {
            let n = vstd::utf8::encode_utf8(tag).len() as int;
            &&& b.len() == n + 1 + data.len()
            &&& b.take(n) == vstd::utf8::encode_utf8(tag)
            &&& b[n] == 0
            &&& b.skip(n + 1) == data
        },
{
    let n = vstd::utf8::encode_utf8(tag).len() as int;
    let b = vstd::utf8::encode_utf8(tag).push(0u8) + data;
    assert(b.take(n) =~= vstd::utf8::encode_utf8(tag));
    assert(b.skip(n + 1) =~= data);
}

/// Several arguments become the tuple of what each of them becomes alone, in order,
/// an array becomes the list of that, and no argument becomes null.
pub proof fn law_received_arguments_keep_their_order(args: Seq<OscModel>, i: int)
    requires
        0 <= i < args.len(),
    ensures
        args.len() >= 2 ==> (args_value(args) matches ValueModel::Tuple(items) && items.len()
            == args.len() && items[i] == args_value(seq![args[i]])),
        args_value(seq![OscModel::Array(args)]) matches ValueModel::List(items) && items.len()
            == args.len() && items[i] == args_value(seq![args[i]]),
        args_value(Seq::empty()) == ValueModel::Null,
{
}

/// What each kind of received argument becomes.
pub proof fn law_received_arguments(n: i32, b: bool, s: Seq<char>, data: Seq<u8>)
    ensures
        args_value(seq![OscModel::Int(n)]) == ValueModel::Integer(n as i64),
        args_value(seq![OscModel::Bool(b)]) == ValueModel::Bool(b),
        args_value(seq![OscModel::String(s)]) == ValueModel::String(s),
        args_value(seq![OscModel::Rare(s)]) == ValueModel::String(s),
        args_value(seq![OscModel::Blob(data)]) == ValueModel::Binary(data),
        args_value(seq![OscModel::Nil]) == ValueModel::Null,
{
}

/// An integer outside the 32-bit range goes out as the nearest one inside it.
pub proof fn law_wide_integers_are_clamped(n: i64)
    ensures
        n > i32::MAX ==> osc_args(ValueModel::Integer(n)) == seq![OscModel::Int(i32::MAX)],
        n < i32::MIN ==> osc_args(ValueModel::Integer(n)) == seq![OscModel::Int(i32::MIN)],
{
}

/// A prefix is stripped from every address that goes on behind it with a new segment, and
/// from itself; where the address goes on in the same segment it is not.
pub proof fn law_whole_segments_are_stripped(prefix: Seq<char>, rest: Seq<char>)
    requires
        prefix.len() == 0 || prefix.last() != '/',
    ensures
        rest.len() == 0 || rest[0] == '/' ==> after_prefix(prefix + rest, prefix) == Some(rest),
        rest.len() > 0 && rest[0] != '/' ==> after_prefix(prefix + rest, prefix) is None,
{
    let addr = prefix + rest;
    assert(addr.take(prefix.len() as int) =~= prefix);
    assert(addr.skip(prefix.len() as int) =~= rest);
}

/// An address that does not begin with the prefix does not go out; coming in it is kept
/// whole, below the prefix of the hub.
pub proof fn law_foreign_addresses(addr: Seq<char>, from: Seq<char>, to: Seq<char>, i: int)
    requires
        from.len() > 0 && from.last() != '/',
        0 <= i < from.len(),
        i >= addr.len() || addr[i] != from[i],
    ensures
        outbound_address(addr, from, to) is None,
        addr.len() > 0 && addr[0] == '/' ==> inbound_address(addr, from, to) == to + addr,
{
    if text::has_prefix(addr, from) {
        assert(addr.take(from.len() as int)[i] == addr[i]);
    }
    if addr.len() > 0 && addr[0] == '/' {
        assert(to + addr =~= prefixed(to, addr));
    }
}

/// Without a prefix to strip, the other prefix is put in front of the address. An address
/// always begins with the prefix that was put in front, with a slash before the rest.
pub proof fn law_prefix_is_put_in_front(prefix: Seq<char>, rest: Seq<char>)
    ensures
        prefix.len() > 0 ==> {
            let slashed = if rest.len() == 0 || rest[0] == '/' {
                rest
            } else {
                seq!['/'] + rest
            };
            &&& outbound_address(rest, Seq::empty(), prefix) == Some(prefix + slashed)
            &&& inbound_address(rest, Seq::empty(), prefix) == prefix + slashed
        },
        rest.len() > 0 && rest[0] == '/' ==> outbound_address(rest, Seq::empty(), Seq::empty())
            == Some(rest),
{
    if prefix.len() > 0 {
        if rest.len() == 0 {
            assert(prefix + rest =~= prefix);
        } else if rest[0] != '/' {
            assert(prefix + (seq!['/'] + rest) =~= prefix.push('/') + rest);
        }
    }
}

/// A received message becomes an immediate event at its address below `/osc/in`, with what
/// its arguments stand for as payload.
pub proof fn law_received_message_is_an_event(
    addr: Seq<char>,
    args: Seq<OscModel>,
    osc_prefix: Seq<char>,
    rest: Seq<char>,
)
    requires
        osc_prefix.len() == 0 || osc_prefix.last() != '/',
        rest.len() > 0 && rest[0] == '/',
        addr == osc_prefix + rest,
    ensures
        ({
            let m = inbound_action(addr, args, osc_prefix);
            let f = protocol::payload_fields(m);
            &&& m.msg_type == protocol::MSG_ACTION@
            &&& protocol::string_field(f, "address"@) == Some("/osc/in"@ + rest)
            &&& protocol::string_field(f, "signal_type"@) == Some("event"@)
            &&& protocol::float_field(f, "timestamp"@) == Some(FloatValue { bits: 0 })
            &&& protocol::value_field(f, "payload"@) == Some(args_value(args))
        }),
{
    law_whole_segments_are_stripped(osc_prefix, rest);
    if osc_prefix.len() == 0 {
        assert(addr =~= rest);
    }
    reveal_strlit("/osc/in");
    assert("/osc/in"@.len() == 7);
    protocol::law_action_reads_back(
        inbound_address(addr, osc_prefix, "/osc/in"@),
        SignalType::Event,
        FloatValue { bits: 0 },
        args_value(args),
    );
}

/// An action below the prefix goes out to the rest of its address below the OSC prefix, with
/// the arguments of its payload; an unset never goes out.
pub proof fn law_actions_go_out(
    ens_prefix: Seq<char>,
    osc_prefix: Seq<char>,
    rest: Seq<char>,
    signal_type: SignalType,
    timestamp: FloatValue,
    payload: ValueModel,
)
    requires
        ens_prefix.len() > 0 && ens_prefix.last() != '/',
        rest.len() > 0 && rest[0] == '/',
    ensures
        outgoing(
            protocol::action_message(ens_prefix + rest, signal_type, timestamp, payload),
            ens_prefix,
            osc_prefix,
        ) == Some((osc_prefix + rest, osc_args(payload))),
        outgoing(protocol::unset_param_message(ens_prefix + rest), ens_prefix, osc_prefix) is None,
{
    law_whole_segments_are_stripped(ens_prefix, rest);
    protocol::law_action_reads_back(ens_prefix + rest, signal_type, timestamp, payload);
    if osc_prefix.len() == 0 {
        assert(osc_prefix + rest =~= rest);
    }
    reveal_strlit("unset_param");
    reveal_strlit("action");
    assert(protocol::MSG_UNSET_PARAM@.len() != protocol::MSG_ACTION@.len());
}

/// What goes out and comes back arrives with the same arguments: a payload that OSC has as
/// it is reaches the hub unchanged, below `/osc/in`.
pub proof fn law_payload_goes_round(
    ens_prefix: Seq<char>,
    osc_prefix: Seq<char>,
    rest: Seq<char>,
    timestamp: FloatValue,
    payload: ValueModel,
)
    requires
        ens_prefix.len() > 0 && ens_prefix.last() != '/',
        osc_prefix.len() == 0 || osc_prefix.last() != '/',
        rest.len() > 0 && rest[0] == '/',
        is_osc_scalar(payload),
    ensures
        outgoing(
            protocol::action_message(ens_prefix + rest, SignalType::Event, timestamp, payload),
            ens_prefix,
            osc_prefix,
        ) matches Some((addr, args)) && protocol::action_address(
            inbound_action(addr, args, osc_prefix),
        ) == "/osc/in"@ + rest && protocol::action_payload(inbound_action(addr, args, osc_prefix))
            == payload,
{
    law_actions_go_out(ens_prefix, osc_prefix, rest, SignalType::Event, timestamp, payload);
    law_scalar_round_trip(payload);
    law_received_message_is_an_event(osc_prefix + rest, osc_args(payload), osc_prefix, rest);
}

} // verus!
