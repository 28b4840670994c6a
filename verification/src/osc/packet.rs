//! OSC packets: what the bytes of a UDP datagram carry.
use rosc::{OscPacket, OscType};
use vstd::prelude::*;

verus! {

/// The size of the buffer that a datagram is received in.
pub const MAX_DATAGRAM: usize = 1536;

/// An argument of a packet. A single is held as its bit pattern.
#[derive(Debug, PartialEq, Eq)]
pub enum PacketArg {
    Nil,
    Bool(bool),
    Int(i32),
    Single(u32),
    Text(String),
    Blob(Vec<u8>),
    Array(Vec<PacketArg>),
    /// An argument of a kind without a counterpart, as its debug text.
    Rare(String),
}

/// What an argument of a packet is, mathematically.
#[verifier::ext_equal]
pub enum PacketArgModel {
    Nil,
    Bool(bool),
    Int(i32),
    Single(u32),
    Text(Seq<char>),
    Blob(Seq<u8>),
    Array(Seq<PacketArgModel>),
    Rare(Seq<char>),
}

/// What an argument stands for.
pub open spec fn packet_arg_model(a: PacketArg) -> PacketArgModel
    decreases a,
{
    match a {
        PacketArg::Nil => PacketArgModel::Nil,
        PacketArg::Bool(b) => PacketArgModel::Bool(b),
        PacketArg::Int(n) => PacketArgModel::Int(n),
        PacketArg::Single(bits) => PacketArgModel::Single(bits),
        PacketArg::Text(s) => PacketArgModel::Text(s@),
        PacketArg::Blob(b) => PacketArgModel::Blob(b@),
        PacketArg::Array(items) => PacketArgModel::Array(packet_arg_models(items@)),
        PacketArg::Rare(s) => PacketArgModel::Rare(s@),
    }
}

/// What each argument of a list stands for.
pub open spec fn packet_arg_models(s: Seq<PacketArg>) -> Seq<PacketArgModel>
    decreases s,
{
    Seq::new(
        s.len(),
        |i: int|
            if 0 <= i < s.len() {
                packet_arg_model(s[i])
            } else {
                PacketArgModel::Nil
            },
    )
}

/// What a datagram carries.
#[derive(Debug, PartialEq, Eq)]
pub enum Datagram {
    /// A message.
    Message { addr: String, args: Vec<PacketArg> },
    /// A bundle of packets with its time tag.
    Bundle { seconds: u32, fractional: u32, packets: Vec<Datagram> },
}

/// What a datagram carries, mathematically.
#[verifier::ext_equal]
pub enum DatagramModel {
    Message { addr: Seq<char>, args: Seq<PacketArgModel> },
    Bundle { seconds: u32, fractional: u32, packets: Seq<DatagramModel> },
}

/// What a packet stands for.
pub open spec fn datagram_model(d: Datagram) -> DatagramModel
    decreases d,
{
    match d {
        Datagram::Message { addr, args } => DatagramModel::Message {
            addr: addr@,
            args: packet_arg_models(args@),
        },
        Datagram::Bundle { seconds, fractional, packets } => DatagramModel::Bundle {
            seconds,
            fractional,
            packets: datagram_models(packets@),
        },
    }
}

/// What each packet of a list stands for.
pub open spec fn datagram_models(s: Seq<Datagram>) -> Seq<DatagramModel>
    decreases s,
{
    Seq::new(
        s.len(),
        |i: int|
            if 0 <= i < s.len() {
                datagram_model(s[i])
            } else {
                DatagramModel::Message { addr: Seq::empty(), args: Seq::empty() }
            },
    )
}

impl View for Datagram {
    type V = DatagramModel;

    open spec fn view(&self) -> DatagramModel {
        datagram_model(*self)
    }
}

/// What came of decoding, mathematically.
pub open spec fn decode_result(r: Result<Datagram, String>) -> Result<DatagramModel, Seq<char>> {
    match r {
        Ok(d) => Ok(d@),
        Err(e) => Err(e@),
    }
}

// ---------------------------------------------------------------------------
// Bytes
// ---------------------------------------------------------------------------

/// What `rosc::decoder::decode_udp` reads from a datagram: what it carries, or the
/// text of the error.
pub uninterp spec fn decoded(bytes: Seq<u8>) -> Result<DatagramModel, Seq<char>>;

/// An OSC argument as `rosc` holds it.
#[verifier::external_type_specification]
#[verifier::external_body]
pub struct ExOscType(rosc::OscType);

/// An OSC packet as `rosc` holds it.
#[verifier::external_type_specification]
#[verifier::external_body]
pub struct ExOscPacket(rosc::OscPacket);

/// The argument of a value of `rosc::OscType`, variant by variant. Those without a
/// counterpart become `Rare`, with their debug text. Nothing is claimed of it here:
/// what a datagram is read as is named by `decoded`.
#[verifier::external_body]
fn packet_arg(a: OscType) -> (r: PacketArg) {
    match a {
        OscType::Nil => PacketArg::Nil,
        OscType::Bool(b) => PacketArg::Bool(b),
        OscType::Int(n) => PacketArg::Int(n),
        OscType::Float(x) => PacketArg::Single(x.to_bits()),
        OscType::String(s) => PacketArg::Text(s),
        OscType::Blob(b) => PacketArg::Blob(b),
        OscType::Array(l) => PacketArg::Array(l.content.into_iter().map(packet_arg).collect()),
        OscType::Time(_) | OscType::Long(_) | OscType::Double(_) | OscType::Char(_)
        | OscType::Color(_) | OscType::Midi(_) | OscType::Inf => PacketArg::Rare(format!("{:?}", a)),
    }
}

/// The packet of a value of `rosc::OscPacket`, variant by variant. Nothing is claimed
/// of it here: what a datagram is read as is named by `decoded`.
#[verifier::external_body]
fn packet(p: OscPacket) -> (r: Datagram) {
    match p {
        OscPacket::Message(m) => Datagram::Message {
            addr: m.addr,
            args: m.args.into_iter().map(packet_arg).collect(),
        },
        OscPacket::Bundle(b) => Datagram::Bundle {
            seconds: b.timetag.seconds,
            fractional: b.timetag.fractional,
            packets: b.content.into_iter().map(packet).collect(),
        },
    }
}

/// `rosc::decoder::decode_udp`: what a datagram carries, which depends on its bytes
/// alone. What follows the first packet is dropped. The bound keeps the depth of
/// nested bundles small.
#[verifier::external_body]
pub(crate) fn decode_udp(bytes: &[u8]) -> (r: Result<Datagram, String>)
    requires
        bytes@.len() <= MAX_DATAGRAM,
    ensures
        decode_result(r) == decoded(bytes@),
{
    match rosc::decoder::decode_udp(bytes) {
        Ok((_, p)) => Ok(packet(p)),
        Err(e) => Err(e.to_string()),
    }
}

/// Reads a datagram.
pub fn read_datagram(bytes: &[u8]) -> (r: Result<Datagram, String>)
    requires
        bytes@.len() <= MAX_DATAGRAM,
    ensures
        decode_result(r) == decoded(bytes@),
{
    decode_udp(bytes)
}

} // verus!
