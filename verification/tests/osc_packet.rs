use ensemble::osc::packet::{read_datagram, Datagram, PacketArg};
use rosc::{encoder, OscBundle, OscMessage, OscPacket, OscTime, OscType};

fn message(args: Vec<OscType>) -> Vec<u8> {
    encoder::encode(&OscPacket::Message(OscMessage { addr: "/a/b".to_string(), args })).unwrap()
}

#[test]
fn a_message_is_read_from_its_bytes() {
    let bytes = message(vec![
        OscType::Int(-7),
        OscType::Float(2.5),
        OscType::String("x".to_string()),
        OscType::Blob(vec![1, 2, 3]),
        OscType::Bool(true),
        OscType::Nil,
        OscType::Array(vec![OscType::Int(1), OscType::Bool(false)].into_iter().collect()),
    ]);
    assert_eq!(
        read_datagram(&bytes),
        Ok(Datagram::Message {
            addr: "/a/b".to_string(),
            args: vec![
                PacketArg::Int(-7),
                PacketArg::Single(2.5f32.to_bits()),
                PacketArg::Text("x".to_string()),
                PacketArg::Blob(vec![1, 2, 3]),
                PacketArg::Bool(true),
                PacketArg::Nil,
                PacketArg::Array(vec![PacketArg::Int(1), PacketArg::Bool(false)]),
            ],
        })
    );
}

#[test]
fn bytes_without_arguments_are_a_message() {
    assert_eq!(
        read_datagram(b"/ab\0,\0\0\0"),
        Ok(Datagram::Message { addr: "/ab".to_string(), args: vec![] })
    );
}

#[test]
fn rare_arguments_are_held_as_text() {
    assert_eq!(
        read_datagram(&message(vec![OscType::Long(5), OscType::Inf])),
        Ok(Datagram::Message {
            addr: "/a/b".to_string(),
            args: vec![PacketArg::Rare("Long(5)".to_string()), PacketArg::Rare("Inf".to_string())],
        })
    );
}

#[test]
fn a_bundle_is_recognised() {
    let inner = || OscPacket::Message(OscMessage { addr: "/x".to_string(), args: vec![] });
    let bundle = OscPacket::Bundle(OscBundle {
        timetag: OscTime { seconds: 0, fractional: 1 },
        content: vec![inner(), inner()],
    });
    let bytes = encoder::encode(&bundle).unwrap();
    let empty = || Datagram::Message { addr: "/x".to_string(), args: vec![] };
    assert_eq!(
        read_datagram(&bytes),
        Ok(Datagram::Bundle { seconds: 0, fractional: 1, packets: vec![empty(), empty()] })
    );
}

#[test]
fn other_bytes_are_an_error() {
    assert!(read_datagram(&[]).is_err());
    assert!(read_datagram(b"abc\0").is_err());
    assert!(read_datagram(b"/ab").is_err());
}
