use std::collections::HashMap;
use std::fmt;

use serde::de::{Error, IgnoredAny, MapAccess, Visitor};
use serde::{Deserialize, Deserializer};
use socket_io_emitter::broker::ConnectionError;
use socket_io_emitter::emitter::{bind, create_emitter, DEFAULT_NSP, DEFAULT_PREFIX, SENDER_ID};
use socket_io_emitter::envelope::decode;
use socket_io_emitter::{Emission, Emitter, EmitterOpts, EncodingError, IntoEmitter, Opts, Packet};

/// The packet as a peer reads it off the wire with serde.
#[derive(Debug, PartialEq)]
struct WirePacket {
    packet_type: i32,
    data: Vec<String>,
    nsp: String,
}

/// The options as a peer reads them off the wire with serde.
#[derive(Debug, PartialEq)]
struct WireOpts {
    rooms: Vec<String>,
    flags: HashMap<String, bool>,
}

struct PacketVisitor;

impl<'de> Visitor<'de> for PacketVisitor {
    type Value = WirePacket;

    fn expecting(&self, f: &mut fmt::Formatter) -> fmt::Result {
        f.write_str("a packet")
    }

    fn visit_map<A: MapAccess<'de>>(self, mut map: A) -> Result<WirePacket, A::Error> {
        let mut packet_type = None;
        let mut data = None;
        let mut nsp = None;
        while let Some(key) = map.next_key::<String>()? {
            match key.as_str() {
                "type" => packet_type = Some(map.next_value()?),
                "data" => data = Some(map.next_value()?),
                "nsp" => nsp = Some(map.next_value()?),
                _ => {
                    map.next_value::<IgnoredAny>()?;
                }
            }
        }
        Ok(WirePacket {
            packet_type: packet_type.ok_or_else(|| A::Error::missing_field("type"))?,
            data: data.ok_or_else(|| A::Error::missing_field("data"))?,
            nsp: nsp.ok_or_else(|| A::Error::missing_field("nsp"))?,
        })
    }
}

impl<'de> Deserialize<'de> for WirePacket {
    fn deserialize<D: Deserializer<'de>>(deserializer: D) -> Result<Self, D::Error> {
        deserializer.deserialize_struct("Packet", &["type", "data", "nsp"], PacketVisitor)
    }
}

struct OptsVisitor;

impl<'de> Visitor<'de> for OptsVisitor {
    type Value = WireOpts;

    fn expecting(&self, f: &mut fmt::Formatter) -> fmt::Result {
        f.write_str("options")
    }

    fn visit_map<A: MapAccess<'de>>(self, mut map: A) -> Result<WireOpts, A::Error> {
        let mut rooms = None;
        let mut flags = None;
        while let Some(key) = map.next_key::<String>()? {
            match key.as_str() {
                "rooms" => rooms = Some(map.next_value()?),
                "flags" => flags = Some(map.next_value()?),
                _ => {
                    map.next_value::<IgnoredAny>()?;
                }
            }
        }
        Ok(WireOpts {
            rooms: rooms.ok_or_else(|| A::Error::missing_field("rooms"))?,
            flags: flags.ok_or_else(|| A::Error::missing_field("flags"))?,
        })
    }
}

impl<'de> Deserialize<'de> for WireOpts {
    fn deserialize<D: Deserializer<'de>>(deserializer: D) -> Result<Self, D::Error> {
        deserializer.deserialize_struct("Opts", &["rooms", "flags"], OptsVisitor)
    }
}

fn client() -> redis::Client {
    redis::Client::open("redis://localhost:6379").unwrap()
}

fn strings(items: &[&str]) -> Vec<String> {
    items.iter().map(|s| s.to_string()).collect()
}

/// Decodes a payload as a peer does, with `rmp_serde`, and checks that the
/// library's own decoder reads the same.
fn decode_msg(payload: &[u8]) -> (String, Packet, Opts) {
    let mut de = rmp_serde::Deserializer::new(payload);
    let peer: (String, WirePacket, WireOpts) = Deserialize::deserialize(&mut de).unwrap();
    let own = decode(payload).unwrap();
    assert_eq!(peer.0, own.0);
    assert_eq!(peer.1.packet_type, own.1.packet_type());
    assert_eq!(&peer.1.data, own.1.data());
    assert_eq!(&peer.1.nsp, own.1.nsp());
    assert_eq!(&peer.2.rooms, own.2.rooms());
    let flags: HashMap<String, bool> = own.2.flags().iter().cloned().collect();
    assert_eq!(peer.2.flags.len(), own.2.flags().len());
    assert_eq!(peer.2.flags, flags);
    own
}

fn sent(outcome: (Emitter, Result<Emission, EncodingError>)) -> Emission {
    outcome.1.unwrap()
}

#[test]
fn emit() {
    let redis = client();

    // act
    let io = Emitter::new(redis).unwrap();
    let emission = sent(io.emit(vec!["test1", "test2"]));

    // assert
    assert_eq!("socket.io#/#", emission.channel);
    let actual = decode_msg(&emission.payload);
    assert_eq!("emitter", actual.0);
    assert_eq!(
        Packet::new(
            2,
            vec!["test1".to_string(), "test2".to_string()],
            "/".to_string(),
        ),
        actual.1
    );
    assert_eq!(Opts::new(vec![], Default::default()), actual.2);
}

#[test]
fn emit_in_namespaces() {
    let redis = client();

    // act
    let io = Emitter::new(redis).unwrap();
    let emission = sent(io.of("/custom").emit(vec!["test"]));

    // assert
    assert_eq!("socket.io#/custom#", emission.channel);
    let actual = decode_msg(&emission.payload);
    assert_eq!("emitter", actual.0);
    assert_eq!(
        Packet::new(2, vec!["test".to_string()], "/custom".to_string()),
        actual.1
    );
    assert_eq!(Opts::new(vec![], Default::default()), actual.2);
}

#[test]
fn emit_to_namespaces() {
    let redis = client();

    // act
    let io = Emitter::new(redis).unwrap();
    let emission = sent(io.of("/custom").emit(vec!["test"]));

    // assert
    assert_eq!("socket.io#/custom#", emission.channel);
    let actual = decode_msg(&emission.payload);
    assert_eq!("emitter", actual.0);
    assert_eq!(
        Packet::new(2, vec!["test".to_string()], "/custom".to_string()),
        actual.1
    );
    assert_eq!(Opts::new(vec![], Default::default()), actual.2);
}

#[test]
fn emit_to_room() {
    let redis = client();

    // act
    let io = Emitter::new(redis).unwrap();
    let emission = sent(io.to("room1").emit(vec!["test"]));

    // assert
    assert_eq!("socket.io#/#room1#", emission.channel);
    let actual = decode_msg(&emission.payload);
    assert_eq!("emitter", actual.0);
    assert_eq!(
        Packet::new(2, vec!["test".to_string()], "/".to_string()),
        actual.1
    );
    assert_eq!(
        Opts::new(vec!["room1".to_string()], Default::default()),
        actual.2
    );
}

#[test]
fn constants_hold_the_protocol_values() {
    assert_eq!("emitter", SENDER_ID);
    assert_eq!("socket.io", DEFAULT_PREFIX);
    assert_eq!("/", DEFAULT_NSP);
}

#[test]
fn new_emitter_is_cleared() {
    let io = Emitter::new(client()).unwrap();
    assert_eq!("socket.io", io.prefix());
    assert_eq!("/", io.nsp());
    assert!(io.rooms().is_empty());
    assert!(io.flags().is_empty());
}

#[test]
fn create_emitter_keeps_prefix_and_namespace() {
    let io = create_emitter(client(), "chat", "/admin");
    assert_eq!("chat", io.prefix());
    assert_eq!("/admin", io.nsp());
    assert!(io.rooms().is_empty());
    assert!(io.flags().is_empty());
    let emission = sent(io.emit(vec!["hello"]));
    assert_eq!("chat#/admin#", emission.channel);
}

#[test]
fn new_from_address() {
    let io = Emitter::new("127.0.0.1:6379").unwrap();
    assert_eq!("socket.io", io.prefix());
    assert_eq!("/", io.nsp());
    assert_eq!(
        "127.0.0.1:6379",
        io.client().get_connection_info().addr().to_string()
    );
}

#[test]
fn new_from_address_without_host_fails() {
    let made: Result<Emitter, ConnectionError> = Emitter::new("");
    assert!(made.is_err());
    let made = Emitter::new(":6379");
    assert!(made.is_err());
}

#[test]
fn new_from_address_with_bad_port_fails() {
    let made = Emitter::new("localhost:port");
    assert!(made.is_err());
}

#[test]
fn new_from_opts() {
    let opts = EmitterOpts {
        host: "10.0.0.7".to_string(),
        port: 6380,
        ..Default::default()
    };
    let io = Emitter::new(opts).unwrap();
    assert_eq!("socket.io", io.prefix());
    assert_eq!("/", io.nsp());
    assert_eq!(
        "10.0.0.7:6380",
        io.client().get_connection_info().addr().to_string()
    );
}

#[test]
fn new_from_opts_with_key() {
    let opts = EmitterOpts {
        host: "localhost".to_string(),
        port: 6379,
        socket: None,
        key: Some("chat"),
    };
    let io = opts.into_emitter().unwrap();
    assert_eq!("chat", io.prefix());
    let emission = sent(io.to("lobby").emit(vec!["hi"]));
    assert_eq!("chat#/#lobby#", emission.channel);
}

#[test]
fn new_from_opts_with_negative_port_fails() {
    let opts = EmitterOpts {
        host: "localhost".to_string(),
        port: -1,
        socket: None,
        key: None,
    };
    assert!(Emitter::new(opts).is_err());
}

#[test]
fn bind_keeps_the_client_or_the_cause() {
    let io = bind(redis::Client::open("redis://example.org:7000"), "chat").unwrap();
    assert_eq!("chat", io.prefix());
    assert_eq!("/", io.nsp());
    assert!(io.rooms().is_empty());
    assert!(io.flags().is_empty());
    assert_eq!(
        "example.org:7000",
        io.client().get_connection_info().addr().to_string()
    );

    let refused = redis::Client::open("redis://");
    let cause = refused.clone().unwrap_err();
    let error = bind(refused, "chat").unwrap_err();
    assert_eq!(cause, error.cause);
}

#[test]
fn to_keeps_order_and_duplicates() {
    let io = Emitter::new(client()).unwrap();
    let io = io.to("a").to("b").to("a");
    assert_eq!(&strings(&["a", "b", "a"]), io.rooms());
    assert_eq!("socket.io", io.prefix());
    assert_eq!("/", io.nsp());
    assert!(io.flags().is_empty());
}

#[test]
fn flags_replace_each_other() {
    let io = Emitter::new(client()).unwrap();
    let io = io.json();
    assert_eq!(&vec![("json".to_string(), true)], io.flags());
    let io = io.volatile();
    assert_eq!(&vec![("volatile".to_string(), true)], io.flags());
    let io = io.broadcast();
    assert_eq!(&vec![("broadcast".to_string(), true)], io.flags());
    let io = io.to("room").json();
    assert_eq!(&vec![("json".to_string(), true)], io.flags());
    assert_eq!(&strings(&["room"]), io.rooms());
}

#[test]
fn flag_is_carried_in_the_options() {
    let io = Emitter::new(client()).unwrap();
    let emission = sent(io.broadcast().emit(vec!["test"]));
    assert_eq!("socket.io#/#", emission.channel);
    let actual = decode_msg(&emission.payload);
    assert_eq!(
        Opts::new(vec![], vec![("broadcast".to_string(), true)]),
        actual.2
    );
}

#[test]
fn of_starts_without_rooms_and_flags() {
    let io = Emitter::new(client()).unwrap();
    let io = io.to("room1").to("room2").json();
    let other = io.of("/custom");
    assert!(other.rooms().is_empty());
    assert!(other.flags().is_empty());
    assert_eq!("/custom", other.nsp());
    assert_eq!("socket.io", other.prefix());
    let emission = sent(other.emit(vec!["test"]));
    assert_eq!("socket.io#/custom#", emission.channel);
    let actual = decode_msg(&emission.payload);
    assert_eq!(Opts::new(vec![], vec![]), actual.2);
}

#[test]
fn of_keeps_prefix_and_client() {
    let opts = EmitterOpts {
        host: "broker.internal".to_string(),
        port: 7001,
        socket: None,
        key: Some("chat"),
    };
    let io = Emitter::new(opts).unwrap().of("/a").of("/b");
    assert_eq!("chat", io.prefix());
    assert_eq!("/b", io.nsp());
    assert_eq!(
        "broker.internal:7001",
        io.client().get_connection_info().addr().to_string()
    );
}

#[test]
fn emit_clears_rooms_and_flags() {
    let io = Emitter::new(client()).unwrap();
    let (io, first) = io.to("room1").to("room2").volatile().emit(vec!["one"]);
    assert!(io.rooms().is_empty());
    assert!(io.flags().is_empty());
    assert_eq!("socket.io", io.prefix());
    assert_eq!("/", io.nsp());
    let first = decode_msg(&first.unwrap().payload);
    assert_eq!(
        Opts::new(
            strings(&["room1", "room2"]),
            vec![("volatile".to_string(), true)]
        ),
        first.2
    );

    let (io, second) = io.emit(vec!["two"]);
    let second = second.unwrap();
    assert_eq!("socket.io#/#", second.channel);
    let second = decode_msg(&second.payload);
    assert_eq!(Opts::new(vec![], vec![]), second.2);
    assert!(io.rooms().is_empty());
    assert!(io.flags().is_empty());
}

#[test]
fn emit_to_two_rooms_goes_to_the_namespace_channel() {
    let io = Emitter::new(client()).unwrap();
    let emission = sent(io.to("room1").to("room2").emit(vec!["test"]));
    assert_eq!("socket.io#/#", emission.channel);
    let actual = decode_msg(&emission.payload);
    assert_eq!(&strings(&["room1", "room2"]), actual.2.rooms());
}

#[test]
fn emit_to_the_same_room_twice_counts_two_rooms() {
    let io = Emitter::new(client()).unwrap();
    let emission = sent(io.to("room1").to("room1").emit(vec!["test"]));
    assert_eq!("socket.io#/#", emission.channel);
    let actual = decode_msg(&emission.payload);
    assert_eq!(&strings(&["room1", "room1"]), actual.2.rooms());
}

#[test]
fn emit_without_arguments() {
    let io = Emitter::new(client()).unwrap();
    let emission = sent(io.emit(vec![]));
    let actual = decode_msg(&emission.payload);
    assert_eq!(Packet::event(vec![], "/".to_string()), actual.1);
}

#[test]
fn emit_is_the_encoding_of_its_parts() {
    let io = Emitter::new(client()).unwrap().of("/n").to("r").json();
    let emission = sent(io.emit(vec!["a", "b"]));
    let packet = Packet::event(strings(&["a", "b"]), "/n".to_string());
    let opts = Opts::new(strings(&["r"]), vec![("json".to_string(), true)]);
    assert_eq!(
        socket_io_emitter::encode(SENDER_ID, &packet, &opts).unwrap(),
        emission.payload
    );
    assert_eq!("socket.io#/n#r#", emission.channel);
}
