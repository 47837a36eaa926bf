//! The envelope: the triple of sender id, packet and options that is
//! published as one MessagePack value.
//!
//! On the wire an envelope is an array of three elements: the sender id as
//! a string, the packet as a map with the keys `type`, `data` and `nsp`, and
//! the options as a map with the keys `rooms` and `flags`, each in that
//! order.

use crate::wire::{
    array_family, array_markers, flag_map, flags_fit, header, integer, lemma_parse_flag_map,
    lemma_parse_header, lemma_parse_integer, lemma_parse_text, lemma_parse_text_array,
    lemma_utf8_len, map_family, map_markers, parse_flag_map, parse_header, parse_integer,
    parse_text, parse_text_array, read_flag_map, read_header, read_integer, read_text,
    read_text_array, text, text_array, text_fits, texts_fit, write_flag_map, write_header,
    write_integer, write_text, write_text_array, Family,
};
use vstd::prelude::*;
use vstd::string::*;

verus! {

/// The packet type of an application event.
pub const EVENT: i32 = 2;

/// What is delivered to the listeners of a namespace.
#[derive(Debug, PartialEq)]
pub struct Packet {
    packet_type: i32,
    data: Vec<String>,
    nsp: String,
}

/// A packet as a mathematical value.
pub struct PacketView {
    pub packet_type: int,
    pub data: Seq<Seq<char>>,
    pub nsp: Seq<char>,
}

impl View for Packet {
    type V = PacketView;

    closed spec fn view(&self) -> PacketView {
        PacketView {
            packet_type: self.packet_type as int,
            data: self.data.deep_view(),
            nsp: self.nsp@,
        }
    }
}

impl Packet {
    /// A packet of the given type.
    pub fn new(packet_type: i32, data: Vec<String>, nsp: String) -> (packet: Packet)
        ensures
            packet@ == (PacketView {
                packet_type: packet_type as int,
                data: data.deep_view(),
                nsp: nsp@,
            }),
    {
        Packet { packet_type, data, nsp }
    }

    /// An application event with the arguments `data` for the namespace `nsp`.
    pub fn event(data: Vec<String>, nsp: String) -> (packet: Packet)
        ensures
            packet@ == event_packet(data.deep_view(), nsp@),
    {
        Packet { packet_type: EVENT, data, nsp }
    }

    /// The type of the packet; 2 for an application event.
    pub fn packet_type(&self) -> (t: i32)
        ensures
            t == self@.packet_type,
    {
        self.packet_type
    }

    /// The arguments for the listeners, in order.
    pub fn data(&self) -> (data: &Vec<String>)
        ensures
            data.deep_view() == self@.data,
    {
        &self.data
    }

    /// The namespace that the packet is for.
    pub fn nsp(&self) -> (nsp: &String)
        ensures
            nsp@ == self@.nsp,
    {
        &self.nsp
    }
}

/// The application event with the arguments `data` for the namespace `nsp`.
pub open spec fn event_packet(data: Seq<Seq<char>>, nsp: Seq<char>) -> PacketView {
    PacketView { packet_type: 2, data, nsp }
}

/// Whom an emission is for, and how it is to be delivered.
#[derive(Debug, PartialEq)]
pub struct Opts {
    rooms: Vec<String>,
    flags: Vec<(String, bool)>,
}

/// Options as a mathematical value. The flags are kept in the order in
/// which they stand on the wire.
pub struct OptsView {
    pub rooms: Seq<Seq<char>>,
    pub flags: Seq<(Seq<char>, bool)>,
}

impl View for Opts {
    type V = OptsView;

    closed spec fn view(&self) -> OptsView {
        OptsView { rooms: self.rooms.deep_view(), flags: self.flags.deep_view() }
    }
}

impl Opts {
    /// Options that target `rooms` and carry `flags`.
    pub fn new(rooms: Vec<String>, flags: Vec<(String, bool)>) -> (opts: Opts)
        ensures
            opts@ == (OptsView { rooms: rooms.deep_view(), flags: flags.deep_view() }),
    {
        Opts { rooms, flags }
    }

    /// The targeted rooms, in order.
    pub fn rooms(&self) -> (rooms: &Vec<String>)
        ensures
            rooms.deep_view() == self@.rooms,
    {
        &self.rooms
    }

    /// The flags, in the order in which they stand on the wire.
    pub fn flags(&self) -> (flags: &Vec<(String, bool)>)
        ensures
            flags.deep_view() == self@.flags,
    {
        &self.flags
    }
}

/// Why an envelope could not be encoded.
#[derive(Debug, PartialEq, Eq, Clone, Copy)]
pub enum EncodingError {
    /// A string is longer than 4 GiB - 1 in UTF-8, or a list has more than
    /// 2^32 - 1 items: the wire format has no header for it.
    Oversized,
}

/// Whether an envelope can be written: every string and every list in it
/// is short enough for a header to carry its length.
pub open spec fn encodable(sender: Seq<char>, packet: PacketView, opts: OptsView) -> bool {
    &&& text_fits(sender)
    &&& i32::MIN <= packet.packet_type <= i32::MAX
    &&& texts_fit(packet.data)
    &&& text_fits(packet.nsp)
    &&& texts_fit(opts.rooms)
    &&& flags_fit(opts.flags)
}

/// The bytes of a packet: the header of a map of three entries, then each
/// key with its value.
pub open spec fn packet_bytes(packet: PacketView) -> Seq<u8> {
    header(map_family(), 3) + text("type"@) + integer(packet.packet_type) + text("data"@)
        + text_array(packet.data) + text("nsp"@) + text(packet.nsp)
}

/// The bytes of the options: the header of a map of two entries, then each
/// key with its value.
pub open spec fn opts_bytes(opts: OptsView) -> Seq<u8> {
    header(map_family(), 2) + text("rooms"@) + text_array(opts.rooms) + text("flags"@)
        + flag_map(opts.flags)
}

/// The bytes of an envelope: an array of three elements.
pub open spec fn envelope_bytes(sender: Seq<char>, packet: PacketView, opts: OptsView) -> Seq<
    u8,
>
    recommends
        encodable(sender, packet, opts),
{
    header(array_family(), 3) + text(sender) + packet_bytes(packet) + opts_bytes(opts)
}

/// Reads a header of family `f` that announces exactly `n` items.
pub open spec fn parse_count(f: Family, b: Seq<u8>, n: nat) -> Option<Seq<u8>> {
    match parse_header(f, b) {
        Some((len, rest)) => if len == n {
            Some(rest)
        } else {
            None
        },
        None => None,
    }
}

/// Reads the string `key`.
pub open spec fn parse_key(b: Seq<u8>, key: Seq<char>) -> Option<Seq<u8>> {
    match parse_text(b) {
        Some((found, rest)) => if found == key {
            Some(rest)
        } else {
            None
        },
        None => None,
    }
}

/// Reads a packet from the front of `b`. Its keys must be `type`, `data` and
/// `nsp`, in that order.
pub open spec fn parse_packet(b: Seq<u8>) -> Option<(PacketView, Seq<u8>)> {
    match parse_count(map_family(), b, 3) {
        Some(b) => match parse_key(b, "type"@) {
            Some(b) => match parse_integer(b) {
                Some((packet_type, b)) => match parse_key(b, "data"@) {
                    Some(b) => match parse_text_array(b) {
                        Some((data, b)) => match parse_key(b, "nsp"@) {
                            Some(b) => match parse_text(b) {
                                Some((nsp, b)) => Some((PacketView { packet_type, data, nsp }, b)),
                                None => None,
                            },
                            None => None,
                        },
                        None => None,
                    },
                    None => None,
                },
                None => None,
            },
            None => None,
        },
        None => None,
    }
}

/// Reads the options from the front of `b`. Their keys must be `rooms` and
/// `flags`, in that order.
pub open spec fn parse_opts(b: Seq<u8>) -> Option<(OptsView, Seq<u8>)> {
    match parse_count(map_family(), b, 2) {
        Some(b) => match parse_key(b, "rooms"@) {
            Some(b) => match parse_text_array(b) {
                Some((rooms, b)) => match parse_key(b, "flags"@) {
                    Some(b) => match parse_flag_map(b) {
                        Some((flags, b)) => Some((OptsView { rooms, flags }, b)),
                        None => None,
                    },
                    None => None,
                },
                None => None,
            },
            None => None,
        },
        None => None,
    }
}

/// Reads an envelope. The bytes must hold one envelope and nothing after it.
pub open spec fn parse_envelope(b: Seq<u8>) -> Option<(Seq<char>, PacketView, OptsView)> {
    match parse_count(array_family(), b, 3) {
        Some(b) => match parse_text(b) {
            Some((sender, b)) => match parse_packet(b) {
                Some((packet, b)) => match parse_opts(b) {
                    Some((opts, b)) => if b.len() == 0 {
                        Some((sender, packet, opts))
                    } else {
                        None
                    },
                    None => None,
                },
                None => None,
            },
            None => None,
        },
        None => None,
    }
}

/// The keys of the two maps are short enough to be written.
pub proof fn lemma_keys_fit()
    ensures
        text_fits("type"@),
        text_fits("data"@),
        text_fits("nsp"@),
        text_fits("rooms"@),
        text_fits("flags"@),
{
    reveal_strlit("type");
    reveal_strlit("data");
    reveal_strlit("nsp");
    reveal_strlit("rooms");
    reveal_strlit("flags");
    lemma_utf8_len("type"@);
    lemma_utf8_len("data"@);
    lemma_utf8_len("nsp"@);
    lemma_utf8_len("rooms"@);
    lemma_utf8_len("flags"@);
}

/// Four byte sequences in a row are the first followed by the others.
proof fn lemma_regroup_4(a: Seq<u8>, b: Seq<u8>, c: Seq<u8>, d: Seq<u8>)
    ensures
        a + b + c + d == a + (b + (c + d)),
{
}

/// Six byte sequences in a row are the first followed by the others.
proof fn lemma_regroup_6(a: Seq<u8>, b: Seq<u8>, c: Seq<u8>, d: Seq<u8>, e: Seq<u8>, f: Seq<u8>)
    ensures
        a + b + c + d + e + f == a + (b + (c + (d + (e + f)))),
{
}

/// Eight byte sequences in a row are the first followed by the others.
proof fn lemma_regroup_8(
    a: Seq<u8>,
    b: Seq<u8>,
    c: Seq<u8>,
    d: Seq<u8>,
    e: Seq<u8>,
    f: Seq<u8>,
    g: Seq<u8>,
    h: Seq<u8>,
)
    ensures
        a + b + c + d + e + f + g + h == a + (b + (c + (d + (e + (f + (g + h)))))),
{
}

/// Reading a packet gives back the packet that was written.
pub proof fn lemma_parse_packet(packet: PacketView, rest: Seq<u8>)
    requires
        i32::MIN <= packet.packet_type <= i32::MAX,
        texts_fit(packet.data),
        text_fits(packet.nsp),
    ensures
        parse_packet(packet_bytes(packet) + rest) == Some((packet, rest)),
{
    lemma_keys_fit();
    let count = header(map_family(), 3);
    let type_key = text("type"@);
    let type_value = integer(packet.packet_type);
    let data_key = text("data"@);
    let data_value = text_array(packet.data);
    let nsp_key = text("nsp"@);
    let nsp_value = text(packet.nsp);
    lemma_regroup_8(count, type_key, type_value, data_key, data_value, nsp_key, nsp_value, rest);
    let after_nsp_key = nsp_value + rest;
    let after_data = nsp_key + after_nsp_key;
    let after_data_key = data_value + after_data;
    let after_type = data_key + after_data_key;
    let after_type_key = type_value + after_type;
    let after_count = type_key + after_type_key;
    lemma_parse_header(map_family(), 3, after_count);
    lemma_parse_text("type"@, after_type_key);
    lemma_parse_integer(packet.packet_type, after_type);
    lemma_parse_text("data"@, after_data_key);
    lemma_parse_text_array(packet.data, after_data);
    lemma_parse_text("nsp"@, after_nsp_key);
    lemma_parse_text(packet.nsp, rest);
}

/// Reading the options gives back the options that were written.
pub proof fn lemma_parse_opts(opts: OptsView, rest: Seq<u8>)
    requires
        texts_fit(opts.rooms),
        flags_fit(opts.flags),
    ensures
        parse_opts(opts_bytes(opts) + rest) == Some((opts, rest)),
{
    lemma_keys_fit();
    let count = header(map_family(), 2);
    let rooms_key = text("rooms"@);
    let rooms_value = text_array(opts.rooms);
    let flags_key = text("flags"@);
    let flags_value = flag_map(opts.flags);
    lemma_regroup_6(count, rooms_key, rooms_value, flags_key, flags_value, rest);
    let after_flags_key = flags_value + rest;
    let after_rooms = flags_key + after_flags_key;
    let after_rooms_key = rooms_value + after_rooms;
    let after_count = rooms_key + after_rooms_key;
    lemma_parse_header(map_family(), 2, after_count);
    lemma_parse_text("rooms"@, after_rooms_key);
    lemma_parse_text_array(opts.rooms, after_rooms);
    lemma_parse_text("flags"@, after_flags_key);
    lemma_parse_flag_map(opts.flags, rest);
}

/// Decoding is the inverse of encoding: the bytes of an envelope read back
/// as the sender id, the packet and the options they were written from.
pub proof fn lemma_decode_inverts_encode(sender: Seq<char>, packet: PacketView, opts: OptsView)
    requires
        encodable(sender, packet, opts),
    ensures
        parse_envelope(envelope_bytes(sender, packet, opts)) == Some((sender, packet, opts)),
{
    let none = Seq::<u8>::empty();
    let after_packet = opts_bytes(opts) + none;
    let after_sender = packet_bytes(packet) + after_packet;
    let after_count = text(sender) + after_sender;
    lemma_regroup_4(header(array_family(), 3), text(sender), packet_bytes(packet), after_packet);
    lemma_parse_header(array_family(), 3, after_count);
    lemma_parse_text(sender, after_sender);
    lemma_parse_packet(packet, after_packet);
    lemma_parse_opts(opts, none);
}

/// Appends one of the keys to `buf`.
fn write_key(buf: &mut Vec<u8>, key: &str)
    requires
        text_fits(key@),
    ensures
        final(buf)@ == old(buf)@ + text(key@),
{
    let _ = write_text(buf, key);
}

/// Appends `packet` to `buf`, unless a string or a list in it is too long
/// for the format.
fn write_packet(buf: &mut Vec<u8>, packet: &Packet) -> (written: bool)
    ensures
        written == (texts_fit(packet@.data) && text_fits(packet@.nsp)),
        written ==> final(buf)@ == old(buf)@ + packet_bytes(packet@),
{
    proof {
        lemma_keys_fit();
    }
    write_header(buf, map_markers(), 3);
    write_key(buf, "type");
    write_integer(buf, packet.packet_type);
    write_key(buf, "data");
    if !write_text_array(buf, &packet.data) {
        return false;
    }
    write_key(buf, "nsp");
    if !write_text(buf, packet.nsp.as_str()) {
        return false;
    }
    true
}

/// Appends `opts` to `buf`, unless a string or a list in them is too long
/// for the format.
fn write_opts(buf: &mut Vec<u8>, opts: &Opts) -> (written: bool)
    ensures
        written == (texts_fit(opts@.rooms) && flags_fit(opts@.flags)),
        written ==> final(buf)@ == old(buf)@ + opts_bytes(opts@),
{
    proof {
        lemma_keys_fit();
    }
    write_header(buf, map_markers(), 2);
    write_key(buf, "rooms");
    if !write_text_array(buf, &opts.rooms) {
        return false;
    }
    write_key(buf, "flags");
    if !write_flag_map(buf, &opts.flags) {
        return false;
    }
    true
}

/// Encodes the envelope of `sender`, `packet` and `opts`.
///
/// The result is the same on every platform. Encoding fails only where a
/// string or a list is too long for the wire format.
pub fn encode(sender: &str, packet: &Packet, opts: &Opts) -> (encoded: Result<
    Vec<u8>,
    EncodingError,
>)
    ensures
        encoded is Ok <==> encodable(sender@, packet@, opts@),
        encoded matches Ok(bytes) ==> bytes@ == envelope_bytes(sender@, packet@, opts@),
        encoded matches Err(e) ==> e == EncodingError::Oversized,
{
    let mut buf: Vec<u8> = Vec::new();
    write_header(&mut buf, array_markers(), 3);
    if !write_text(&mut buf, sender) {
        return Err(EncodingError::Oversized);
    }
    if !write_packet(&mut buf, packet) {
        return Err(EncodingError::Oversized);
    }
    if !write_opts(&mut buf, opts) {
        return Err(EncodingError::Oversized);
    }
    Ok(buf)
}

/// Reads a header of family `f` that announces exactly `n` items.
fn read_count(bytes: &[u8], pos: usize, f: Family, n: u32) -> (r: Option<usize>)
    requires
        pos <= bytes@.len(),
    ensures
        match parse_count(f, bytes@.skip(pos as int), n as nat) {
            Some(rest) => r matches Some(next) && pos < next <= bytes@.len() && bytes@.skip(
                next as int,
            ) == rest,
            None => r is None,
        },
{
    match read_header(bytes, pos, f) {
        Some((len, next)) => if len == n {
            Some(next)
        } else {
            None
        },
        None => None,
    }
}

/// Reads the string `key`.
fn read_key(bytes: &[u8], pos: usize, key: &str) -> (r: Option<usize>)
    requires
        pos <= bytes@.len(),
    ensures
        match parse_key(bytes@.skip(pos as int), key@) {
            Some(rest) => r matches Some(next) && pos < next <= bytes@.len() && bytes@.skip(
                next as int,
            ) == rest,
            None => r is None,
        },
{
    match read_text(bytes, pos) {
        Some((found, next)) => if found == String::from_str(key) {
            Some(next)
        } else {
            None
        },
        None => None,
    }
}

/// Reads a packet at `pos`: the packet and the position after it.
fn read_packet(bytes: &[u8], pos: usize) -> (r: Option<(Packet, usize)>)
    requires
        pos <= bytes@.len(),
    ensures
        match parse_packet(bytes@.skip(pos as int)) {
            Some((packet, rest)) => r matches Some((p, next)) && p@ == packet && pos < next
                <= bytes@.len() && bytes@.skip(next as int) == rest,
            None => r is None,
        },
{
    let at = read_count(bytes, pos, map_markers(), 3)?;
    let at = read_key(bytes, at, "type")?;
    let (packet_type, at) = read_integer(bytes, at)?;
    let at = read_key(bytes, at, "data")?;
    let (data, at) = read_text_array(bytes, at)?;
    let at = read_key(bytes, at, "nsp")?;
    let (nsp, at) = read_text(bytes, at)?;
    Some((Packet { packet_type, data, nsp }, at))
}

/// Reads the options at `pos`: the options and the position after them.
fn read_opts(bytes: &[u8], pos: usize) -> (r: Option<(Opts, usize)>)
    requires
        pos <= bytes@.len(),
    ensures
        match parse_opts(bytes@.skip(pos as int)) {
            Some((opts, rest)) => r matches Some((o, next)) && o@ == opts && pos < next
                <= bytes@.len() && bytes@.skip(next as int) == rest,
            None => r is None,
        },
{
    let at = read_count(bytes, pos, map_markers(), 2)?;
    let at = read_key(bytes, at, "rooms")?;
    let (rooms, at) = read_text_array(bytes, at)?;
    let at = read_key(bytes, at, "flags")?;
    let (flags, at) = read_flag_map(bytes, at)?;
    Some((Opts { rooms, flags }, at))
}

/// Decodes an envelope: the sender id, the packet and the options.
///
/// `None` means that the bytes are not one envelope: they are cut short,
/// something follows them, a string is not UTF-8, or the layout is another.
pub fn decode(bytes: &[u8]) -> (decoded: Option<(String, Packet, Opts)>)
    ensures
        match parse_envelope(bytes@) {
            Some((sender, packet, opts)) => decoded matches Some(found) && found.0@ == sender
                && found.1@ == packet && found.2@ == opts,
            None => decoded is None,
        },
{
    let at = read_count(bytes, 0, array_markers(), 3)?;
    let (sender, at) = read_text(bytes, at)?;
    let (packet, at) = read_packet(bytes, at)?;
    let (opts, at) = read_opts(bytes, at)?;
    if at == bytes.len() {
        Some((sender, packet, opts))
    } else {
        None
    }
}

} // verus!
