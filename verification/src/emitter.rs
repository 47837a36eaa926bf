//! The emitter: a builder that collects whom the next emission is for, and
//! turns a message into the channel and the envelope to publish.

use crate::broker::{
    broker_addr, broker_url, host_port, open_client, url_accepted, url_of, ConnectionError,
};
use crate::channel::{address, base_channel, channel_of};
use crate::envelope::{
    encodable, encode, envelope_bytes, event_packet, lemma_decode_inverts_encode, parse_envelope,
    EncodingError, Opts, OptsView, Packet, PacketView,
};
use vstd::prelude::*;
use vstd::string::*;

verus! {

/// The sender id of every envelope that an emitter makes. It tells them
/// apart from what the clients of the servers send.
pub const SENDER_ID: &'static str = "emitter";

/// The channel prefix of an emitter that is given none.
pub const DEFAULT_PREFIX: &'static str = "socket.io";

/// The namespace of a new emitter.
pub const DEFAULT_NSP: &'static str = "/";

/// A builder of emissions, bound to a broker, a channel prefix and a
/// namespace.
///
/// The rooms and the flag that are set on it hold for the next emission
/// only.
#[derive(Debug)]
pub struct Emitter {
    redis: redis::Client,
    prefix: String,
    nsp: String,
    rooms: Vec<String>,
    flags: Vec<(String, bool)>,
}

/// An emitter as a mathematical value.
pub struct EmitterView {
    pub client: redis::Client,
    pub prefix: Seq<char>,
    pub nsp: Seq<char>,
    pub rooms: Seq<Seq<char>>,
    pub flags: Seq<(Seq<char>, bool)>,
}

impl EmitterView {
    /// The emitter as it is after construction and after every emission:
    /// no room and no flag.
    pub open spec fn cleared(self) -> EmitterView {
        EmitterView { rooms: Seq::empty(), flags: Seq::empty(), ..self }
    }

    /// The options of the next emission.
    pub open spec fn opts(self) -> OptsView {
        OptsView { rooms: self.rooms, flags: self.flags }
    }
}

/// What is to be published for one emission.
#[derive(Debug, PartialEq)]
pub struct Emission {
    /// The broker channel to publish on.
    pub channel: String,
    /// The encoded envelope.
    pub payload: Vec<u8>,
}

impl View for Emitter {
    type V = EmitterView;

    closed spec fn view(&self) -> EmitterView {
        EmitterView {
            client: self.redis,
            prefix: self.prefix@,
            nsp: self.nsp@,
            rooms: self.rooms.deep_view(),
            flags: self.flags.deep_view(),
        }
    }
}

/// The emitter that is bound to `client` under `prefix`, for the namespace
/// `/`, with no room and no flag.
pub open spec fn fresh(client: redis::Client, prefix: Seq<char>) -> EmitterView {
    EmitterView {
        client,
        prefix,
        nsp: DEFAULT_NSP@,
        rooms: Seq::empty(),
        flags: Seq::empty(),
    }
}

/// Binds an emitter to the broker behind `redis`, with the channel prefix
/// `prefix` and the namespace `nsp`.
pub fn create_emitter(redis: redis::Client, prefix: &str, nsp: &str) -> (emitter: Emitter)
    requires
        prefix@.len() > 0,
    ensures
        emitter@ == (EmitterView {
            client: redis,
            prefix: prefix@,
            nsp: nsp@,
            rooms: Seq::empty(),
            flags: Seq::empty(),
        }),
{
    let emitter = Emitter {
        redis,
        prefix: prefix.to_owned(),
        nsp: nsp.to_owned(),
        rooms: Vec::new(),
        flags: Vec::new(),
    };
    assert(emitter.rooms.deep_view() =~= Seq::<Seq<char>>::empty());
    assert(emitter.flags.deep_view() =~= Seq::<(Seq<char>, bool)>::empty());
    emitter
}

impl Emitter {
    #[verifier::type_invariant]
    spec fn inv(self) -> bool {
        &&& self.prefix@.len() > 0
        &&& self.flags@.len() <= 1
    }

    /// Binds an emitter to the broker that `data` names, for the namespace
    /// `/`.
    pub fn new<I: IntoEmitter>(data: I) -> (made: Result<Emitter, ConnectionError>)
        requires
            data.well_formed(),
        ensures
            made is Ok <==> data.connects(),
            made matches Ok(emitter) ==> data.binds(emitter@.client) && emitter@ == fresh(
                emitter@.client,
                data.prefix_view(),
            ),
    {
        data.into_emitter()
    }

    /// Targets `room` too. A room that is given twice is targeted twice.
    pub fn to(self, room: &str) -> (emitter: Emitter)
        ensures
            emitter@ == (EmitterView { rooms: self@.rooms.push(room@), ..self@ }),
    {
        proof {
            use_type_invariant(&self);
        }
        let Emitter { redis, prefix, nsp, mut rooms, flags } = self;
        rooms.push(room.to_owned());
        let emitter = Emitter { redis, prefix, nsp, rooms, flags };
        assert(emitter.rooms.deep_view() =~= self.rooms.deep_view().push(room@));
        emitter
    }

    /// An emitter for the namespace `nsp`, bound to the same broker and
    /// prefix. It starts with no room and no flag, whatever was set on
    /// `self`.
    pub fn of(self, nsp: &str) -> (emitter: Emitter)
        ensures
            emitter@ == (EmitterView { nsp: nsp@, ..self@.cleared() }),
    {
        proof {
            use_type_invariant(&self);
        }
        create_emitter(self.redis, self.prefix.as_str(), nsp)
    }

    /// Makes `name` the one flag of the next emission.
    fn flag(self, name: &str) -> (emitter: Emitter)
        ensures
            emitter@ == (EmitterView { flags: seq![(name@, true)], ..self@ }),
    {
        proof {
            use_type_invariant(&self);
        }
        let Emitter { redis, prefix, nsp, rooms, flags: _ } = self;
        let mut flags: Vec<(String, bool)> = Vec::new();
        flags.push((name.to_owned(), true));
        let emitter = Emitter { redis, prefix, nsp, rooms, flags };
        assert(emitter.flags.deep_view() =~= seq![(name@, true)]);
        emitter
    }

    /// Sets the flag `json` in place of any flag set before.
    pub fn json(self) -> (emitter: Emitter)
        ensures
            emitter@ == (EmitterView { flags: seq![("json"@, true)], ..self@ }),
    {
        self.flag("json")
    }

    /// Sets the flag `volatile` in place of any flag set before.
    pub fn volatile(self) -> (emitter: Emitter)
        ensures
            emitter@ == (EmitterView { flags: seq![("volatile"@, true)], ..self@ }),
    {
        self.flag("volatile")
    }

    /// Sets the flag `broadcast` in place of any flag set before.
    pub fn broadcast(self) -> (emitter: Emitter)
        ensures
            emitter@ == (EmitterView { flags: seq![("broadcast"@, true)], ..self@ }),
    {
        self.flag("broadcast")
    }

    /// Makes the emission of `message` to the rooms and with the flag that
    /// are set, and clears both.
    ///
    /// The emission is an application event whose arguments are the strings
    /// of `message`. It is handed back for the caller to publish; where a
    /// string or a list is too long for the wire format there is none. The
    /// emitter that comes back is cleared either way.
    pub fn emit(self, message: Vec<&str>) -> (done: (Emitter, Result<Emission, EncodingError>))
        ensures
            done.0@ == self@.cleared(),
            done.1 is Ok <==> encodable(
                SENDER_ID@,
                event_packet(message.deep_view(), self@.nsp),
                self@.opts(),
            ),
            done.1 matches Ok(emission) ==> {
                &&& emission.channel@ == channel_of(self@.prefix, self@.nsp, self@.rooms)
                &&& emission.payload@ == envelope_bytes(
                    SENDER_ID@,
                    event_packet(message.deep_view(), self@.nsp),
                    self@.opts(),
                )
            },
            done.1 matches Err(e) ==> e == EncodingError::Oversized,
    {
        proof {
            use_type_invariant(&self);
        }
        let Emitter { redis, prefix, nsp, rooms, flags } = self;
        let channel = address(prefix.as_str(), nsp.as_str(), &rooms);
        let packet = Packet::event(owned(&message), nsp.clone());
        let opts = Opts::new(rooms, flags);
        let outcome = match encode(SENDER_ID, &packet, &opts) {
            Ok(payload) => Ok(Emission { channel, payload }),
            Err(e) => Err(e),
        };
        let emitter = Emitter { redis, prefix, nsp, rooms: Vec::new(), flags: Vec::new() };
        assert(emitter.rooms.deep_view() =~= Seq::<Seq<char>>::empty());
        assert(emitter.flags.deep_view() =~= Seq::<(Seq<char>, bool)>::empty());
        (emitter, outcome)
    }

    /// The client of the broker that the emitter is bound to.
    pub fn client(&self) -> (client: &redis::Client)
        ensures
            *client == self@.client,
    {
        &self.redis
    }

    /// The channel prefix, which is never empty.
    pub fn prefix(&self) -> (prefix: &String)
        ensures
            prefix@ == self@.prefix,
            prefix@.len() > 0,
    {
        proof {
            use_type_invariant(self);
        }
        &self.prefix
    }

    /// The namespace.
    pub fn nsp(&self) -> (nsp: &String)
        ensures
            nsp@ == self@.nsp,
    {
        &self.nsp
    }

    /// The rooms that the next emission targets, in the order given.
    pub fn rooms(&self) -> (rooms: &Vec<String>)
        ensures
            rooms.deep_view() == self@.rooms,
    {
        &self.rooms
    }

    /// The flag of the next emission: one entry at most.
    pub fn flags(&self) -> (flags: &Vec<(String, bool)>)
        ensures
            flags.deep_view() == self@.flags,
            flags.len() <= 1,
    {
        proof {
            use_type_invariant(self);
        }
        &self.flags
    }
}

/// The strings of a message, each in a `String` of its own.
fn owned(message: &Vec<&str>) -> (data: Vec<String>)
    ensures
        data.deep_view() == message.deep_view(),
{
    let mut data: Vec<String> = Vec::new();
    let mut i: usize = 0;
    while i < message.len()
        invariant
            i <= message.len(),
            data.deep_view() == message.deep_view().take(i as int),
        decreases message.len() - i,
    {
        let ghost before = data.deep_view();
        data.push(message[i].to_owned());
        assert(message.deep_view().take(i + 1) =~= before.push(message.deep_view()[i as int]));
        i = i + 1;
    }
    data
}

/// Binds an emitter to the client that opening an address gave, or hands
/// on why there is none.
pub fn bind(opened: Result<redis::Client, redis::RedisError>, prefix: &str) -> (made: Result<
    Emitter,
    ConnectionError,
>)
    requires
        prefix@.len() > 0,
    ensures
        match opened {
            Ok(client) => made matches Ok(emitter) && emitter@ == fresh(client, prefix@),
            Err(cause) => made matches Err(error) && error.cause == cause,
        },
{
    match opened {
        Ok(client) => Ok(create_emitter(client, prefix, DEFAULT_NSP)),
        Err(cause) => Err(ConnectionError { cause }),
    }
}

/// Where the broker is, and the channel prefix to use.
#[derive(Debug, PartialEq, Clone, Default)]
pub struct EmitterOpts<'a> {
    pub host: String,
    pub port: i32,
    pub socket: Option<String>,
    /// The channel prefix; `socket.io` where there is none.
    pub key: Option<&'a str>,
}

impl<'a> EmitterOpts<'a> {
    /// The channel prefix that these options ask for.
    pub fn prefix(&self) -> (prefix: &str)
        ensures
            prefix@ == self.prefix_view(),
    {
        match self.key {
            Some(key) => key,
            None => DEFAULT_PREFIX,
        }
    }
}

/// What an emitter can be made from.
pub trait IntoEmitter: Sized {
    /// Whether the value names a channel prefix that is not empty.
    spec fn well_formed(&self) -> bool;

    /// The channel prefix that the emitter gets.
    spec fn prefix_view(&self) -> Seq<char>;

    /// Whether the value gives a client of the broker.
    spec fn connects(&self) -> bool;

    /// Whether `client` may be the client that the value gives.
    spec fn binds(&self, client: redis::Client) -> bool;

    /// Binds an emitter to the broker that the value names, for the
    /// namespace `/`, with no room and no flag.
    fn into_emitter(self) -> (made: Result<Emitter, ConnectionError>)
        requires
            self.well_formed(),
        ensures
            made is Ok <==> self.connects(),
            made matches Ok(emitter) ==> self.binds(emitter@.client) && emitter@ == fresh(
                emitter@.client,
                self.prefix_view(),
            ),
    ;
}

/// A client that is there already: the emitter is bound to it, under the
/// prefix `socket.io`.
impl IntoEmitter for redis::Client {
    open spec fn well_formed(&self) -> bool {
        true
    }

    open spec fn prefix_view(&self) -> Seq<char> {
        DEFAULT_PREFIX@
    }

    open spec fn connects(&self) -> bool {
        true
    }

    open spec fn binds(&self, client: redis::Client) -> bool {
        client == *self
    }

    fn into_emitter(self) -> (made: Result<Emitter, ConnectionError>) {
        proof {
            lemma_defaults();
        }
        Ok(create_emitter(self, DEFAULT_PREFIX, DEFAULT_NSP))
    }
}

/// The host and port of the broker, and the prefix under `key`.
impl<'a> IntoEmitter for EmitterOpts<'a> {
    open spec fn well_formed(&self) -> bool {
        self.key matches Some(key) ==> key@.len() > 0
    }

    open spec fn prefix_view(&self) -> Seq<char> {
        match self.key {
            Some(key) => key@,
            None => DEFAULT_PREFIX@,
        }
    }

    open spec fn connects(&self) -> bool {
        url_accepted(url_of(host_port(self.host@, self.port as int)))
    }

    open spec fn binds(&self, client: redis::Client) -> bool {
        true
    }

    fn into_emitter(self) -> (made: Result<Emitter, ConnectionError>) {
        proof {
            lemma_defaults();
        }
        let addr = broker_addr(self.host.as_str(), self.port);
        let url = broker_url(addr.as_str());
        bind(open_client(url.as_str()), self.prefix())
    }
}

/// The address of the broker, a host or a host and a port: the emitter
/// gets the prefix `socket.io`.
impl<'a> IntoEmitter for &'a str {
    open spec fn well_formed(&self) -> bool {
        true
    }

    open spec fn prefix_view(&self) -> Seq<char> {
        DEFAULT_PREFIX@
    }

    open spec fn connects(&self) -> bool {
        url_accepted(url_of(self@))
    }

    open spec fn binds(&self, client: redis::Client) -> bool {
        true
    }

    fn into_emitter(self) -> (made: Result<Emitter, ConnectionError>) {
        proof {
            lemma_defaults();
        }
        let url = broker_url(self);
        bind(open_client(url.as_str()), DEFAULT_PREFIX)
    }
}

/// What the constants hold.
pub proof fn lemma_defaults()
    ensures
        SENDER_ID@ == "emitter"@,
        DEFAULT_PREFIX@ == "socket.io"@,
        DEFAULT_PREFIX@.len() == 9,
        DEFAULT_NSP@ == "/"@,
        DEFAULT_NSP@ == seq!['/'],
{
    reveal_strlit("socket.io");
    reveal_strlit("/");
}

/// An emission to two or more rooms goes to the channel of the namespace, as
/// an emission to no room does, and its envelope still names every room, in
/// the order in which they were targeted.
pub proof fn lemma_rooms_carried(
    prefix: Seq<char>,
    nsp: Seq<char>,
    sender: Seq<char>,
    packet: PacketView,
    opts: OptsView,
)
    requires
        opts.rooms.len() >= 2,
        encodable(sender, packet, opts),
    ensures
        channel_of(prefix, nsp, opts.rooms) == base_channel(prefix, nsp),
        channel_of(prefix, nsp, opts.rooms) == channel_of(prefix, nsp, Seq::empty()),
        parse_envelope(envelope_bytes(sender, packet, opts)) matches Some(found) && found.2.rooms
            == opts.rooms,
{
    lemma_decode_inverts_encode(sender, packet, opts);
}

} // verus!
