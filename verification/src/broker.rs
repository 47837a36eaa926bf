//! The broker that emissions are published to: its client, and the address
//! the client is opened on.

use vstd::prelude::*;
use vstd::string::*;

verus! {

/// `redis::Client`, the client of the broker. Nothing is known here of what
/// it holds: an emitter carries it from where it is made to where the caller
/// publishes through it.
#[verifier::external_type_specification]
#[verifier::external_body]
pub struct ExClient(redis::Client);

/// `redis::RedisError`, what the client of the broker answers for an address
/// that it does not take. Nothing is known here of what it holds.
#[verifier::external_type_specification]
#[verifier::external_body]
pub struct ExRedisError(redis::RedisError);

/// What `redis::Client::open` answers for `url`: whether it takes it for the
/// address of a server. Nothing more is known of it here.
pub uninterp spec fn url_accepted(url: Seq<char>) -> bool;

/// The address of the broker at `addr`, which is a host, or a host and a
/// port with a colon between them.
pub open spec fn url_of(addr: Seq<char>) -> Seq<char> {
    "redis://"@ + addr
}

/// The ten digits.
pub open spec fn digit(d: int) -> Seq<char>
    recommends
        0 <= d < 10,
{
    seq![seq!['0', '1', '2', '3', '4', '5', '6', '7', '8', '9'][d]]
}

/// A natural number in decimal, without leading zeros.
pub open spec fn decimal(n: nat) -> Seq<char>
    decreases n,
{
    if n < 10 {
        digit(n as int)
    } else {
        decimal(n / 10) + digit(n as int % 10)
    }
}

/// An integer in decimal, with a minus sign where it is negative.
pub open spec fn signed_decimal(v: int) -> Seq<char> {
    if v < 0 {
        seq!['-'] + decimal((-v) as nat)
    } else {
        decimal(v as nat)
    }
}

/// The host and port of a broker as one address.
pub open spec fn host_port(host: Seq<char>, port: int) -> Seq<char> {
    host + seq![':'] + signed_decimal(port)
}

/// Why an emitter could not be bound to a broker.
#[derive(Debug)]
pub struct ConnectionError {
    /// What the broker's client said of the address.
    pub cause: redis::RedisError,
}

/// Calls `redis::Client::open` with a URL of the scheme `redis`.
///
/// The call connects to nothing: it reads the URL, and hands back a client
/// or the reason why the URL is none. The contract is taken on trust. It
/// gives the answer the name `url_accepted`, which is to say that the answer
/// depends on the URL alone.
#[verifier::external_body]
pub(crate) fn open_client(url: &str) -> (opened: Result<redis::Client, redis::RedisError>)
    requires
        "redis://"@.is_prefix_of(url@),
    ensures
        opened is Ok <==> url_accepted(url@),
{
    redis::Client::open(url)
}

fn digit_str(d: u32) -> (s: &'static str)
    requires
        d < 10,
    ensures
        s@ == digit(d as int),
{
    proof {
        reveal_strlit("0");
        reveal_strlit("1");
        reveal_strlit("2");
        reveal_strlit("3");
        reveal_strlit("4");
        reveal_strlit("5");
        reveal_strlit("6");
        reveal_strlit("7");
        reveal_strlit("8");
        reveal_strlit("9");
    }
    match d {
        0 => "0",
        1 => "1",
        2 => "2",
        3 => "3",
        4 => "4",
        5 => "5",
        6 => "6",
        7 => "7",
        8 => "8",
        _ => "9",
    }
}

fn append_decimal(text: &mut String, n: u32)
    ensures
        final(text)@ == old(text)@ + decimal(n as nat),
    decreases n,
{
    if n >= 10 {
        append_decimal(text, n / 10);
    }
    text.append(digit_str(n % 10));
}

/// The URL of the broker at `addr`.
pub fn broker_url(addr: &str) -> (url: String)
    ensures
        url@ == url_of(addr@),
{
    let mut url = String::from_str("redis://");
    url.append(addr);
    url
}

/// The address of the broker at `host` and `port`.
pub fn broker_addr(host: &str, port: i32) -> (addr: String)
    ensures
        addr@ == host_port(host@, port as int),
{
    proof {
        reveal_strlit(":");
        reveal_strlit("-");
    }
    let mut addr = String::from_str(host);
    addr.append(":");
    if port < 0 {
        addr.append("-");
        let size: u32 = (-(port as i64)) as u32;
        append_decimal(&mut addr, size);
    } else {
        append_decimal(&mut addr, port as u32);
    }
    addr
}

} // verus!
