//! Channel addressing: which broker channel an emission is published on.

use vstd::prelude::*;
use vstd::string::*;

verus! {

/// The channel shared by a whole namespace: `prefix#namespace#`.
pub open spec fn base_channel(prefix: Seq<char>, nsp: Seq<char>) -> Seq<char> {
    prefix + seq!['#'] + nsp + seq!['#']
}

/// The channel for an emission that targets `rooms`.
///
/// A single targeted room gets a channel of its own, `prefix#namespace#room#`.
/// With no room, or with several, the emission goes to the namespace channel
/// and the receivers filter by the room list carried in the envelope.
pub open spec fn channel_of(prefix: Seq<char>, nsp: Seq<char>, rooms: Seq<Seq<char>>) -> Seq<
    char,
> {
    if rooms.len() == 1 {
        base_channel(prefix, nsp) + rooms[0] + seq!['#']
    } else {
        base_channel(prefix, nsp)
    }
}

/// Computes the broker channel for `prefix`, `nsp` and the targeted `rooms`.
pub fn address(prefix: &str, nsp: &str, rooms: &Vec<String>) -> (channel: String)
    ensures
        channel@ == channel_of(prefix@, nsp@, rooms.deep_view()),
        rooms.len() == 1 ==> channel@ == prefix@ + seq!['#'] + nsp@ + seq!['#'] + rooms[0]@
            + seq!['#'],
        rooms.len() != 1 ==> channel@ == prefix@ + seq!['#'] + nsp@ + seq!['#'],
{
    proof {
        reveal_strlit("#");
    }
    let mut channel = String::from_str(prefix);
    channel.append("#");
    channel.append(nsp);
    channel.append("#");
    if rooms.len() == 1 {
        channel.append(rooms[0].as_str());
        channel.append("#");
    }
    channel
}

} // verus!
