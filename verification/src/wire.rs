//! The MessagePack formats that an envelope is made of: length headers,
//! strings, integers, booleans, arrays of strings and maps from strings to
//! booleans.
//!
//! Every format has a spec function that gives its bytes, a spec function
//! that reads it from the front of a byte sequence, and a lemma that the
//! second undoes the first. The executable writers and readers are proved
//! against them.

use vstd::prelude::*;
use vstd::slice::*;
use vstd::string::*;
use vstd::utf8::*;

verus! {

/// The two bytes of `n`, most significant first.
pub open spec fn be2(n: int) -> Seq<u8>
    recommends
        0 <= n < 0x1_0000,
{
    seq![(n / 0x100) as u8, (n % 0x100) as u8]
}

/// The four bytes of `n`, most significant first.
pub open spec fn be4(n: int) -> Seq<u8>
    recommends
        0 <= n < 0x1_0000_0000,
{
    seq![
        (n / 0x100_0000) as u8,
        (n / 0x1_0000 % 0x100) as u8,
        (n / 0x100 % 0x100) as u8,
        (n % 0x100) as u8,
    ]
}

/// The number that the two bytes at `at` stand for.
pub open spec fn be2_at(b: Seq<u8>, at: int) -> int
    recommends
        0 <= at,
        at + 2 <= b.len(),
{
    b[at] * 0x100 + b[at + 1]
}

/// The number that the four bytes at `at` stand for.
pub open spec fn be4_at(b: Seq<u8>, at: int) -> int
    recommends
        0 <= at,
        at + 4 <= b.len(),
{
    b[at] * 0x100_0000 + b[at + 1] * 0x1_0000 + b[at + 2] * 0x100 + b[at + 3]
}

/// A marker followed by the big-endian bytes of a number reads back as that
/// number.
pub proof fn lemma_be_at(marker: u8, n: int, rest: Seq<u8>)
    ensures
        0 <= n < 0x1_0000 ==> be2_at(seq![marker] + be2(n) + rest, 1) == n,
        0 <= n < 0x1_0000_0000 ==> be4_at(seq![marker] + be4(n) + rest, 1) == n,
{
}

/// Appends the two bytes of `n` to `buf`.
fn push_be2(buf: &mut Vec<u8>, n: u16)
    ensures
        final(buf)@ == old(buf)@ + be2(n as int),
{
    buf.push((n / 0x100) as u8);
    buf.push((n % 0x100) as u8);
}

/// Appends the four bytes of `n` to `buf`.
fn push_be4(buf: &mut Vec<u8>, n: u32)
    ensures
        final(buf)@ == old(buf)@ + be4(n as int),
{
    buf.push((n / 0x100_0000) as u8);
    buf.push((n / 0x1_0000 % 0x100) as u8);
    buf.push((n / 0x100 % 0x100) as u8);
    buf.push((n % 0x100) as u8);
}

/// The number that the two bytes at `at` stand for.
fn get_be2(bytes: &[u8], at: usize) -> (n: u16)
    requires
        at + 2 <= bytes@.len(),
    ensures
        n == be2_at(bytes@, at as int),
{
    let hi: u16 = bytes[at] as u16;
    let lo: u16 = bytes[at + 1] as u16;
    hi * 0x100 + lo
}

/// The number that the four bytes at `at` stand for.
fn get_be4(bytes: &[u8], at: usize) -> (n: u32)
    requires
        at + 4 <= bytes@.len(),
    ensures
        n == be4_at(bytes@, at as int),
{
    let b0: u32 = bytes[at] as u32;
    let b1: u32 = bytes[at + 1] as u32;
    let b2: u32 = bytes[at + 2] as u32;
    let b3: u32 = bytes[at + 3] as u32;
    b0 * 0x100_0000 + b1 * 0x1_0000 + b2 * 0x100 + b3
}

/// The marker bytes of one family of length-prefixed formats.
///
/// A length below `slots` is folded into the marker itself (`fix + len`).
/// Longer ones follow a marker of their own as 1, 2 or 4 big-endian bytes;
/// only strings have the 1-byte form.
#[derive(Clone, Copy)]
pub struct Family {
    /// The marker that folds the length 0 in.
    pub fix: u8,
    /// How many lengths are folded into a marker.
    pub slots: u8,
    /// The marker before a length of one byte, where the family has one.
    pub m8: Option<u8>,
    /// The marker before a length of two bytes.
    pub m16: u8,
    /// The marker before a length of four bytes.
    pub m32: u8,
}

impl Family {
    /// Whether a byte is one of the markers that fold the length in.
    pub open spec fn folds(self, marker: u8) -> bool {
        self.fix <= marker < self.fix + self.slots
    }

    /// The markers of a family are told apart by their first byte.
    pub open spec fn wf(self) -> bool {
        &&& self.fix + self.slots <= 0x100
        &&& !self.folds(self.m16)
        &&& !self.folds(self.m32)
        &&& self.m16 != self.m32
        &&& self.m8 matches Some(m8) ==> !self.folds(m8) && m8 != self.m16 && m8 != self.m32
    }
}

/// Strings: `fixstr`, `str 8`, `str 16`, `str 32`.
pub open spec fn text_family() -> Family {
    Family { fix: 0xa0, slots: 32, m8: Some(0xd9), m16: 0xda, m32: 0xdb }
}

/// Arrays: `fixarray`, `array 16`, `array 32`.
pub open spec fn array_family() -> Family {
    Family { fix: 0x90, slots: 16, m8: None, m16: 0xdc, m32: 0xdd }
}

/// Maps: `fixmap`, `map 16`, `map 32`.
pub open spec fn map_family() -> Family {
    Family { fix: 0x80, slots: 16, m8: None, m16: 0xde, m32: 0xdf }
}

/// The longest length a header can carry.
pub open spec fn max_len() -> nat {
    0xffff_ffff
}

/// Whether a header can carry the length `len`.
pub fn fits(len: usize) -> (ok: bool)
    ensures
        ok == (len <= max_len()),
{
    len <= 0xffff_ffff
}

/// The header that announces `len` items (or bytes, for a string), in the
/// shortest form the family has for it.
pub open spec fn header(f: Family, len: nat) -> Seq<u8>
    recommends
        len <= max_len(),
{
    if len < f.slots {
        seq![(f.fix + len) as u8]
    } else if f.m8 is Some && len < 0x100 {
        seq![f.m8->0, len as u8]
    } else if len < 0x1_0000 {
        seq![f.m16] + be2(len as int)
    } else {
        seq![f.m32] + be4(len as int)
    }
}

/// Reads a header of family `f` from the front of `b`: the length it
/// announces and the bytes after it. Any of the family's forms is accepted,
/// whether or not it is the shortest for the length.
pub open spec fn parse_header(f: Family, b: Seq<u8>) -> Option<(nat, Seq<u8>)> {
    if b.len() >= 1 && f.folds(b[0]) {
        Some(((b[0] - f.fix) as nat, b.skip(1)))
    } else if b.len() >= 2 && f.m8 == Some(b[0]) {
        Some((b[1] as nat, b.skip(2)))
    } else if b.len() >= 3 && b[0] == f.m16 {
        Some((be2_at(b, 1) as nat, b.skip(3)))
    } else if b.len() >= 5 && b[0] == f.m32 {
        Some((be4_at(b, 1) as nat, b.skip(5)))
    } else {
        None
    }
}

/// Reading a header gives back the length it was written for.
pub proof fn lemma_parse_header(f: Family, len: nat, rest: Seq<u8>)
    requires
        f.wf(),
        len <= max_len(),
    ensures
        parse_header(f, header(f, len) + rest) == Some((len, rest)),
{
    if len >= 0x1_0000 {
        lemma_be_at(f.m32, len as int, rest);
    } else if len >= 0x100 || (len >= f.slots && f.m8 is None) {
        lemma_be_at(f.m16, len as int, rest);
    }
}

/// The markers of strings.
pub(crate) fn text_markers() -> (f: Family)
    ensures
        f == text_family(),
        f.wf(),
{
    Family { fix: 0xa0, slots: 32, m8: Some(0xd9), m16: 0xda, m32: 0xdb }
}

/// The markers of arrays.
pub(crate) fn array_markers() -> (f: Family)
    ensures
        f == array_family(),
        f.wf(),
{
    Family { fix: 0x90, slots: 16, m8: None, m16: 0xdc, m32: 0xdd }
}

/// The markers of maps.
pub(crate) fn map_markers() -> (f: Family)
    ensures
        f == map_family(),
        f.wf(),
{
    Family { fix: 0x80, slots: 16, m8: None, m16: 0xde, m32: 0xdf }
}

/// Appends the header of family `f` for `len` to `buf`.
pub(crate) fn write_header(buf: &mut Vec<u8>, f: Family, len: u32)
    requires
        f.wf(),
    ensures
        final(buf)@ == old(buf)@ + header(f, len as nat),
{
    if len < f.slots as u32 {
        let low: u8 = len as u8;
        buf.push(f.fix + low);
    } else if f.m8.is_some() && len < 0x100 {
        buf.push(f.m8.unwrap());
        buf.push(len as u8);
    } else if len < 0x1_0000 {
        buf.push(f.m16);
        push_be2(buf, len as u16);
    } else {
        buf.push(f.m32);
        push_be4(buf, len);
    }
}

/// Reads a header of family `f` at `pos`: the length it announces and the
/// position after it.
pub(crate) fn read_header(bytes: &[u8], pos: usize, f: Family) -> (r: Option<(u32, usize)>)
    requires
        pos <= bytes@.len(),
    ensures
        match parse_header(f, bytes@.skip(pos as int)) {
            Some((len, rest)) => r matches Some((n, next)) && n == len && pos < next
                <= bytes@.len() && bytes@.skip(next as int) == rest,
            None => r is None,
        },
{
    let left: usize = bytes.len() - pos;
    if left < 1 {
        return None;
    }
    let marker: u8 = bytes[pos];
    if f.fix <= marker && (marker as u16) < f.fix as u16 + f.slots as u16 {
        Some(((marker - f.fix) as u32, pos + 1))
    } else if left >= 2 && f.m8.is_some() && marker == f.m8.unwrap() {
        Some((bytes[pos + 1] as u32, pos + 2))
    } else if left >= 3 && marker == f.m16 {
        Some((get_be2(bytes, pos + 1) as u32, pos + 3))
    } else if left >= 5 && marker == f.m32 {
        Some((get_be4(bytes, pos + 1), pos + 5))
    } else {
        None
    }
}

/// Whether a string is short enough for a header to carry its length.
pub open spec fn text_fits(s: Seq<char>) -> bool {
    encode_utf8(s).len() <= max_len()
}

/// A string: the header for the number of UTF-8 bytes, then the bytes.
pub open spec fn text(s: Seq<char>) -> Seq<u8>
    recommends
        text_fits(s),
{
    header(text_family(), encode_utf8(s).len()) + encode_utf8(s)
}

/// Reads a string from the front of `b`. The announced bytes must be there
/// and be valid UTF-8.
pub open spec fn parse_text(b: Seq<u8>) -> Option<(Seq<char>, Seq<u8>)> {
    match parse_header(text_family(), b) {
        Some((len, body)) => if len <= body.len() && valid_utf8(body.take(len as int)) {
            Some((decode_utf8(body.take(len as int)), body.skip(len as int)))
        } else {
            None
        },
        None => None,
    }
}

/// Reading a string gives back the string that was written.
pub proof fn lemma_parse_text(s: Seq<char>, rest: Seq<u8>)
    requires
        text_fits(s),
    ensures
        parse_text(text(s) + rest) == Some((s, rest)),
{
    let raw = encode_utf8(s);
    let body = raw + rest;
    assert(text(s) + rest =~= header(text_family(), raw.len()) + body);
    lemma_parse_header(text_family(), raw.len(), body);
    assert(body.take(raw.len() as int) =~= raw);
    encode_utf8_valid_utf8(s);
    encode_utf8_decode_utf8(s);
}

/// A character takes at most four bytes in UTF-8.
pub proof fn lemma_utf8_len(s: Seq<char>)
    ensures
        encode_utf8(s).len() <= 4 * s.len(),
    decreases s.len(),
{
    if s.len() > 0 {
        lemma_utf8_len(s.drop_first());
    }
}

/// Calls `core::str::from_utf8`.
///
/// The contract is taken on trust: the call accepts a byte slice exactly
/// when it is valid UTF-8, and then hands the same bytes back as a string
/// slice.
#[verifier::external_body]
fn utf8_str<'a>(bytes: &'a [u8]) -> (r: Option<&'a str>)
    ensures
        r is Some <==> valid_utf8(bytes@),
        r matches Some(s) ==> s.spec_bytes() == bytes@,
{
    match core::str::from_utf8(bytes) {
        Ok(s) => Some(s),
        Err(_) => None,
    }
}

/// Appends `s` to `buf` as a string, unless it is too long for the format;
/// `buf` is then left as it was.
pub(crate) fn write_text(buf: &mut Vec<u8>, s: &str) -> (written: bool)
    ensures
        written == text_fits(s@),
        written ==> final(buf)@ == old(buf)@ + text(s@),
        !written ==> final(buf)@ == old(buf)@,
{
    let raw = s.as_bytes();
    let n: usize = raw.len();
    if !fits(n) {
        return false;
    }
    write_header(buf, text_markers(), n as u32);
    buf.extend_from_slice(raw);
    true
}

/// Reads a string at `pos`: the string and the position after it.
pub(crate) fn read_text(bytes: &[u8], pos: usize) -> (r: Option<(String, usize)>)
    requires
        pos <= bytes@.len(),
    ensures
        match parse_text(bytes@.skip(pos as int)) {
            Some((s, rest)) => r matches Some((t, next)) && t@ == s && pos < next <= bytes@.len()
                && bytes@.skip(next as int) == rest,
            None => r is None,
        },
{
    match read_header(bytes, pos, text_markers()) {
        None => None,
        Some((len, start)) => {
            let len: usize = len as usize;
            if bytes.len() - start < len {
                return None;
            }
            let ghost body = bytes@.skip(start as int);
            let raw = slice_subrange(bytes, start, start + len);
            assert(raw@ =~= body.take(len as int));
            match utf8_str(raw) {
                None => None,
                Some(s) => {
                    proof {
                        encode_utf8_decode_utf8(s@);
                    }
                    Some((s.to_owned(), start + len))
                },
            }
        },
    }
}

/// A boolean: `true` or `false`, one byte each.
pub open spec fn boolean(v: bool) -> Seq<u8> {
    seq![if v { 0xc3u8 } else { 0xc2u8 }]
}

/// Reads a boolean from the front of `b`.
pub open spec fn parse_boolean(b: Seq<u8>) -> Option<(bool, Seq<u8>)> {
    if b.len() >= 1 && b[0] == 0xc3 {
        Some((true, b.skip(1)))
    } else if b.len() >= 1 && b[0] == 0xc2 {
        Some((false, b.skip(1)))
    } else {
        None
    }
}

/// Reading a boolean gives back the boolean that was written.
pub proof fn lemma_parse_boolean(v: bool, rest: Seq<u8>)
    ensures
        parse_boolean(boolean(v) + rest) == Some((v, rest)),
{
}

/// Appends `v` to `buf` as a boolean.
pub(crate) fn write_boolean(buf: &mut Vec<u8>, v: bool)
    ensures
        final(buf)@ == old(buf)@ + boolean(v),
{
    buf.push(if v { 0xc3 } else { 0xc2 });
}

/// Reads a boolean at `pos`: the boolean and the position after it.
pub(crate) fn read_boolean(bytes: &[u8], pos: usize) -> (r: Option<(bool, usize)>)
    requires
        pos <= bytes@.len(),
    ensures
        match parse_boolean(bytes@.skip(pos as int)) {
            Some((v, rest)) => r matches Some((w, next)) && w == v && pos < next <= bytes@.len()
                && bytes@.skip(next as int) == rest,
            None => r is None,
        },
{
    if pos >= bytes.len() {
        return None;
    }
    let marker: u8 = bytes[pos];
    if marker == 0xc3 {
        Some((true, pos + 1))
    } else if marker == 0xc2 {
        Some((false, pos + 1))
    } else {
        None
    }
}

/// A 32-bit signed integer, in the shortest form that holds it: a single
/// byte for -32..128, else `uint 8`, `uint 16` or `uint 32` for what is
/// positive and `int 8`, `int 16` or `int 32` for what is negative.
pub open spec fn integer(v: int) -> Seq<u8>
    recommends
        i32::MIN <= v <= i32::MAX,
{
    if 0 <= v < 0x80 {
        seq![v as u8]
    } else if 0x80 <= v < 0x100 {
        seq![0xccu8, v as u8]
    } else if 0x100 <= v < 0x1_0000 {
        seq![0xcdu8] + be2(v)
    } else if 0x1_0000 <= v {
        seq![0xceu8] + be4(v)
    } else if -0x20 <= v {
        seq![(v + 0x100) as u8]
    } else if -0x80 <= v {
        seq![0xd0u8, (v + 0x100) as u8]
    } else if -0x8000 <= v {
        seq![0xd1u8] + be2(v + 0x1_0000)
    } else {
        seq![0xd2u8] + be4(v + 0x1_0000_0000)
    }
}

/// Reads a 32-bit signed integer from the front of `b`, in any of the forms
/// of up to 32 bits. An unsigned form that holds more than `i32::MAX` is not
/// one.
pub open spec fn parse_integer(b: Seq<u8>) -> Option<(int, Seq<u8>)> {
    if b.len() >= 1 && b[0] < 0x80 {
        Some((b[0] as int, b.skip(1)))
    } else if b.len() >= 1 && b[0] >= 0xe0 {
        Some((b[0] - 0x100, b.skip(1)))
    } else if b.len() >= 2 && b[0] == 0xcc {
        Some((b[1] as int, b.skip(2)))
    } else if b.len() >= 3 && b[0] == 0xcd {
        Some((be2_at(b, 1), b.skip(3)))
    } else if b.len() >= 5 && b[0] == 0xce && be4_at(b, 1) <= i32::MAX {
        Some((be4_at(b, 1), b.skip(5)))
    } else if b.len() >= 2 && b[0] == 0xd0 {
        Some((if b[1] < 0x80 { b[1] as int } else { b[1] - 0x100 }, b.skip(2)))
    } else if b.len() >= 3 && b[0] == 0xd1 {
        Some((if be2_at(b, 1) < 0x8000 { be2_at(b, 1) } else { be2_at(b, 1) - 0x1_0000 }, b.skip(3)))
    } else if b.len() >= 5 && b[0] == 0xd2 {
        Some((
            if be4_at(b, 1) < 0x8000_0000 { be4_at(b, 1) } else { be4_at(b, 1) - 0x1_0000_0000 },
            b.skip(5),
        ))
    } else {
        None
    }
}

/// Reading an integer gives back the integer that was written.
pub proof fn lemma_parse_integer(v: int, rest: Seq<u8>)
    requires
        i32::MIN <= v <= i32::MAX,
    ensures
        parse_integer(integer(v) + rest) == Some((v, rest)),
{
    if 0x100 <= v < 0x1_0000 {
        lemma_be_at(0xcd, v, rest);
    } else if 0x1_0000 <= v {
        lemma_be_at(0xce, v, rest);
    } else if -0x8000 <= v < -0x80 {
        lemma_be_at(0xd1, v + 0x1_0000, rest);
    } else if v < -0x8000 {
        lemma_be_at(0xd2, v + 0x1_0000_0000, rest);
    }
}

/// Appends `v` to `buf` as an integer.
pub(crate) fn write_integer(buf: &mut Vec<u8>, v: i32)
    ensures
        final(buf)@ == old(buf)@ + integer(v as int),
{
    let w: i64 = v as i64;
    if 0 <= w && w < 0x80 {
        buf.push(w as u8);
    } else if 0x80 <= w && w < 0x100 {
        buf.push(0xcc);
        buf.push(w as u8);
    } else if 0x100 <= w && w < 0x1_0000 {
        buf.push(0xcd);
        push_be2(buf, w as u16);
    } else if 0x1_0000 <= w {
        buf.push(0xce);
        push_be4(buf, w as u32);
    } else if -0x20 <= w {
        buf.push((w + 0x100) as u8);
    } else if -0x80 <= w {
        buf.push(0xd0);
        buf.push((w + 0x100) as u8);
    } else if -0x8000 <= w {
        buf.push(0xd1);
        push_be2(buf, (w + 0x1_0000) as u16);
    } else {
        buf.push(0xd2);
        push_be4(buf, (w + 0x1_0000_0000) as u32);
    }
}

/// Reads an integer at `pos`: the integer and the position after it.
pub(crate) fn read_integer(bytes: &[u8], pos: usize) -> (r: Option<(i32, usize)>)
    requires
        pos <= bytes@.len(),
    ensures
        match parse_integer(bytes@.skip(pos as int)) {
            Some((v, rest)) => r matches Some((w, next)) && w == v && pos < next <= bytes@.len()
                && bytes@.skip(next as int) == rest,
            None => r is None,
        },
{
    let left: usize = bytes.len() - pos;
    if left < 1 {
        return None;
    }
    let marker: u8 = bytes[pos];
    if marker < 0x80 {
        Some((marker as i32, pos + 1))
    } else if marker >= 0xe0 {
        Some((marker as i32 - 0x100, pos + 1))
    } else if left >= 2 && marker == 0xcc {
        Some((bytes[pos + 1] as i32, pos + 2))
    } else if left >= 3 && marker == 0xcd {
        Some((get_be2(bytes, pos + 1) as i32, pos + 3))
    } else if left >= 5 && marker == 0xce {
        let n: u32 = get_be4(bytes, pos + 1);
        if n <= 0x7fff_ffff {
            Some((n as i32, pos + 5))
        } else {
            None
        }
    } else if left >= 2 && marker == 0xd0 {
        let n: i32 = bytes[pos + 1] as i32;
        Some((if n < 0x80 { n } else { n - 0x100 }, pos + 2))
    } else if left >= 3 && marker == 0xd1 {
        let n: i32 = get_be2(bytes, pos + 1) as i32;
        Some((if n < 0x8000 { n } else { n - 0x1_0000 }, pos + 3))
    } else if left >= 5 && marker == 0xd2 {
        let n: i64 = get_be4(bytes, pos + 1) as i64;
        Some((if n < 0x8000_0000 { n as i32 } else { (n - 0x1_0000_0000) as i32 }, pos + 5))
    } else {
        None
    }
}

/// Puts `head` in front of the items that a reader found, if it found any.
pub open spec fn prepend<T>(head: Seq<T>, found: Option<(Seq<T>, Seq<u8>)>) -> Option<
    (Seq<T>, Seq<u8>),
> {
    match found {
        Some((items, rest)) => Some((head + items, rest)),
        None => None,
    }
}

/// Whether an array of strings can be written: a header can carry its
/// length and that of each string.
pub open spec fn texts_fit(items: Seq<Seq<char>>) -> bool {
    &&& items.len() <= max_len()
    &&& forall|i: int| 0 <= i < items.len() ==> text_fits(#[trigger] items[i])
}

/// Strings one after the other, without a header.
pub open spec fn texts(items: Seq<Seq<char>>) -> Seq<u8>
    decreases items.len(),
{
    if items.len() == 0 {
        Seq::empty()
    } else {
        text(items.first()) + texts(items.drop_first())
    }
}

/// An array of strings: the header for their number, then the strings.
pub open spec fn text_array(items: Seq<Seq<char>>) -> Seq<u8>
    recommends
        texts_fit(items),
{
    header(array_family(), items.len()) + texts(items)
}

/// Reads `n` strings from the front of `b`.
pub open spec fn parse_texts(b: Seq<u8>, n: nat) -> Option<(Seq<Seq<char>>, Seq<u8>)>
    decreases n,
{
    if n == 0 {
        Some((Seq::empty(), b))
    } else {
        match parse_text(b) {
            Some((s, rest)) => prepend(seq![s], parse_texts(rest, (n - 1) as nat)),
            None => None,
        }
    }
}

/// Reads an array of strings from the front of `b`.
pub open spec fn parse_text_array(b: Seq<u8>) -> Option<(Seq<Seq<char>>, Seq<u8>)> {
    match parse_header(array_family(), b) {
        Some((n, body)) => parse_texts(body, n),
        None => None,
    }
}

/// Writing one more string appends its bytes.
pub proof fn lemma_texts_push(items: Seq<Seq<char>>, s: Seq<char>)
    ensures
        texts(items.push(s)) == texts(items) + text(s),
    decreases items.len(),
{
    if items.len() == 0 {
        assert(items.push(s).drop_first() =~= items);
    } else {
        assert(items.push(s).drop_first() =~= items.drop_first().push(s));
        lemma_texts_push(items.drop_first(), s);
    }
}

/// Reading as many strings as were written gives them back.
pub proof fn lemma_parse_texts(items: Seq<Seq<char>>, rest: Seq<u8>)
    requires
        forall|i: int| 0 <= i < items.len() ==> text_fits(#[trigger] items[i]),
    ensures
        parse_texts(texts(items) + rest, items.len()) == Some((items, rest)),
    decreases items.len(),
{
    if items.len() > 0 {
        let more = items.drop_first();
        assert(texts(items) + rest =~= text(items.first()) + (texts(more) + rest));
        lemma_parse_text(items.first(), texts(more) + rest);
        lemma_parse_texts(more, rest);
    }
}

/// Reading an array of strings gives back the strings that were written.
pub proof fn lemma_parse_text_array(items: Seq<Seq<char>>, rest: Seq<u8>)
    requires
        texts_fit(items),
    ensures
        parse_text_array(text_array(items) + rest) == Some((items, rest)),
{
    assert(text_array(items) + rest =~= header(array_family(), items.len()) + (texts(items)
        + rest));
    lemma_parse_header(array_family(), items.len(), texts(items) + rest);
    lemma_parse_texts(items, rest);
}

/// Appends `items` to `buf` as an array of strings, unless the array or one
/// of the strings is too long for the format.
pub(crate) fn write_text_array(buf: &mut Vec<u8>, items: &Vec<String>) -> (written: bool)
    ensures
        written == texts_fit(items.deep_view()),
        written ==> final(buf)@ == old(buf)@ + text_array(items.deep_view()),
{
    let ghost before = buf@;
    let ghost all = items.deep_view();
    let n: usize = items.len();
    if !fits(n) {
        return false;
    }
    write_header(buf, array_markers(), n as u32);
    let mut i: usize = 0;
    while i < n
        invariant
            i <= n,
            n == items.len(),
            all == items.deep_view(),
            forall|j: int| 0 <= j < i ==> text_fits(#[trigger] all[j]),
            buf@ == before + header(array_family(), n as nat) + texts(all.take(i as int)),
        decreases n - i,
    {
        if !write_text(buf, items[i].as_str()) {
            assert(!text_fits(all[i as int]));
            return false;
        }
        proof {
            lemma_texts_push(all.take(i as int), all[i as int]);
            assert(all.take(i + 1) =~= all.take(i as int).push(all[i as int]));
        }
        i = i + 1;
    }
    assert(all.take(n as int) =~= all);
    true
}

/// Reads an array of strings at `pos`: the strings and the position after
/// them.
pub(crate) fn read_text_array(bytes: &[u8], pos: usize) -> (r: Option<(Vec<String>, usize)>)
    requires
        pos <= bytes@.len(),
    ensures
        match parse_text_array(bytes@.skip(pos as int)) {
            Some((items, rest)) => r matches Some((out, next)) && out.deep_view() == items && pos
                < next <= bytes@.len() && bytes@.skip(next as int) == rest,
            None => r is None,
        },
{
    match read_header(bytes, pos, array_markers()) {
        None => None,
        Some((n, start)) => {
            let ghost body = bytes@.skip(start as int);
            let mut out: Vec<String> = Vec::new();
            let mut at: usize = start;
            let mut i: u32 = 0;
            while i < n
                invariant
                    i <= n,
                    pos < start <= at <= bytes@.len(),
                    parse_header(array_family(), bytes@.skip(pos as int)) == Some((n as nat, body)),
                    parse_texts(body, n as nat) == prepend(
                        out.deep_view(),
                        parse_texts(bytes@.skip(at as int), (n - i) as nat),
                    ),
                decreases n - i,
            {
                match read_text(bytes, at) {
                    None => {
                        return None;
                    },
                    Some((s, next)) => {
                        out.push(s);
                        at = next;
                        i = i + 1;
                    },
                }
            }
            Some((out, at))
        },
    }
}

/// Whether a map of flags can be written: a header can carry its length and
/// that of each name.
pub open spec fn flags_fit(flags: Seq<(Seq<char>, bool)>) -> bool {
    &&& flags.len() <= max_len()
    &&& forall|i: int| 0 <= i < flags.len() ==> text_fits(#[trigger] flags[i].0)
}

/// One entry of a map of flags: the name, then the boolean.
pub open spec fn flag(entry: (Seq<char>, bool)) -> Seq<u8>
    recommends
        text_fits(entry.0),
{
    text(entry.0) + boolean(entry.1)
}

/// Entries one after the other, without a header.
pub open spec fn flag_entries(flags: Seq<(Seq<char>, bool)>) -> Seq<u8>
    decreases flags.len(),
{
    if flags.len() == 0 {
        Seq::empty()
    } else {
        flag(flags.first()) + flag_entries(flags.drop_first())
    }
}

/// A map of flags: the header for the number of entries, then the entries
/// in the order given.
pub open spec fn flag_map(flags: Seq<(Seq<char>, bool)>) -> Seq<u8>
    recommends
        flags_fit(flags),
{
    header(map_family(), flags.len()) + flag_entries(flags)
}

/// Reads one entry of a map of flags from the front of `b`.
pub open spec fn parse_flag(b: Seq<u8>) -> Option<((Seq<char>, bool), Seq<u8>)> {
    match parse_text(b) {
        Some((name, rest)) => match parse_boolean(rest) {
            Some((on, end)) => Some(((name, on), end)),
            None => None,
        },
        None => None,
    }
}

/// Reads `n` entries from the front of `b`.
pub open spec fn parse_flag_entries(b: Seq<u8>, n: nat) -> Option<
    (Seq<(Seq<char>, bool)>, Seq<u8>),
>
    decreases n,
{
    if n == 0 {
        Some((Seq::empty(), b))
    } else {
        match parse_flag(b) {
            Some((entry, rest)) => prepend(seq![entry], parse_flag_entries(rest, (n - 1) as nat)),
            None => None,
        }
    }
}

/// Reads a map of flags from the front of `b`, in the order of the bytes.
pub open spec fn parse_flag_map(b: Seq<u8>) -> Option<(Seq<(Seq<char>, bool)>, Seq<u8>)> {
    match parse_header(map_family(), b) {
        Some((n, body)) => parse_flag_entries(body, n),
        None => None,
    }
}

/// Reading an entry gives back the entry that was written.
pub proof fn lemma_parse_flag(entry: (Seq<char>, bool), rest: Seq<u8>)
    requires
        text_fits(entry.0),
    ensures
        parse_flag(flag(entry) + rest) == Some((entry, rest)),
{
    assert(flag(entry) + rest =~= text(entry.0) + (boolean(entry.1) + rest));
    lemma_parse_text(entry.0, boolean(entry.1) + rest);
    lemma_parse_boolean(entry.1, rest);
}

/// Writing one more entry appends its bytes.
pub proof fn lemma_flag_entries_push(flags: Seq<(Seq<char>, bool)>, entry: (Seq<char>, bool))
    ensures
        flag_entries(flags.push(entry)) == flag_entries(flags) + flag(entry),
    decreases flags.len(),
{
    if flags.len() == 0 {
        assert(flags.push(entry).drop_first() =~= flags);
    } else {
        assert(flags.push(entry).drop_first() =~= flags.drop_first().push(entry));
        lemma_flag_entries_push(flags.drop_first(), entry);
    }
}

/// Reading as many entries as were written gives them back.
pub proof fn lemma_parse_flag_entries(flags: Seq<(Seq<char>, bool)>, rest: Seq<u8>)
    requires
        forall|i: int| 0 <= i < flags.len() ==> text_fits(#[trigger] flags[i].0),
    ensures
        parse_flag_entries(flag_entries(flags) + rest, flags.len()) == Some((flags, rest)),
    decreases flags.len(),
{
    if flags.len() > 0 {
        let more = flags.drop_first();
        assert(flag_entries(flags) + rest =~= flag(flags.first()) + (flag_entries(more) + rest));
        lemma_parse_flag(flags.first(), flag_entries(more) + rest);
        lemma_parse_flag_entries(more, rest);
    }
}

/// Reading a map of flags gives back the entries that were written.
pub proof fn lemma_parse_flag_map(flags: Seq<(Seq<char>, bool)>, rest: Seq<u8>)
    requires
        flags_fit(flags),
    ensures
        parse_flag_map(flag_map(flags) + rest) == Some((flags, rest)),
{
    assert(flag_map(flags) + rest =~= header(map_family(), flags.len()) + (flag_entries(flags)
        + rest));
    lemma_parse_header(map_family(), flags.len(), flag_entries(flags) + rest);
    lemma_parse_flag_entries(flags, rest);
}

/// Appends `flags` to `buf` as a map, unless the map or one of the names is
/// too long for the format.
pub(crate) fn write_flag_map(buf: &mut Vec<u8>, flags: &Vec<(String, bool)>) -> (written: bool)
    ensures
        written == flags_fit(flags.deep_view()),
        written ==> final(buf)@ == old(buf)@ + flag_map(flags.deep_view()),
{
    let ghost before = buf@;
    let ghost all = flags.deep_view();
    let n: usize = flags.len();
    if !fits(n) {
        return false;
    }
    write_header(buf, map_markers(), n as u32);
    let mut i: usize = 0;
    while i < n
        invariant
            i <= n,
            n == flags.len(),
            all == flags.deep_view(),
            forall|j: int| 0 <= j < i ==> text_fits(#[trigger] all[j].0),
            buf@ == before + header(map_family(), n as nat) + flag_entries(all.take(i as int)),
        decreases n - i,
    {
        if !write_text(buf, flags[i].0.as_str()) {
            assert(!text_fits(all[i as int].0));
            return false;
        }
        write_boolean(buf, flags[i].1);
        proof {
            lemma_flag_entries_push(all.take(i as int), all[i as int]);
            assert(all.take(i + 1) =~= all.take(i as int).push(all[i as int]));
        }
        i = i + 1;
    }
    assert(all.take(n as int) =~= all);
    true
}

/// Reads a map of flags at `pos`: the entries and the position after them.
pub(crate) fn read_flag_map(bytes: &[u8], pos: usize) -> (r: Option<(Vec<(String, bool)>, usize)>)
    requires
        pos <= bytes@.len(),
    ensures
        match parse_flag_map(bytes@.skip(pos as int)) {
            Some((flags, rest)) => r matches Some((out, next)) && out.deep_view() == flags && pos
                < next <= bytes@.len() && bytes@.skip(next as int) == rest,
            None => r is None,
        },
{
    match read_header(bytes, pos, map_markers()) {
        None => None,
        Some((n, start)) => {
            let ghost body = bytes@.skip(start as int);
            let mut out: Vec<(String, bool)> = Vec::new();
            let mut at: usize = start;
            let mut i: u32 = 0;
            while i < n
                invariant
                    i <= n,
                    pos < start <= at <= bytes@.len(),
                    parse_header(map_family(), bytes@.skip(pos as int)) == Some((n as nat, body)),
                    parse_flag_entries(body, n as nat) == prepend(
                        out.deep_view(),
                        parse_flag_entries(bytes@.skip(at as int), (n - i) as nat),
                    ),
                decreases n - i,
            {
                let (name, mid) = match read_text(bytes, at) {
                    None => {
                        return None;
                    },
                    Some(found) => found,
                };
                let (on, next) = match read_boolean(bytes, mid) {
                    None => {
                        return None;
                    },
                    Some(found) => found,
                };
                out.push((name, on));
                at = next;
                i = i + 1;
            }
            Some((out, at))
        },
    }
}

} // verus!
