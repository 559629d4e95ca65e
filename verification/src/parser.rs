//! The wire decoder: finds a frame in a byte stream, checks it, and decodes
//! its payload by command.

use crate::block_header::{block_header_item, read_block_header, BlockHeader, VarInt};
use crate::codec::{
    array_32, bytes_equal, compact_size_at, lacks, lemma_repeat_short_stays, read_bytes,
    read_compact_size, read_i32_le, read_i64_le, read_u32_le, read_u64_le, reads, reads_all,
    repeat_at, scan_bytes, scan_i32_le, scan_i64_le, scan_u32_le, scan_u64_le, shortfall, views,
    Scan,
};
use crate::hash::{checksum, checksum_of};
use crate::inventory_vector::{inv_vector_item, read_inv_vector, InventoryVector};
use crate::message::{
    AddrMessage, AuthenticatedBitcrustMessage, AuthenticatedBitcrustMessageView, GetblocksMessage,
    GetdataMessage, GetheadersMessage, HeaderMessage, HeaderMessageView, InvMessage, LocatorView,
    Message, MessageView, SendCmpctMessage, VersionMessage, VersionMessageView,
};
use crate::net_addr::{
    ipv6_at, net_addr_at, net_addr_item, read_ipv6, read_net_addr, read_version_net_addr, version_net_addr_at,
    Ipv6Address, NetAddr, Services,
};
use vstd::prelude::*;
use vstd::slice::{slice_subrange, slice_to_vec};
use vstd::string::StringSliceAdditionalSpecFns;
use vstd::utf8::{decode_utf8, encode_utf8_decode_utf8, valid_utf8};

verus! {

/// How much more input a decoder needs.
#[derive(Debug, Clone, Copy, PartialEq, Eq, Structural)]
pub enum Needed {
    /// There is no telling: no frame has begun.
    Unknown,
    /// The field that was being read needs this many more bytes than are
    /// left.
    Size(u64),
}

/// Why a frame was refused.
#[derive(Debug, Clone, Copy, PartialEq, Eq, Structural)]
pub enum WireError {
    /// The command is not valid UTF-8.
    InvalidCommand,
    /// The payload does not have the checksum that the header gives. The
    /// number is the payload length plus 20: how far to skip, from the end
    /// of the magic, to get past the frame.
    InvalidChecksum(u64),
}

/// What a decoder returns: the value and the input that is left, a demand
/// for more input, or a refusal.
#[derive(Debug, Clone, PartialEq, Eq)]
pub enum ParseResult<'a, T> {
    Done(&'a [u8], T),
    Incomplete(Needed),
    Error(WireError),
}

/// What a decoder returns, as mathematics.
pub enum Parsed<V> {
    Done(Seq<u8>, V),
    Incomplete(Needed),
    Error(WireError),
}

impl<'a, T: View> View for ParseResult<'a, T> {
    type V = Parsed<T::V>;

    open spec fn view(&self) -> Parsed<T::V> {
        match self {
            ParseResult::Done(rest, value) => Parsed::Done(rest@, value@),
            ParseResult::Incomplete(needed) => Parsed::Incomplete(*needed),
            ParseResult::Error(e) => Parsed::Error(*e),
        }
    }
}

impl<'a, T> ParseResult<'a, T> {
    /// Whether a value was decoded.
    pub fn is_done(&self) -> (r: bool)
        ensures
            r == (self is Done),
    {
        match self {
            ParseResult::Done(_, _) => true,
            _ => false,
        }
    }

    /// The input that is left and the decoded value.
    pub fn unwrap(self) -> (r: (&'a [u8], T))
        requires
            self is Done,
        ensures
            self == ParseResult::Done(r.0, r.1),
    {
        match self {
            ParseResult::Done(rest, value) => (rest, value),
            _ => vstd::pervasive::unreached(),
        }
    }
}

/// What a payload decoder hands back once it has read from offset 0 of
/// `input`: the value and the input after it, or how many bytes are missing.
pub open spec fn settled<V>(input: Seq<u8>, m: Scan<V>) -> Parsed<V> {
    match m {
        Scan::Item { value, next } => Parsed::Done(input.skip(next), value),
        Scan::Short { missing } => Parsed::Incomplete(Needed::Size(missing as u64)),
    }
}

/// Turns the outcome of a read from offset 0 into a decoder's result.
fn settle<'a, T: View>(
    input: &'a [u8],
    r: Result<(T, usize), u64>,
    Ghost(m): Ghost<Scan<T::V>>,
) -> (out: ParseResult<'a, T>)
    requires
        reads(r, m),
        r matches Ok(got) ==> got.1 <= input@.len(),
    ensures
        out@ == settled(input@, m),
{
    match r {
        Ok((value, next)) => ParseResult::Done(slice_subrange(input, next, input.len()), value),
        Err(missing) => ParseResult::Incomplete(Needed::Size(missing)),
    }
}

/// The network that a frame belongs to.
#[derive(Debug, Clone, Copy, PartialEq, Eq, Structural)]
pub enum Network {
    Main,
    Test,
}

impl View for Network {
    type V = Network;

    open spec fn view(&self) -> Network {
        *self
    }
}

/// The first four bytes of a slice.
#[inline(always)]
pub fn slice2tuple(s: &[u8]) -> (r: (u8, u8, u8, u8))
    requires
        s@.len() >= 4,
    ensures
        r == (s@[0], s@[1], s@[2], s@[3]),
{
    (s[0], s[1], s[2], s[3])
}

/// The network whose magic tag the four bytes at `i` are, if they are one:
/// `F9 BE B4 D9` for the main network, `FA BF B5 DA` for the test network.
pub open spec fn magic_at(s: Seq<u8>, i: int) -> Option<Network> {
    if i < 0 || i + 4 > s.len() {
        None
    } else if s[i] == 0xF9 && s[i + 1] == 0xBE && s[i + 2] == 0xB4 && s[i + 3] == 0xD9 {
        Some(Network::Main)
    } else if s[i] == 0xFA && s[i + 1] == 0xBF && s[i + 2] == 0xB5 && s[i + 3] == 0xDA {
        Some(Network::Test)
    } else {
        None
    }
}

/// The first magic tag at or after `from`: the offset just past it, and its
/// network.
pub open spec fn first_magic(s: Seq<u8>, from: int) -> Option<(int, Network)>
    decreases s.len() - from,
{
    if from < 0 || from + 4 > s.len() {
        None
    } else {
        match magic_at(s, from) {
            Some(network) => Some((from + 4, network)),
            None => first_magic(s, from + 1),
        }
    }
}

/// Finds the first magic tag. Returns the offset just past it, and its
/// network.
#[inline]
pub fn search_header(data: &[u8]) -> (r: Option<(usize, Network)>)
    ensures
        match first_magic(data@, 0) {
            Some((end, network)) => r == Some((end as usize, network)) && 4 <= end <= data@.len(),
            None => r is None,
        },
{
    let mut i: usize = 0;
    while data.len() - i >= 4
        invariant
            i <= data@.len(),
            first_magic(data@, 0) == first_magic(data@, i as int),
        decreases data@.len() - i,
    {
        let window = slice_subrange(data, i, i + 4);
        let tag = slice2tuple(window);
        if tag.0 == 0xF9 && tag.1 == 0xBE && tag.2 == 0xB4 && tag.3 == 0xD9 {
            return Some((i + 4, Network::Main));
        }
        if tag.0 == 0xFA && tag.1 == 0xBF && tag.2 == 0xB5 && tag.3 == 0xDA {
            return Some((i + 4, Network::Test));
        }
        i += 1;
    }
    None
}

/// Skipping to the first magic tag: the input after the tag and the tag's
/// network, or a demand for more input where there is no tag.
pub open spec fn magic_model(s: Seq<u8>) -> Parsed<Network> {
    match first_magic(s, 0) {
        Some((end, network)) => Parsed::Done(s.skip(end), network),
        None => Parsed::Incomplete(Needed::Unknown),
    }
}

/// Skips to the first magic tag. What stands before it is dropped.
#[inline]
pub fn magic<'a>(input: &'a [u8]) -> (r: ParseResult<'a, Network>)
    ensures
        r@ == magic_model(input@),
{
    match search_header(input) {
        Some((i, network)) => ParseResult::Done(slice_subrange(input, i, input.len()), network),
        None => ParseResult::Incomplete(Needed::Unknown),
    }
}

/// The character for a hexadecimal digit, in upper case.
pub open spec fn hex_digit(n: u8) -> char {
    if n < 10 {
        (n + 48) as char
    } else {
        (n + 55) as char
    }
}

/// The bytes in upper-case hexadecimal, two digits each, with one space
/// between a byte and the next.
pub open spec fn hex_string(bytes: Seq<u8>) -> Seq<char>
    decreases bytes.len(),
{
    if bytes.len() == 0 {
        Seq::empty()
    } else if bytes.len() == 1 {
        seq![hex_digit(bytes[0] / 16), hex_digit(bytes[0] % 16)]
    } else {
        hex_string(bytes.drop_last()) + seq![
            ' ',
            hex_digit(bytes.last() / 16),
            hex_digit(bytes.last() % 16),
        ]
    }
}

/// Calls `String::push`. Trusted: the character is appended at the end.
#[verifier::external_body]
fn push_char(s: &mut String, c: char)
    ensures
        final(s)@ == old(s)@.push(c),
{
    s.push(c)
}

/// The character for a hexadecimal digit.
fn hex_char(n: u8) -> (c: char)
    requires
        n < 16,
    ensures
        c == hex_digit(n),
{
    if n < 10 {
        (n + 48) as char
    } else {
        (n + 55) as char
    }
}

/// Renders bytes for a log line: `[0x0f, 0xa0]` gives `0F A0`.
pub fn to_hex_string(bytes: &[u8]) -> (r: String)
    ensures
        r@ == hex_string(bytes@),
{
    let mut out = String::new();
    let mut i: usize = 0;
    while i < bytes.len()
        invariant
            i <= bytes@.len(),
            out@ == hex_string(bytes@.take(i as int)),
        decreases bytes@.len() - i,
    {
        let ghost before = out@;
        if i > 0 {
            push_char(&mut out, ' ');
        }
        push_char(&mut out, hex_char(bytes[i] / 16));
        push_char(&mut out, hex_char(bytes[i] % 16));
        proof {
            let upto = bytes@.take(i + 1);
            assert(upto.drop_last() =~= bytes@.take(i as int));
            assert(upto.last() == bytes@[i as int]);
            if i > 0 {
                assert(out@ =~= before + seq![
                    ' ',
                    hex_digit(bytes@[i as int] / 16),
                    hex_digit(bytes@[i as int] % 16),
                ]);
            } else {
                assert(out@ =~= seq![
                    hex_digit(bytes@[0] / 16),
                    hex_digit(bytes@[0] % 16),
                ]);
            }
        }
        i += 1;
    }
    assert(bytes@.take(i as int) =~= bytes@);
    out
}

/// The length of a command field without the NUL bytes at its end.
pub open spec fn trimmed_len(field: Seq<u8>) -> int
    decreases field.len(),
{
    if field.len() > 0 && field.last() == 0 {
        trimmed_len(field.drop_last())
    } else {
        field.len() as int
    }
}

/// A command field without the NUL bytes at its end.
pub open spec fn command_bytes(field: Seq<u8>) -> Seq<u8> {
    field.take(trimmed_len(field))
}

/// Cuts the NUL bytes off the end of a command field.
pub fn trim_command<'a>(field: &'a [u8]) -> (r: &'a [u8])
    ensures
        r@ == command_bytes(field@),
{
    let mut n: usize = field.len();
    assert(field@.take(n as int) =~= field@);
    while n > 0 && field[n - 1] == 0
        invariant
            n <= field@.len(),
            trimmed_len(field@) == trimmed_len(field@.take(n as int)),
        decreases n,
    {
        assert(field@.take(n as int).drop_last() =~= field@.take(n - 1));
        n -= 1;
    }
    assert(trimmed_len(field@.take(n as int)) == n);
    slice_subrange(field, 0, n)
}

/// Calls `core::str::from_utf8`. Trusted: it succeeds exactly on valid
/// UTF-8, and the string slice it gives has the bytes it was given.
#[verifier::external_body]
fn utf8_str<'a>(bytes: &'a [u8]) -> (r: Option<&'a str>)
    ensures
        r is Some <==> valid_utf8(bytes@),
        r matches Some(text) ==> text.spec_bytes() == bytes@,
{
    match core::str::from_utf8(bytes) {
        Ok(text) => Some(text),
        Err(_) => None,
    }
}

/// What `String::from_utf8_lossy` makes of a byte string: its text, with
/// the Unicode replacement character in place of each invalid sequence.
pub uninterp spec fn utf8_lossy(bytes: Seq<u8>) -> Seq<char>;

/// Calls `String::from_utf8_lossy`. Trusted: the result depends on the bytes
/// alone, and on valid UTF-8 it is the text that the bytes encode.
#[verifier::external_body]
fn lossy_string(bytes: &[u8]) -> (r: String)
    ensures
        r@ == utf8_lossy(bytes@),
        valid_utf8(bytes@) ==> r@ == decode_utf8(bytes@),
{
    String::from_utf8_lossy(bytes).into_owned()
}

/// Whether a command is the one named.
fn is_command(command: &str, name: &str) -> (r: bool)
    ensures
        r == (command@ == name@),
{
    let r = bytes_equal(command.as_bytes(), name.as_bytes());
    proof {
        encode_utf8_decode_utf8(command@);
        encode_utf8_decode_utf8(name@);
    }
    r
}

/// The header of a frame.
#[derive(Debug, Clone, PartialEq, Eq)]
pub struct Header<'a> {
    pub network: Network,
    pub message_type: String,
    pub len: u32,
    pub checksum: &'a [u8],
}

/// What the header of a frame says.
pub struct HeaderView {
    pub network: Network,
    pub message_type: Seq<char>,
    pub len: u32,
    pub checksum: Seq<u8>,
}

impl<'a> View for Header<'a> {
    type V = HeaderView;

    open spec fn view(&self) -> HeaderView {
        HeaderView {
            network: self.network,
            message_type: self.message_type@,
            len: self.len,
            checksum: self.checksum@,
        }
    }
}

/// The twenty bytes after a magic tag: twelve of command, NUL-padded on the
/// right; a `u32` payload length; four of checksum. The command must be
/// valid UTF-8 once its padding is cut off.
pub open spec fn header_after_magic(t: Seq<u8>, network: Network) -> Parsed<HeaderView> {
    if lacks(t, 0, 12) {
        Parsed::Incomplete(Needed::Size(shortfall(t, 0, 12) as u64))
    } else if !valid_utf8(command_bytes(t.subrange(0, 12))) {
        Parsed::Error(WireError::InvalidCommand)
    } else if lacks(t, 12, 4) {
        Parsed::Incomplete(Needed::Size(shortfall(t, 12, 4) as u64))
    } else if lacks(t, 16, 4) {
        Parsed::Incomplete(Needed::Size(shortfall(t, 16, 4) as u64))
    } else {
        Parsed::Done(
            t.skip(20),
            HeaderView {
                network,
                message_type: decode_utf8(command_bytes(t.subrange(0, 12))),
                len: crate::codec::le_u32_at(t, 12),
                checksum: t.subrange(16, 20),
            },
        )
    }
}

/// The header of the first frame in `s`: what stands before the first magic
/// tag is dropped.
pub open spec fn header_model(s: Seq<u8>) -> Parsed<HeaderView> {
    match first_magic(s, 0) {
        Some((end, network)) => header_after_magic(s.skip(end), network),
        None => Parsed::Incomplete(Needed::Unknown),
    }
}

/// Decodes the header of the first frame in the input.
#[inline]
pub fn header<'a>(input: &'a [u8]) -> (r: ParseResult<'a, Header<'a>>)
    ensures
        r@ == header_model(input@),
{
    let (t, network) = match magic(input) {
        ParseResult::Done(t, network) => (t, network),
        ParseResult::Incomplete(needed) => {
            return ParseResult::Incomplete(needed);
        },
        ParseResult::Error(e) => {
            return ParseResult::Error(e);
        },
    };
    let field = match read_bytes(t, 0, 12) {
        Ok((field, _)) => field,
        Err(missing) => {
            return ParseResult::Incomplete(Needed::Size(missing));
        },
    };
    let text = match utf8_str(trim_command(field)) {
        Some(text) => text,
        None => {
            return ParseResult::Error(WireError::InvalidCommand);
        },
    };
    proof {
        encode_utf8_decode_utf8(text@);
    }
    let len = match read_u32_le(t, 12) {
        Ok((len, _)) => len,
        Err(missing) => {
            return ParseResult::Incomplete(Needed::Size(missing));
        },
    };
    let checksum = match read_bytes(t, 16, 4) {
        Ok((checksum, _)) => checksum,
        Err(missing) => {
            return ParseResult::Incomplete(Needed::Size(missing));
        },
    };
    ParseResult::Done(
        slice_subrange(t, 20, t.len()),
        Header { network, message_type: text.to_owned(), len, checksum },
    )
}

/// A frame: its header and its payload.
#[derive(Debug, Clone, PartialEq, Eq)]
pub struct RawMessage<'a> {
    pub network: Network,
    pub message_type: String,
    pub len: u32,
    pub checksum: &'a [u8],
    pub body: &'a [u8],
}

/// What a frame says.
pub struct RawMessageView {
    pub network: Network,
    pub message_type: Seq<char>,
    pub len: u32,
    pub checksum: Seq<u8>,
    pub body: Seq<u8>,
}

impl<'a> View for RawMessage<'a> {
    type V = RawMessageView;

    open spec fn view(&self) -> RawMessageView {
        RawMessageView {
            network: self.network,
            message_type: self.message_type@,
            len: self.len,
            checksum: self.checksum@,
            body: self.body@,
        }
    }
}

impl<'a> RawMessage<'a> {
    /// Whether the payload has the checksum that the header gives: the first
    /// four bytes of its double SHA-256.
    pub fn valid(&self) -> (r: bool)
        ensures
            r == (checksum_of(self.body@) == self.checksum@),
    {
        let check = checksum(self.body);
        bytes_equal(check.as_slice(), self.checksum)
    }
}

/// The first frame in `s`: its header, then as many bytes of payload as the
/// header says. Where fewer are left, what is missing.
pub open spec fn raw_message_model(s: Seq<u8>) -> Parsed<RawMessageView> {
    match header_model(s) {
        Parsed::Done(rest, head) => if lacks(rest, 0, head.len as int) {
            Parsed::Incomplete(Needed::Size(shortfall(rest, 0, head.len as int) as u64))
        } else {
            Parsed::Done(
                rest.skip(head.len as int),
                RawMessageView {
                    network: head.network,
                    message_type: head.message_type,
                    len: head.len,
                    checksum: head.checksum,
                    body: rest.subrange(0, head.len as int),
                },
            )
        },
        Parsed::Incomplete(needed) => Parsed::Incomplete(needed),
        Parsed::Error(e) => Parsed::Error(e),
    }
}

/// Frames the first message in the input. The checksum is not looked at.
#[inline]
pub fn raw_message<'a>(input: &'a [u8]) -> (r: ParseResult<'a, RawMessage<'a>>)
    ensures
        r@ == raw_message_model(input@),
{
    let (rest, head) = match header(input) {
        ParseResult::Done(rest, head) => (rest, head),
        ParseResult::Incomplete(needed) => {
            return ParseResult::Incomplete(needed);
        },
        ParseResult::Error(e) => {
            return ParseResult::Error(e);
        },
    };
    match read_bytes(rest, 0, head.len as u64) {
        Ok((body, next)) => ParseResult::Done(
            slice_subrange(rest, next, rest.len()),
            RawMessage {
                network: head.network,
                message_type: head.message_type,
                len: head.len,
                checksum: head.checksum,
                body,
            },
        ),
        Err(missing) => ParseResult::Incomplete(Needed::Size(missing)),
    }
}

/// The reader of one 32-byte hash, as a value.
pub open spec fn hash_item() -> spec_fn(Seq<u8>, int) -> Scan<Seq<u8>> {
    |s: Seq<u8>, at: int| scan_bytes(s, at, 32)
}

/// Reads one 32-byte hash.
pub fn read_hash(data: &[u8], at: usize) -> (r: Result<([u8; 32], usize), u64>)
    requires
        at <= data@.len(),
    ensures
        reads(r, scan_bytes(data@, at as int, 32)),
        r matches Ok(got) ==> got.1 <= data@.len(),
{
    let (bytes, next) = read_bytes(data, at, 32)?;
    Ok((array_32(bytes), next))
}

/// Reads `count` inventory vectors, one after the other.
pub fn read_inv_vectors(data: &[u8], at: usize, count: u64) -> (r: Result<(Vec<InventoryVector>, usize), u64>)
    requires
        at <= data@.len(),
    ensures
        reads_all(r, repeat_at(inv_vector_item(), data@, at as int, count as nat)),
        r matches Ok(got) ==> got.1 <= data@.len(),
{
    let mut items: Vec<InventoryVector> = Vec::new();
    let mut cur: usize = at;
    let mut k: u64 = 0;
    assert(views(items@) =~= Seq::empty());
    while k < count
        invariant
            k <= count,
            cur <= data@.len(),
            repeat_at(inv_vector_item(), data@, at as int, k as nat) == (Scan::Item {
                value: views(items@),
                next: cur as int,
            }),
        decreases count - k,
    {
        match read_inv_vector(data, cur) {
            Ok((item, next)) => {
                assert(views(items@.push(item)) =~= views(items@).push(item@));
                items.push(item);
                cur = next;
                k += 1;
            },
            Err(missing) => {
                proof {
                    assert(repeat_at(inv_vector_item(), data@, at as int, (k + 1) as nat) is Short);
                    lemma_repeat_short_stays(
                        inv_vector_item(),
                        data@,
                        at as int,
                        (k + 1) as nat,
                        count as nat,
                    );
                }
                return Err(missing);
            },
        }
    }
    Ok((items, cur))
}

/// Reads `count` block headers, one after the other.
pub fn read_block_headers(data: &[u8], at: usize, count: u64) -> (r: Result<(Vec<BlockHeader>, usize), u64>)
    requires
        at <= data@.len(),
    ensures
        reads_all(r, repeat_at(block_header_item(), data@, at as int, count as nat)),
        r matches Ok(got) ==> got.1 <= data@.len(),
{
    let mut items: Vec<BlockHeader> = Vec::new();
    let mut cur: usize = at;
    let mut k: u64 = 0;
    assert(views(items@) =~= Seq::empty());
    while k < count
        invariant
            k <= count,
            cur <= data@.len(),
            repeat_at(block_header_item(), data@, at as int, k as nat) == (Scan::Item {
                value: views(items@),
                next: cur as int,
            }),
        decreases count - k,
    {
        match read_block_header(data, cur) {
            Ok((item, next)) => {
                assert(views(items@.push(item)) =~= views(items@).push(item@));
                items.push(item);
                cur = next;
                k += 1;
            },
            Err(missing) => {
                proof {
                    assert(repeat_at(block_header_item(), data@, at as int, (k + 1) as nat) is Short);
                    lemma_repeat_short_stays(
                        block_header_item(),
                        data@,
                        at as int,
                        (k + 1) as nat,
                        count as nat,
                    );
                }
                return Err(missing);
            },
        }
    }
    Ok((items, cur))
}

/// Reads `count` 32-byte hashes, one after the other.
pub fn read_hashes(data: &[u8], at: usize, count: u64) -> (r: Result<(Vec<[u8; 32]>, usize), u64>)
    requires
        at <= data@.len(),
    ensures
        reads_all(r, repeat_at(hash_item(), data@, at as int, count as nat)),
        r matches Ok(got) ==> got.1 <= data@.len(),
{
    let mut items: Vec<[u8; 32]> = Vec::new();
    let mut cur: usize = at;
    let mut k: u64 = 0;
    assert(views(items@) =~= Seq::empty());
    while k < count
        invariant
            k <= count,
            cur <= data@.len(),
            repeat_at(hash_item(), data@, at as int, k as nat) == (Scan::Item {
                value: views(items@),
                next: cur as int,
            }),
        decreases count - k,
    {
        match read_hash(data, cur) {
            Ok((item, next)) => {
                assert(views(items@.push(item)) =~= views(items@).push(item@));
                items.push(item);
                cur = next;
                k += 1;
            },
            Err(missing) => {
                proof {
                    assert(repeat_at(hash_item(), data@, at as int, (k + 1) as nat) is Short);
                    lemma_repeat_short_stays(
                        hash_item(),
                        data@,
                        at as int,
                        (k + 1) as nat,
                        count as nat,
                    );
                }
                return Err(missing);
            },
        }
    }
    Ok((items, cur))
}

/// Reads `count` addresses, one after the other.
pub fn read_net_addrs(data: &[u8], at: usize, count: u64) -> (r: Result<(Vec<NetAddr>, usize), u64>)
    requires
        at <= data@.len(),
    ensures
        reads_all(r, repeat_at(net_addr_item(), data@, at as int, count as nat)),
        r matches Ok(got) ==> got.1 <= data@.len(),
{
    let mut items: Vec<NetAddr> = Vec::new();
    let mut cur: usize = at;
    let mut k: u64 = 0;
    assert(views(items@) =~= Seq::empty());
    while k < count
        invariant
            k <= count,
            cur <= data@.len(),
            repeat_at(net_addr_item(), data@, at as int, k as nat) == (Scan::Item {
                value: views(items@),
                next: cur as int,
            }),
        decreases count - k,
    {
        match read_net_addr(data, cur) {
            Ok((item, next)) => {
                assert(views(items@.push(item)) =~= views(items@).push(item@));
                items.push(item);
                cur = next;
                k += 1;
            },
            Err(missing) => {
                proof {
                    assert(repeat_at(net_addr_item(), data@, at as int, (k + 1) as nat) is Short);
                    lemma_repeat_short_stays(
                        net_addr_item(),
                        data@,
                        at as int,
                        (k + 1) as nat,
                        count as nat,
                    );
                }
                return Err(missing);
            },
        }
    }
    Ok((items, cur))
}

/// The payload of a peer count: a `u64`.
pub open spec fn bitcrust_peer_count_at(s: Seq<u8>, at: int) -> Scan<MessageView> {
    match scan_u64_le(s, at) {
        Scan::Short { missing } => Scan::Short { missing },
        Scan::Item { value, next } => Scan::Item { value: MessageView::BitcrustPeerCount(value), next },
    }
}

fn read_bitcrust_peer_count(data: &[u8], at: usize) -> (r: Result<(Message, usize), u64>)
    requires
        at <= data@.len(),
    ensures
        reads(r, bitcrust_peer_count_at(data@, at as int)),
        r matches Ok(got) ==> got.1 <= data@.len(),
{
    let (value, next) = read_u64_le(data, at)?;
    Ok((Message::BitcrustPeerCount(value), next))
}

/// Decodes the payload of a peer count: a `u64`.
pub fn bitcrust_peer_count<'a>(input: &'a [u8]) -> (r: ParseResult<'a, Message>)
    ensures
        r@ == settled(input@, bitcrust_peer_count_at(input@, 0)),
{
    settle(input, read_bitcrust_peer_count(input, 0), Ghost(bitcrust_peer_count_at(input@, 0)))
}

/// The payload of a fee filter: a `u64` fee rate.
pub open spec fn feefilter_at(s: Seq<u8>, at: int) -> Scan<MessageView> {
    match scan_u64_le(s, at) {
        Scan::Short { missing } => Scan::Short { missing },
        Scan::Item { value, next } => Scan::Item { value: MessageView::FeeFilter(value), next },
    }
}

fn read_feefilter(data: &[u8], at: usize) -> (r: Result<(Message, usize), u64>)
    requires
        at <= data@.len(),
    ensures
        reads(r, feefilter_at(data@, at as int)),
        r matches Ok(got) ==> got.1 <= data@.len(),
{
    let (value, next) = read_u64_le(data, at)?;
    Ok((Message::FeeFilter(value), next))
}

/// Decodes the payload of a fee filter: a `u64` fee rate.
pub fn feefilter<'a>(input: &'a [u8]) -> (r: ParseResult<'a, Message>)
    ensures
        r@ == settled(input@, feefilter_at(input@, 0)),
{
    settle(input, read_feefilter(input, 0), Ghost(feefilter_at(input@, 0)))
}

/// The payload of a ping: a `u64` nonce.
pub open spec fn ping_at(s: Seq<u8>, at: int) -> Scan<MessageView> {
    match scan_u64_le(s, at) {
        Scan::Short { missing } => Scan::Short { missing },
        Scan::Item { value, next } => Scan::Item { value: MessageView::Ping(value), next },
    }
}

fn read_ping(data: &[u8], at: usize) -> (r: Result<(Message, usize), u64>)
    requires
        at <= data@.len(),
    ensures
        reads(r, ping_at(data@, at as int)),
        r matches Ok(got) ==> got.1 <= data@.len(),
{
    let (value, next) = read_u64_le(data, at)?;
    Ok((Message::Ping(value), next))
}

/// Decodes the payload of a ping: a `u64` nonce.
pub fn ping<'a>(input: &'a [u8]) -> (r: ParseResult<'a, Message>)
    ensures
        r@ == settled(input@, ping_at(input@, 0)),
{
    settle(input, read_ping(input, 0), Ghost(ping_at(input@, 0)))
}

/// The payload of a pong: a `u64` nonce.
pub open spec fn pong_at(s: Seq<u8>, at: int) -> Scan<MessageView> {
    match scan_u64_le(s, at) {
        Scan::Short { missing } => Scan::Short { missing },
        Scan::Item { value, next } => Scan::Item { value: MessageView::Pong(value), next },
    }
}

fn read_pong(data: &[u8], at: usize) -> (r: Result<(Message, usize), u64>)
    requires
        at <= data@.len(),
    ensures
        reads(r, pong_at(data@, at as int)),
        r matches Ok(got) ==> got.1 <= data@.len(),
{
    let (value, next) = read_u64_le(data, at)?;
    Ok((Message::Pong(value), next))
}

/// Decodes the payload of a pong: a `u64` nonce.
pub fn pong<'a>(input: &'a [u8]) -> (r: ParseResult<'a, Message>)
    ensures
        r@ == settled(input@, pong_at(input@, 0)),
{
    settle(input, read_pong(input, 0), Ghost(pong_at(input@, 0)))
}

/// The payload of a signed peer-count request: eight bytes of nonce, then
/// 32 bytes of signature.
pub open spec fn bitcrust_peer_count_request_at(s: Seq<u8>, at: int) -> Scan<MessageView> {
    match scan_bytes(s, at, 8) {
        Scan::Short { missing } => Scan::Short { missing },
        Scan::Item { value: nonce, next: a1 } => match scan_bytes(s, a1, 32) {
            Scan::Short { missing } => Scan::Short { missing },
            Scan::Item { value: signature, next: a2 } => Scan::Item {
                value: MessageView::BitcrustPeerCountRequest(
                    AuthenticatedBitcrustMessageView { nonce, signature },
                ),
                next: a2,
            },
        },
    }
}

fn read_bitcrust_peer_count_request(data: &[u8], at: usize) -> (r: Result<(Message, usize), u64>)
    requires
        at <= data@.len(),
    ensures
        reads(r, bitcrust_peer_count_request_at(data@, at as int)),
        r matches Ok(got) ==> got.1 <= data@.len(),
{
    let (nonce, a1) = read_bytes(data, at, 8)?;
    let (signature, a2) = read_bytes(data, a1, 32)?;
    Ok(
        (
            Message::BitcrustPeerCountRequest(
                AuthenticatedBitcrustMessage::with_signature(signature, nonce),
            ),
            a2,
        ),
    )
}

/// Decodes the payload of a signed peer-count request.
pub fn bitcrust_peer_count_request<'a>(input: &'a [u8]) -> (r: ParseResult<'a, Message>)
    ensures
        r@ == settled(input@, bitcrust_peer_count_request_at(input@, 0)),
{
    settle(input, read_bitcrust_peer_count_request(input, 0), Ghost(bitcrust_peer_count_request_at(input@, 0)))
}

/// The payload of `sendcmpct`: one byte, which means yes where it is 1, and
/// a `u64` version.
pub open spec fn send_compact_at(s: Seq<u8>, at: int) -> Scan<MessageView> {
    match scan_bytes(s, at, 1) {
        Scan::Short { missing } => Scan::Short { missing },
        Scan::Item { value: flag, next: a1 } => match scan_u64_le(s, a1) {
            Scan::Short { missing } => Scan::Short { missing },
            Scan::Item { value: version, next: a2 } => Scan::Item {
                value: MessageView::SendCompact(
                    SendCmpctMessage { send_compact: flag[0] == 1, version },
                ),
                next: a2,
            },
        },
    }
}

fn read_send_compact(data: &[u8], at: usize) -> (r: Result<(Message, usize), u64>)
    requires
        at <= data@.len(),
    ensures
        reads(r, send_compact_at(data@, at as int)),
        r matches Ok(got) ==> got.1 <= data@.len(),
{
    let (flag, a1) = read_bytes(data, at, 1)?;
    let (version, a2) = read_u64_le(data, a1)?;
    Ok((Message::SendCompact(SendCmpctMessage { send_compact: flag[0] == 1, version }), a2))
}

/// Decodes the payload of `sendcmpct`.
pub fn send_compact<'a>(input: &'a [u8]) -> (r: ParseResult<'a, Message>)
    ensures
        r@ == settled(input@, send_compact_at(input@, 0)),
{
    settle(input, read_send_compact(input, 0), Ghost(send_compact_at(input@, 0)))
}

/// A compact-size count, then that many inventory vectors.
pub open spec fn inventory_at(s: Seq<u8>, at: int) -> Scan<Seq<crate::inventory_vector::InventoryVectorView>> {
    match compact_size_at(s, at) {
        Scan::Short { missing } => Scan::Short { missing },
        Scan::Item { value: count, next } => repeat_at(inv_vector_item(), s, next, count as nat),
    }
}

/// The payload of `inv`.
pub open spec fn inv_at(s: Seq<u8>, at: int) -> Scan<MessageView> {
    match inventory_at(s, at) {
        Scan::Short { missing } => Scan::Short { missing },
        Scan::Item { value, next } => Scan::Item { value: MessageView::Inv(value), next },
    }
}

/// The payload of `getdata`.
pub open spec fn getdata_at(s: Seq<u8>, at: int) -> Scan<MessageView> {
    match inventory_at(s, at) {
        Scan::Short { missing } => Scan::Short { missing },
        Scan::Item { value, next } => Scan::Item { value: MessageView::GetData(value), next },
    }
}

fn read_inventory(data: &[u8], at: usize) -> (r: Result<(Vec<InventoryVector>, usize), u64>)
    requires
        at <= data@.len(),
    ensures
        reads_all(r, inventory_at(data@, at as int)),
        r matches Ok(got) ==> got.1 <= data@.len(),
{
    let (count, next) = read_compact_size(data, at)?;
    read_inv_vectors(data, next, count)
}

fn read_inv(data: &[u8], at: usize) -> (r: Result<(Message, usize), u64>)
    requires
        at <= data@.len(),
    ensures
        reads(r, inv_at(data@, at as int)),
        r matches Ok(got) ==> got.1 <= data@.len(),
{
    let (inventory, next) = read_inventory(data, at)?;
    Ok((Message::Inv(InvMessage { inventory }), next))
}

fn read_getdata(data: &[u8], at: usize) -> (r: Result<(Message, usize), u64>)
    requires
        at <= data@.len(),
    ensures
        reads(r, getdata_at(data@, at as int)),
        r matches Ok(got) ==> got.1 <= data@.len(),
{
    let (inventory, next) = read_inventory(data, at)?;
    Ok((Message::GetData(GetdataMessage { inventory }), next))
}

/// Decodes the payload of `inv`.
pub fn inv<'a>(input: &'a [u8]) -> (r: ParseResult<'a, Message>)
    ensures
        r@ == settled(input@, inv_at(input@, 0)),
{
    settle(input, read_inv(input, 0), Ghost(inv_at(input@, 0)))
}

/// Decodes the payload of `getdata`.
pub fn getdata<'a>(input: &'a [u8]) -> (r: ParseResult<'a, Message>)
    ensures
        r@ == settled(input@, getdata_at(input@, 0)),
{
    settle(input, read_getdata(input, 0), Ghost(getdata_at(input@, 0)))
}

/// Decodes one inventory vector.
pub fn inv_vector<'a>(input: &'a [u8]) -> (r: ParseResult<'a, InventoryVector>)
    ensures
        r@ == settled(input@, crate::inventory_vector::inv_vector_at(input@, 0)),
{
    settle(
        input,
        read_inv_vector(input, 0),
        Ghost(crate::inventory_vector::inv_vector_at(input@, 0)),
    )
}

/// Decodes one block header, with the transaction count after it.
pub fn block_header<'a>(input: &'a [u8]) -> (r: ParseResult<'a, BlockHeader>)
    ensures
        r@ == settled(input@, crate::block_header::block_header_at(input@, 0)),
{
    settle(
        input,
        read_block_header(input, 0),
        Ghost(crate::block_header::block_header_at(input@, 0)),
    )
}

/// The payload of `headers`: a compact-size count, then that many block
/// headers.
pub open spec fn headers_at(s: Seq<u8>, at: int) -> Scan<MessageView> {
    match compact_size_at(s, at) {
        Scan::Short { missing } => Scan::Short { missing },
        Scan::Item { value: count, next: a1 } => match repeat_at(
            block_header_item(),
            s,
            a1,
            count as nat,
        ) {
            Scan::Short { missing } => Scan::Short { missing },
            Scan::Item { value: headers, next: a2 } => Scan::Item {
                value: MessageView::Header(HeaderMessageView { count, headers }),
                next: a2,
            },
        },
    }
}

fn read_headers(data: &[u8], at: usize) -> (r: Result<(Message, usize), u64>)
    requires
        at <= data@.len(),
    ensures
        reads(r, headers_at(data@, at as int)),
        r matches Ok(got) ==> got.1 <= data@.len(),
{
    let (count, a1) = read_compact_size(data, at)?;
    let (headers, a2) = read_block_headers(data, a1, count)?;
    Ok((Message::Header(HeaderMessage { count: VarInt::new(count), headers }), a2))
}

/// Decodes the payload of `headers`.
pub fn headers<'a>(input: &'a [u8]) -> (r: ParseResult<'a, Message>)
    ensures
        r@ == settled(input@, headers_at(input@, 0)),
{
    settle(input, read_headers(input, 0), Ghost(headers_at(input@, 0)))
}

/// A block locator: a `u32` version, a compact-size count, that many
/// 32-byte hashes, and the 32-byte hash at which to stop.
pub open spec fn locator_at(s: Seq<u8>, at: int) -> Scan<LocatorView> {
    match scan_u32_le(s, at) {
        Scan::Short { missing } => Scan::Short { missing },
        Scan::Item { value: version, next: a1 } => match compact_size_at(s, a1) {
            Scan::Short { missing } => Scan::Short { missing },
            Scan::Item { value: count, next: a2 } => match repeat_at(
                hash_item(),
                s,
                a2,
                count as nat,
            ) {
                Scan::Short { missing } => Scan::Short { missing },
                Scan::Item { value: locator_hashes, next: a3 } => match scan_bytes(s, a3, 32) {
                    Scan::Short { missing } => Scan::Short { missing },
                    Scan::Item { value: hash_stop, next: a4 } => Scan::Item {
                        value: LocatorView { version, locator_hashes, hash_stop },
                        next: a4,
                    },
                },
            },
        },
    }
}

/// The payload of `getheaders`.
pub open spec fn getheaders_at(s: Seq<u8>, at: int) -> Scan<MessageView> {
    match locator_at(s, at) {
        Scan::Short { missing } => Scan::Short { missing },
        Scan::Item { value, next } => Scan::Item { value: MessageView::GetHeaders(value), next },
    }
}

/// The payload of `getblocks`.
pub open spec fn getblocks_at(s: Seq<u8>, at: int) -> Scan<MessageView> {
    match locator_at(s, at) {
        Scan::Short { missing } => Scan::Short { missing },
        Scan::Item { value, next } => Scan::Item { value: MessageView::GetBlocks(value), next },
    }
}

fn read_getheaders(data: &[u8], at: usize) -> (r: Result<(Message, usize), u64>)
    requires
        at <= data@.len(),
    ensures
        reads(r, getheaders_at(data@, at as int)),
        r matches Ok(got) ==> got.1 <= data@.len(),
{
    let (version, a1) = read_u32_le(data, at)?;
    let (count, a2) = read_compact_size(data, a1)?;
    let (locator_hashes, a3) = read_hashes(data, a2, count)?;
    let (hash_stop, a4) = read_hash(data, a3)?;
    Ok((Message::GetHeaders(GetheadersMessage { version, locator_hashes, hash_stop }), a4))
}

fn read_getblocks(data: &[u8], at: usize) -> (r: Result<(Message, usize), u64>)
    requires
        at <= data@.len(),
    ensures
        reads(r, getblocks_at(data@, at as int)),
        r matches Ok(got) ==> got.1 <= data@.len(),
{
    let (version, a1) = read_u32_le(data, at)?;
    let (count, a2) = read_compact_size(data, a1)?;
    let (locator_hashes, a3) = read_hashes(data, a2, count)?;
    let (hash_stop, a4) = read_hash(data, a3)?;
    Ok((Message::GetBlocks(GetblocksMessage { version, locator_hashes, hash_stop }), a4))
}

/// Decodes the payload of `getheaders`.
pub fn getheaders<'a>(input: &'a [u8]) -> (r: ParseResult<'a, Message>)
    ensures
        r@ == settled(input@, getheaders_at(input@, 0)),
{
    settle(input, read_getheaders(input, 0), Ghost(getheaders_at(input@, 0)))
}

/// Decodes the payload of `getblocks`.
pub fn getblocks<'a>(input: &'a [u8]) -> (r: ParseResult<'a, Message>)
    ensures
        r@ == settled(input@, getblocks_at(input@, 0)),
{
    settle(input, read_getblocks(input, 0), Ghost(getblocks_at(input@, 0)))
}

/// A string on the wire: a compact-size length, then that many bytes, read
/// as UTF-8 with the replacement character for what is not.
pub open spec fn variable_str_at(s: Seq<u8>, at: int) -> Scan<Seq<char>> {
    match crate::codec::compact_bytes_at(s, at) {
        Scan::Short { missing } => Scan::Short { missing },
        Scan::Item { value, next } => Scan::Item { value: utf8_lossy(value), next },
    }
}

fn read_variable_str(data: &[u8], at: usize) -> (r: Result<(String, usize), u64>)
    requires
        at <= data@.len(),
    ensures
        reads(r, variable_str_at(data@, at as int)),
        r matches Ok(got) ==> got.1 <= data@.len(),
        r matches Ok(got) ==> (crate::codec::compact_bytes_at(data@, at as int) matches Scan::Item {
            value,
            next,
        } && (valid_utf8(value) ==> got.0@ == decode_utf8(value))),
{
    let (bytes, next) = crate::codec::read_compact_bytes(data, at)?;
    Ok((lossy_string(bytes), next))
}

/// Decodes a length-prefixed string. Bytes that are valid UTF-8 give the
/// text that they encode.
pub fn variable_str<'a>(input: &'a [u8]) -> (r: ParseResult<'a, String>)
    ensures
        r@ == settled(input@, variable_str_at(input@, 0)),
        r matches ParseResult::Done(rest, text) ==> (crate::codec::compact_bytes_at(input@, 0)
            matches Scan::Item { value, next } && (valid_utf8(value) ==> text@ == decode_utf8(
            value,
        ))),
{
    settle(input, read_variable_str(input, 0), Ghost(variable_str_at(input@, 0)))
}

/// Decodes a compact size.
pub fn compact_size<'a>(input: &'a [u8]) -> (r: ParseResult<'a, u64>)
    ensures
        r@ == settled(input@, compact_size_at(input@, 0)),
{
    settle(input, read_compact_size(input, 0), Ghost(compact_size_at(input@, 0)))
}

/// Decodes a 128-bit address.
pub fn ipv6<'a>(input: &'a [u8]) -> (r: ParseResult<'a, Ipv6Address>)
    ensures
        r@ == settled(input@, ipv6_at(input@, 0)),
{
    settle(input, read_ipv6(input, 0), Ghost(ipv6_at(input@, 0)))
}

/// Decodes an address as it stands in a `version` message, without a time.
pub fn version_net_addr<'a>(input: &'a [u8]) -> (r: ParseResult<'a, NetAddr>)
    ensures
        r@ == settled(input@, version_net_addr_at(input@, 0)),
{
    settle(input, read_version_net_addr(input, 0), Ghost(version_net_addr_at(input@, 0)))
}

/// Decodes an address as it stands in an `addr` message, with its time.
pub fn net_addr<'a>(input: &'a [u8]) -> (r: ParseResult<'a, NetAddr>)
    ensures
        r@ == settled(input@, net_addr_at(input@, 0)),
{
    settle(input, read_net_addr(input, 0), Ghost(net_addr_at(input@, 0)))
}

/// The payload of `addr`: a compact-size count, then that many addresses.
pub open spec fn addr_at(s: Seq<u8>, at: int) -> Scan<MessageView> {
    match compact_size_at(s, at) {
        Scan::Short { missing } => Scan::Short { missing },
        Scan::Item { value: count, next: a1 } => match repeat_at(
            net_addr_item(),
            s,
            a1,
            count as nat,
        ) {
            Scan::Short { missing } => Scan::Short { missing },
            Scan::Item { value, next } => Scan::Item { value: MessageView::Addr(value), next },
        },
    }
}

fn read_addr(data: &[u8], at: usize) -> (r: Result<(Message, usize), u64>)
    requires
        at <= data@.len(),
    ensures
        reads(r, addr_at(data@, at as int)),
        r matches Ok(got) ==> got.1 <= data@.len(),
{
    let (count, a1) = read_compact_size(data, at)?;
    let (addrs, a2) = read_net_addrs(data, a1, count)?;
    Ok((Message::Addr(AddrMessage { addrs }), a2))
}

/// Decodes the payload of `addr`.
pub fn addr<'a>(input: &'a [u8]) -> (r: ParseResult<'a, Message>)
    ensures
        r@ == settled(input@, addr_at(input@, 0)),
{
    settle(input, read_addr(input, 0), Ghost(addr_at(input@, 0)))
}

/// The relay flag that closes a `version` payload: one byte, which means
/// yes where it is 1, from protocol version 70001 on; before that there is
/// no such byte and the flag is off.
pub open spec fn relay_at(s: Seq<u8>, at: int, version: i32) -> Scan<bool> {
    if version >= 70001 {
        match scan_bytes(s, at, 1) {
            Scan::Short { missing } => Scan::Short { missing },
            Scan::Item { value, next } => Scan::Item { value: value[0] == 1, next },
        }
    } else {
        Scan::Item { value: false, next: at }
    }
}

/// The second half of a `version` payload: nonce, user agent, start height
/// and relay flag.
pub open spec fn version_tail_at(
    s: Seq<u8>,
    at: int,
    version: i32,
    services: u64,
    timestamp: i64,
    addr_recv: NetAddr,
    addr_send: NetAddr,
) -> Scan<MessageView> {
    match scan_u64_le(s, at) {
        Scan::Short { missing } => Scan::Short { missing },
        Scan::Item { value: nonce, next: a1 } => match variable_str_at(s, a1) {
            Scan::Short { missing } => Scan::Short { missing },
            Scan::Item { value: user_agent, next: a2 } => match scan_i32_le(s, a2) {
                Scan::Short { missing } => Scan::Short { missing },
                Scan::Item { value: start_height, next: a3 } => match relay_at(s, a3, version) {
                    Scan::Short { missing } => Scan::Short { missing },
                    Scan::Item { value: relay, next: a4 } => Scan::Item {
                        value: MessageView::Version(
                            VersionMessageView {
                                version,
                                services: Services { bits: services },
                                timestamp,
                                addr_recv,
                                addr_send,
                                nonce,
                                user_agent,
                                start_height,
                                relay,
                            },
                        ),
                        next: a4,
                    },
                },
            },
        },
    }
}

/// The payload of `version`: protocol version, services, timestamp, the
/// receiver's and the sender's address without times, then nonce, user
/// agent, start height and relay flag.
pub open spec fn version_at(s: Seq<u8>, at: int) -> Scan<MessageView> {
    match scan_i32_le(s, at) {
        Scan::Short { missing } => Scan::Short { missing },
        Scan::Item { value: version, next: a1 } => match scan_u64_le(s, a1) {
            Scan::Short { missing } => Scan::Short { missing },
            Scan::Item { value: services, next: a2 } => match scan_i64_le(s, a2) {
                Scan::Short { missing } => Scan::Short { missing },
                Scan::Item { value: timestamp, next: a3 } => match version_net_addr_at(s, a3) {
                    Scan::Short { missing } => Scan::Short { missing },
                    Scan::Item { value: addr_recv, next: a4 } => match version_net_addr_at(s, a4) {
                        Scan::Short { missing } => Scan::Short { missing },
                        Scan::Item { value: addr_send, next: a5 } => version_tail_at(
                            s,
                            a5,
                            version,
                            services,
                            timestamp,
                            addr_recv,
                            addr_send,
                        ),
                    },
                },
            },
        },
    }
}

fn read_relay(data: &[u8], at: usize, version: i32) -> (r: Result<(bool, usize), u64>)
    requires
        at <= data@.len(),
    ensures
        reads(r, relay_at(data@, at as int, version)),
        r matches Ok(got) ==> got.1 <= data@.len(),
{
    if version >= 70001 {
        let (flag, next) = read_bytes(data, at, 1)?;
        Ok((flag[0] == 1, next))
    } else {
        Ok((false, at))
    }
}

fn read_version(data: &[u8], at: usize) -> (r: Result<(Message, usize), u64>)
    requires
        at <= data@.len(),
    ensures
        reads(r, version_at(data@, at as int)),
        r matches Ok(got) ==> got.1 <= data@.len(),
{
    let (version, a1) = read_i32_le(data, at)?;
    let (services, a2) = read_u64_le(data, a1)?;
    let (timestamp, a3) = read_i64_le(data, a2)?;
    let (addr_recv, a4) = read_version_net_addr(data, a3)?;
    let (addr_send, a5) = read_version_net_addr(data, a4)?;
    let (nonce, a6) = read_u64_le(data, a5)?;
    let (user_agent, a7) = read_variable_str(data, a6)?;
    let (start_height, a8) = read_i32_le(data, a7)?;
    let (relay, a9) = read_relay(data, a8, version)?;
    Ok(
        (
            Message::Version(
                VersionMessage {
                    version,
                    services: Services::from(services),
                    timestamp,
                    addr_recv,
                    addr_send,
                    nonce,
                    user_agent,
                    start_height,
                    relay,
                },
            ),
            a9,
        ),
    )
}

/// Decodes the payload of `version`.
pub fn version<'a>(input: &'a [u8]) -> (r: ParseResult<'a, Message>)
    ensures
        r@ == settled(input@, version_at(input@, 0)),
{
    settle(input, read_version(input, 0), Ghost(version_at(input@, 0)))
}

/// What a payload decoder's reading of a payload means for the frame: the
/// decoded value, with the input after the frame as what is left, or how many
/// bytes the payload is short of. Bytes of the payload that the decoder did
/// not need are passed over.
pub open spec fn framed<V>(rest: Seq<u8>, m: Scan<V>) -> Parsed<V> {
    match m {
        Scan::Item { value, next } => Parsed::Done(rest, value),
        Scan::Short { missing } => Parsed::Incomplete(Needed::Size(missing as u64)),
    }
}

/// Turns the outcome of reading a payload into the result for its frame.
fn frame_result<'a, T: View>(
    rest: &'a [u8],
    r: Result<(T, usize), u64>,
    Ghost(m): Ghost<Scan<T::V>>,
) -> (out: ParseResult<'a, T>)
    requires
        reads(r, m),
    ensures
        out@ == framed(rest@, m),
{
    match r {
        Ok((value, _)) => ParseResult::Done(rest, value),
        Err(missing) => ParseResult::Incomplete(Needed::Size(missing)),
    }
}

/// What a checked frame decodes to, by its command. `rest` is the input
/// after the frame, and it is what is handed back as left over, whatever
/// the command. A payload decoder reads the payload from its first byte. An
/// unknown command is kept with its payload as they stand.
pub open spec fn dispatch(raw: RawMessageView, rest: Seq<u8>) -> Parsed<MessageView> {
    let command = raw.message_type;
    if command == "version"@ {
        framed(rest, version_at(raw.body, 0))
    } else if command == "verack"@ {
        Parsed::Done(rest, MessageView::Verack)
    } else if command == "sendheaders"@ {
        Parsed::Done(rest, MessageView::SendHeaders)
    } else if command == "getdata"@ {
        framed(rest, getdata_at(raw.body, 0))
    } else if command == "getblocks"@ {
        framed(rest, getblocks_at(raw.body, 0))
    } else if command == "getheaders"@ {
        framed(rest, getheaders_at(raw.body, 0))
    } else if command == "sendcmpct"@ {
        framed(rest, send_compact_at(raw.body, 0))
    } else if command == "feefilter"@ {
        framed(rest, feefilter_at(raw.body, 0))
    } else if command == "ping"@ {
        framed(rest, ping_at(raw.body, 0))
    } else if command == "pong"@ {
        framed(rest, pong_at(raw.body, 0))
    } else if command == "addr"@ {
        framed(rest, addr_at(raw.body, 0))
    } else if command == "headers"@ {
        framed(rest, headers_at(raw.body, 0))
    } else if command == "inv"@ {
        framed(rest, inv_at(raw.body, 0))
    } else if command == "bcr_pcr"@ {
        framed(rest, bitcrust_peer_count_request_at(raw.body, 0))
    } else if command == "bcr_pc"@ {
        framed(rest, bitcrust_peer_count_at(raw.body, 0))
    } else {
        Parsed::Done(rest, MessageView::Unparsed(command, raw.body))
    }
}

/// The first message in `s`: the first frame, refused where its payload
/// does not have the checksum of its header, and else decoded by its
/// command.
pub open spec fn message_model(s: Seq<u8>) -> Parsed<MessageView> {
    match raw_message_model(s) {
        Parsed::Done(rest, raw) => if checksum_of(raw.body) != raw.checksum {
            Parsed::Error(WireError::InvalidChecksum((raw.len + 20) as u64))
        } else {
            dispatch(raw, rest)
        },
        Parsed::Incomplete(needed) => Parsed::Incomplete(needed),
        Parsed::Error(e) => Parsed::Error(e),
    }
}

/// Decodes the first message in the input, and hands back the input after
/// its frame. `name` names the peer that the input came from; it has no
/// part in the result.
pub fn message<'a>(i: &'a [u8], name: &String) -> (r: ParseResult<'a, Message>)
    ensures
        r@ == message_model(i@),
{
    let (rest, raw) = match raw_message(i) {
        ParseResult::Done(rest, raw) => (rest, raw),
        ParseResult::Incomplete(needed) => {
            return ParseResult::Incomplete(needed);
        },
        ParseResult::Error(e) => {
            return ParseResult::Error(e);
        },
    };
    if !raw.valid() {
        return ParseResult::Error(WireError::InvalidChecksum(raw.len as u64 + 20));
    }
    let command = raw.message_type.as_str();
    if is_command(command, "version") {
        frame_result(rest, read_version(raw.body, 0), Ghost(version_at(raw.body@, 0)))
    } else if is_command(command, "verack") {
        ParseResult::Done(rest, Message::Verack)
    } else if is_command(command, "sendheaders") {
        ParseResult::Done(rest, Message::SendHeaders)
    } else if is_command(command, "getdata") {
        frame_result(rest, read_getdata(raw.body, 0), Ghost(getdata_at(raw.body@, 0)))
    } else if is_command(command, "getblocks") {
        frame_result(rest, read_getblocks(raw.body, 0), Ghost(getblocks_at(raw.body@, 0)))
    } else if is_command(command, "getheaders") {
        frame_result(rest, read_getheaders(raw.body, 0), Ghost(getheaders_at(raw.body@, 0)))
    } else if is_command(command, "sendcmpct") {
        frame_result(rest, read_send_compact(raw.body, 0), Ghost(send_compact_at(raw.body@, 0)))
    } else if is_command(command, "feefilter") {
        frame_result(rest, read_feefilter(raw.body, 0), Ghost(feefilter_at(raw.body@, 0)))
    } else if is_command(command, "ping") {
        frame_result(rest, read_ping(raw.body, 0), Ghost(ping_at(raw.body@, 0)))
    } else if is_command(command, "pong") {
        frame_result(rest, read_pong(raw.body, 0), Ghost(pong_at(raw.body@, 0)))
    } else if is_command(command, "addr") {
        frame_result(rest, read_addr(raw.body, 0), Ghost(addr_at(raw.body@, 0)))
    } else if is_command(command, "headers") {
        frame_result(rest, read_headers(raw.body, 0), Ghost(headers_at(raw.body@, 0)))
    } else if is_command(command, "inv") {
        frame_result(rest, read_inv(raw.body, 0), Ghost(inv_at(raw.body@, 0)))
    } else if is_command(command, "bcr_pcr") {
        frame_result(
            rest,
            read_bitcrust_peer_count_request(raw.body, 0),
            Ghost(bitcrust_peer_count_request_at(raw.body@, 0)),
        )
    } else if is_command(command, "bcr_pc") {
        frame_result(
            rest,
            read_bitcrust_peer_count(raw.body, 0),
            Ghost(bitcrust_peer_count_at(raw.body@, 0)),
        )
    } else {
        ParseResult::Done(rest, Message::Unparsed(raw.message_type, slice_to_vec(raw.body)))
    }
}

/// Where no magic tag begins before `from`, the search from the start finds
/// what the search from `from` finds.
pub proof fn lemma_first_magic_skips(s: Seq<u8>, from: int)
    requires
        0 <= from,
        forall|i: int| 0 <= i < from ==> magic_at(s, i) is None,
    ensures
        first_magic(s, 0) == first_magic(s, from),
    decreases from,
{
    if from > 0 {
        lemma_first_magic_skips(s, from - 1);
    }
}

/// The tag that a search finds ends inside the bytes, at least four
/// bytes from where the search began.
pub proof fn lemma_first_magic_inside(s: Seq<u8>, from: int)
    requires
        0 <= from,
        first_magic(s, from) is Some,
    ensures
        from + 4 <= first_magic(s, from).unwrap().0 <= s.len(),
    decreases s.len() - from,
{
    if magic_at(s, from) is None {
        lemma_first_magic_inside(s, from + 1);
    }
}

/// A search in `input` from `from` finds the tag that a search in
/// `noise + input` finds from as far behind the noise.
pub proof fn lemma_first_magic_shifts(noise: Seq<u8>, input: Seq<u8>, from: int)
    requires
        0 <= from,
    ensures
        first_magic(noise + input, noise.len() + from) == match first_magic(input, from) {
            Some((end, network)) => Some((noise.len() + end, network)),
            None => None,
        },
    decreases input.len() - from,
{
    let s = noise + input;
    if from + 4 <= input.len() {
        assert(s[noise.len() + from] == input[from]);
        assert(s[noise.len() + from + 1] == input[from + 1]);
        assert(s[noise.len() + from + 2] == input[from + 2]);
        assert(s[noise.len() + from + 3] == input[from + 3]);
        if magic_at(input, from) is None {
            lemma_first_magic_shifts(noise, input, from + 1);
        }
    }
}

/// Resynchronization: bytes in front of the input in which no magic tag
/// begins, alone or together with the first bytes of the input, leave every
/// result of decoding as it is without them.
pub proof fn lemma_resynchronization(noise: Seq<u8>, input: Seq<u8>)
    requires
        forall|i: int| 0 <= i < noise.len() ==> magic_at(noise + input, i) is None,
    ensures
        magic_model(noise + input) == magic_model(input),
        header_model(noise + input) == header_model(input),
        raw_message_model(noise + input) == raw_message_model(input),
        message_model(noise + input) == message_model(input),
{
    let s = noise + input;
    lemma_first_magic_skips(s, noise.len() as int);
    lemma_first_magic_shifts(noise, input, 0);
    match first_magic(input, 0) {
        Some((end, network)) => {
            lemma_first_magic_inside(input, 0);
            assert(s.skip(noise.len() + end) =~= input.skip(end));
        },
        None => {},
    }
}

/// A frame whose payload does not have the checksum that its header gives
/// is refused, with the payload length plus 20 as the number to skip.
pub proof fn lemma_checksum_mismatch_refused(s: Seq<u8>)
    requires
        raw_message_model(s) matches Parsed::Done(rest, raw) && checksum_of(raw.body)
            != raw.checksum,
    ensures
        raw_message_model(s) matches Parsed::Done(rest, raw) && message_model(s) == Parsed::<
            MessageView,
        >::Error(WireError::InvalidChecksum((raw.len + 20) as u64)),
{
}

/// Where a message is decoded, what is handed back as left over is the
/// input after its frame: decoding can go on from there with the next frame.
pub proof fn lemma_message_leaves_what_follows_the_frame(s: Seq<u8>)
    requires
        message_model(s) is Done,
    ensures
        raw_message_model(s) matches Parsed::Done(rest, raw) && message_model(s)->Done_0 == rest,
{
}

} // verus!
