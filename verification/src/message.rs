//! The messages of the peer-to-peer protocol, as decoded values.

pub mod getdata_message;
pub mod inv_message;

pub use self::getdata_message::GetdataMessage;
pub use self::inv_message::InvMessage;

use crate::block_header::{BlockHeader, BlockHeaderView, VarInt};
use crate::codec::{array_32, array_8, views};
use crate::inventory_vector::InventoryVectorView;
use crate::net_addr::{NetAddr, Services};
use vstd::prelude::*;

verus! {

/// The first message of a connection: what the sender is and sees.
#[derive(Debug, Clone, PartialEq, Eq)]
pub struct VersionMessage {
    pub version: i32,
    pub services: Services,
    pub timestamp: i64,
    pub addr_recv: NetAddr,
    pub addr_send: NetAddr,
    pub nonce: u64,
    pub user_agent: String,
    pub start_height: i32,
    pub relay: bool,
}

/// What a `version` message says.
pub struct VersionMessageView {
    pub version: i32,
    pub services: Services,
    pub timestamp: i64,
    pub addr_recv: NetAddr,
    pub addr_send: NetAddr,
    pub nonce: u64,
    pub user_agent: Seq<char>,
    pub start_height: i32,
    pub relay: bool,
}

impl View for VersionMessage {
    type V = VersionMessageView;

    open spec fn view(&self) -> VersionMessageView {
        VersionMessageView {
            version: self.version,
            services: self.services,
            timestamp: self.timestamp,
            addr_recv: self.addr_recv,
            addr_send: self.addr_send,
            nonce: self.nonce,
            user_agent: self.user_agent@,
            start_height: self.start_height,
            relay: self.relay,
        }
    }
}

/// A request for compact blocks, or a refusal of them.
#[derive(Debug, Clone, Copy, PartialEq, Eq)]
pub struct SendCmpctMessage {
    pub send_compact: bool,
    pub version: u64,
}

impl View for SendCmpctMessage {
    type V = SendCmpctMessage;

    open spec fn view(&self) -> SendCmpctMessage {
        *self
    }
}

/// What a block locator says: a protocol version, the hashes of blocks the
/// sender has, and the hash at which to stop.
pub struct LocatorView {
    pub version: u32,
    pub locator_hashes: Seq<Seq<u8>>,
    pub hash_stop: Seq<u8>,
}

/// A request for blocks after the newest locator hash that the receiver
/// knows.
#[derive(Debug, Clone, PartialEq, Eq)]
pub struct GetblocksMessage {
    pub version: u32,
    pub locator_hashes: Vec<[u8; 32]>,
    pub hash_stop: [u8; 32],
}

impl View for GetblocksMessage {
    type V = LocatorView;

    open spec fn view(&self) -> LocatorView {
        LocatorView {
            version: self.version,
            locator_hashes: views(self.locator_hashes@),
            hash_stop: self.hash_stop@,
        }
    }
}

/// A request for headers after the newest locator hash that the receiver
/// knows.
#[derive(Debug, Clone, PartialEq, Eq)]
pub struct GetheadersMessage {
    pub version: u32,
    pub locator_hashes: Vec<[u8; 32]>,
    pub hash_stop: [u8; 32],
}

impl View for GetheadersMessage {
    type V = LocatorView;

    open spec fn view(&self) -> LocatorView {
        LocatorView {
            version: self.version,
            locator_hashes: views(self.locator_hashes@),
            hash_stop: self.hash_stop@,
        }
    }
}

/// Block headers, with the count that announced them.
#[derive(Debug, Clone, PartialEq, Eq)]
pub struct HeaderMessage {
    pub count: VarInt,
    pub headers: Vec<BlockHeader>,
}

/// What a `headers` message says.
pub struct HeaderMessageView {
    pub count: u64,
    pub headers: Seq<BlockHeaderView>,
}

impl View for HeaderMessage {
    type V = HeaderMessageView;

    open spec fn view(&self) -> HeaderMessageView {
        HeaderMessageView { count: self.count.value, headers: views(self.headers@) }
    }
}

/// Addresses of peers.
#[derive(Debug, Clone, PartialEq, Eq)]
pub struct AddrMessage {
    pub addrs: Vec<NetAddr>,
}

impl View for AddrMessage {
    type V = Seq<NetAddr>;

    open spec fn view(&self) -> Seq<NetAddr> {
        views(self.addrs@)
    }
}

/// A signed request for the number of peers: eight bytes of nonce and 32
/// bytes of signature.
#[derive(Debug, Clone, Copy, PartialEq, Eq)]
pub struct AuthenticatedBitcrustMessage {
    pub nonce: [u8; 8],
    pub signature: [u8; 32],
}

/// What a signed request says.
pub struct AuthenticatedBitcrustMessageView {
    pub nonce: Seq<u8>,
    pub signature: Seq<u8>,
}

impl View for AuthenticatedBitcrustMessage {
    type V = AuthenticatedBitcrustMessageView;

    open spec fn view(&self) -> AuthenticatedBitcrustMessageView {
        AuthenticatedBitcrustMessageView { nonce: self.nonce@, signature: self.signature@ }
    }
}

impl AuthenticatedBitcrustMessage {
    /// A request with the given signature and nonce.
    pub fn with_signature(signature: &[u8], nonce: &[u8]) -> (r: AuthenticatedBitcrustMessage)
        requires
            signature@.len() == 32,
            nonce@.len() == 8,
        ensures
            r@ == (AuthenticatedBitcrustMessageView { nonce: nonce@, signature: signature@ }),
    {
        AuthenticatedBitcrustMessage { nonce: array_8(nonce), signature: array_32(signature) }
    }
}

/// A decoded message: one variant for each command that is understood, and
/// one that keeps the command and payload of any other.
#[derive(Debug, Clone, PartialEq, Eq)]
pub enum Message {
    Version(VersionMessage),
    Verack,
    SendHeaders,
    GetData(GetdataMessage),
    GetBlocks(GetblocksMessage),
    GetHeaders(GetheadersMessage),
    SendCompact(SendCmpctMessage),
    FeeFilter(u64),
    Ping(u64),
    Pong(u64),
    Addr(AddrMessage),
    Header(HeaderMessage),
    Inv(InvMessage),
    BitcrustPeerCountRequest(AuthenticatedBitcrustMessage),
    BitcrustPeerCount(u64),
    Unparsed(String, Vec<u8>),
}

/// What a decoded message says.
pub enum MessageView {
    Version(VersionMessageView),
    Verack,
    SendHeaders,
    GetData(Seq<InventoryVectorView>),
    GetBlocks(LocatorView),
    GetHeaders(LocatorView),
    SendCompact(SendCmpctMessage),
    FeeFilter(u64),
    Ping(u64),
    Pong(u64),
    Addr(Seq<NetAddr>),
    Header(HeaderMessageView),
    Inv(Seq<InventoryVectorView>),
    BitcrustPeerCountRequest(AuthenticatedBitcrustMessageView),
    BitcrustPeerCount(u64),
    Unparsed(Seq<char>, Seq<u8>),
}

impl View for Message {
    type V = MessageView;

    open spec fn view(&self) -> MessageView {
        match self {
            Message::Version(m) => MessageView::Version(m@),
            Message::Verack => MessageView::Verack,
            Message::SendHeaders => MessageView::SendHeaders,
            Message::GetData(m) => MessageView::GetData(m@),
            Message::GetBlocks(m) => MessageView::GetBlocks(m@),
            Message::GetHeaders(m) => MessageView::GetHeaders(m@),
            Message::SendCompact(m) => MessageView::SendCompact(*m),
            Message::FeeFilter(n) => MessageView::FeeFilter(*n),
            Message::Ping(n) => MessageView::Ping(*n),
            Message::Pong(n) => MessageView::Pong(*n),
            Message::Addr(m) => MessageView::Addr(m@),
            Message::Header(m) => MessageView::Header(m@),
            Message::Inv(m) => MessageView::Inv(m@),
            Message::BitcrustPeerCountRequest(m) => MessageView::BitcrustPeerCountRequest(m@),
            Message::BitcrustPeerCount(n) => MessageView::BitcrustPeerCount(*n),
            Message::Unparsed(command, payload) => MessageView::Unparsed(command@, payload@),
        }
    }
}

} // verus!
