//! The values that travel between nodes: packets, manifests and piece requests.
//!
//! Every type has a view made of mathematical values (`Seq<char>` for text,
//! `Seq<u8>` for bytes); the contracts of the crate are stated over these views.

use vstd::prelude::*;

verus! {

/// What a packet is for.
#[derive(Clone, Copy, Debug, PartialEq, Eq, Structural)]
pub enum PacketType {
    /// No meaning; the value of a packet that was never filled in.
    Unset,
    /// Asks a peer whether it serves the file named in the payload.
    FileCheck,
    /// The peer serves the file.
    FileConfirm,
    /// The peer does not serve the file.
    FileDeny,
    /// Asks a peer for one piece; the payload is an encoded `PieceRequest`.
    PieceRequest,
    /// Carries one piece; the payload is an encoded piece delivery.
    PieceDelivery,
    /// The requester has finished asking for pieces.
    RequestDone,
    /// Sent by a downloader after its last request of a round: no more
    /// requests follow, the peer may start serving.
    DownloadComplete,
}

impl Default for PacketType {
    fn default() -> (kind: Self)
        ensures
            kind == PacketType::Unset,
    {
        PacketType::Unset
    }
}

/// One message of the protocol.
///
/// `from_ip` is filled in by the receiving transport, never by the sender.
#[derive(Debug)]
pub struct Packet {
    pub packet_type: PacketType,
    /// The session the packet belongs to; the only key used for routing.
    pub thread_id: u64,
    pub dest_ip: String,
    pub from_ip: String,
    /// Opaque bytes: an encoded request, an encoded delivery, a file name, or nothing.
    pub content: Vec<u8>,
}

/// A `Packet` as a mathematical value.
pub struct PacketView {
    pub packet_type: PacketType,
    pub thread_id: u64,
    pub dest_ip: Seq<char>,
    pub from_ip: Seq<char>,
    pub content: Seq<u8>,
}

impl View for Packet {
    type V = PacketView;

    open spec fn view(&self) -> PacketView {
        PacketView {
            packet_type: self.packet_type,
            thread_id: self.thread_id,
            dest_ip: self.dest_ip@,
            from_ip: self.from_ip@,
            content: self.content@,
        }
    }
}

impl DeepView for Packet {
    type V = PacketView;

    open spec fn deep_view(&self) -> PacketView {
        self@
    }
}

impl Clone for Packet {
    fn clone(&self) -> (copy: Self)
        ensures
            copy@ == self@,
    {
        Packet {
            packet_type: self.packet_type,
            thread_id: self.thread_id,
            dest_ip: self.dest_ip.clone(),
            from_ip: self.from_ip.clone(),
            content: copy_bytes(self.content.as_slice()),
        }
    }
}

/// A fresh vector holding the bytes of `bytes`.
pub fn copy_bytes(bytes: &[u8]) -> (copy: Vec<u8>)
    ensures
        copy@ == bytes@,
{
    vstd::slice::slice_to_vec(bytes)
}

/// A fresh vector holding a copy of every string of `names`, in order.
pub fn copy_names(names: &Vec<String>) -> (copy: Vec<String>)
    ensures
        copy.deep_view() == names.deep_view(),
{
    let mut copy: Vec<String> = Vec::new();
    let mut i: usize = 0;
    while i < names.len()
        invariant
            i <= names.len(),
            copy.len() == i,
            forall|k: int| 0 <= k < i ==> copy[k]@ == names[k]@,
        decreases names.len() - i,
    {
        copy.push(names[i].clone());
        i += 1;
    }
    assert(copy.deep_view() =~= names.deep_view());
    copy
}

/// The manifest of a shared file. Immutable once loaded; one per session.
#[derive(Debug)]
pub struct TorrentInfo {
    pub filename: String,
    pub created_on: String,
    /// Total size of the file in bytes.
    pub size: u64,
    /// The declared peers, as bare host names, in declaration order.
    pub peers: Vec<String>,
}

/// A `TorrentInfo` as a mathematical value.
pub struct TorrentInfoView {
    pub filename: Seq<char>,
    pub created_on: Seq<char>,
    pub size: u64,
    pub peers: Seq<Seq<char>>,
}

impl View for TorrentInfo {
    type V = TorrentInfoView;

    open spec fn view(&self) -> TorrentInfoView {
        TorrentInfoView {
            filename: self.filename@,
            created_on: self.created_on@,
            size: self.size,
            peers: self.peers.deep_view(),
        }
    }
}

impl Clone for TorrentInfo {
    fn clone(&self) -> (copy: Self)
        ensures
            copy@ == self@,
    {
        TorrentInfo {
            filename: self.filename.clone(),
            created_on: self.created_on.clone(),
            size: self.size,
            peers: copy_names(&self.peers),
        }
    }
}

/// The payload of a `PieceRequest` packet: who wants which piece of which file.
#[derive(Debug)]
pub struct PieceRequest {
    /// Where the piece is to be delivered: the requester's own address.
    pub dest_ip: String,
    pub filename: String,
    /// Index of the piece.
    pub location: u64,
}

/// A `PieceRequest` as a mathematical value.
pub struct PieceRequestView {
    pub dest_ip: Seq<char>,
    pub filename: Seq<char>,
    pub location: u64,
}

impl View for PieceRequest {
    type V = PieceRequestView;

    open spec fn view(&self) -> PieceRequestView {
        PieceRequestView {
            dest_ip: self.dest_ip@,
            filename: self.filename@,
            location: self.location,
        }
    }
}

impl DeepView for PieceRequest {
    type V = PieceRequestView;

    open spec fn deep_view(&self) -> PieceRequestView {
        self@
    }
}

impl Clone for PieceRequest {
    fn clone(&self) -> (copy: Self)
        ensures
            copy@ == self@,
    {
        PieceRequest {
            dest_ip: self.dest_ip.clone(),
            filename: self.filename.clone(),
            location: self.location,
        }
    }
}

} // verus!
