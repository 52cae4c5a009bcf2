//! The piece scheduler: which confirmed peer is asked for which piece.
//!
//! A round asks for a list of pieces, the piece at position `i` of the list
//! from the peer at position `i mod peers`, in the peers' declaration order,
//! and then tells every confirmed peer that the round of requests is over.
//!
//! The first round of a download asks for the first `min(peers, pieces)`
//! pieces of the file. Pieces past that are not asked for by that round;
//! their number is part of the result, so that the caller never mistakes a
//! partial schedule for a complete one.

use crate::packet::{Packet, PacketType, PacketView, PieceRequest, PieceRequestView, TorrentInfo};
use crate::piece::{piece_count, spec_piece_count};
use crate::transport::{peer_address, spec_address, TCP_PORT};
use crate::wire::{encode_request, spec_decode_request, spec_encode_request};
use vstd::prelude::*;
use vstd::string::StringExecFns;

verus! {

/// What one scheduling round decided.
#[derive(Debug)]
pub struct Schedule {
    /// The packets to send, in order: the piece requests, then one end-of-round
    /// notice for each confirmed peer.
    pub packets: Vec<Packet>,
    /// Number of pieces asked for in this round.
    pub assigned: u64,
    /// Number of pieces that are still wanted and that nobody was asked for.
    pub unassigned: u64,
}

/// How many pieces the first round asks for: as many as there are confirmed
/// peers, but no more than the file has.
pub open spec fn spec_assignable(peer_count: nat, size: nat) -> nat {
    if peer_count < spec_piece_count(size) {
        peer_count
    } else {
        spec_piece_count(size)
    }
}

/// The pieces that the first round asks for: the first `spec_assignable` ones.
pub open spec fn spec_first_wave(peer_count: nat, size: nat) -> Seq<u64> {
    Seq::new(spec_assignable(peer_count, size), |piece: int| piece as u64)
}

/// The position, in the confirmed list, of the peer that is asked for the
/// piece at position `at` of a round.
pub open spec fn spec_assigned_peer(at: nat, peer_count: nat) -> int
    recommends
        peer_count > 0,
{
    (at as int) % (peer_count as int)
}

/// The packet that asks `peer` for `piece` of `filename`, to be delivered to `local`.
pub open spec fn spec_request_packet(
    id: u64,
    filename: Seq<char>,
    local: Seq<char>,
    peer: Seq<char>,
    piece: u64,
) -> PacketView {
    PacketView {
        packet_type: PacketType::PieceRequest,
        thread_id: id,
        dest_ip: spec_address(peer, TCP_PORT),
        from_ip: Seq::empty(),
        content: spec_encode_request(
            PieceRequestView { dest_ip: local, filename, location: piece },
        ),
    }
}

/// The packet that tells `peer` that the requests of this round are over.
pub open spec fn spec_round_done_packet(id: u64, peer: Seq<char>) -> PacketView {
    PacketView {
        packet_type: PacketType::DownloadComplete,
        thread_id: id,
        dest_ip: spec_address(peer, TCP_PORT),
        from_ip: Seq::empty(),
        content: Seq::empty(),
    }
}

/// The packets of a round that asks for the pieces of `wanted`: a request for
/// each, in order, then an end-of-round notice for each peer. Without a peer
/// there is nobody to send anything to.
pub open spec fn spec_round(
    id: u64,
    filename: Seq<char>,
    local: Seq<char>,
    peers: Seq<Seq<char>>,
    wanted: Seq<u64>,
) -> Seq<PacketView> {
    if peers.len() == 0 {
        Seq::empty()
    } else {
        Seq::new(
            wanted.len() + peers.len(),
            |at: int|
                if at < wanted.len() {
                    spec_request_packet(
                        id,
                        filename,
                        local,
                        peers[spec_assigned_peer(at as nat, peers.len())],
                        wanted[at],
                    )
                } else {
                    spec_round_done_packet(id, peers[at - wanted.len()])
                },
        )
    }
}

/// The packets of the first round of a download.
pub open spec fn spec_schedule(
    id: u64,
    filename: Seq<char>,
    size: u64,
    local: Seq<char>,
    peers: Seq<Seq<char>>,
) -> Seq<PacketView> {
    spec_round(id, filename, local, peers, spec_first_wave(peers.len(), size as nat))
}

/// Builds the packets of a round that asks for the pieces of `wanted` of the
/// file `filename`, on behalf of session `id`, among the confirmed peers
/// `valid_peers`; pieces are to be delivered to `local_addr`.
pub fn round_packets(
    id: u64,
    filename: &str,
    valid_peers: &Vec<String>,
    local_addr: &str,
    wanted: &Vec<u64>,
) -> (packets: Vec<Packet>)
    ensures
        packets.deep_view() == spec_round(
            id,
            filename@,
            local_addr@,
            valid_peers.deep_view(),
            wanted@,
        ),
{
    let ghost peers = valid_peers.deep_view();
    let ghost plan = spec_round(id, filename@, local_addr@, peers, wanted@);
    let mut packets: Vec<Packet> = Vec::new();
    if valid_peers.len() == 0 {
        assert(packets.deep_view() =~= plan);
        return packets;
    }
    let mut at: usize = 0;
    while at < wanted.len()
        invariant
            at <= wanted.len(),
            valid_peers.len() > 0,
            peers == valid_peers.deep_view(),
            plan == spec_round(id, filename@, local_addr@, peers, wanted@),
            packets.len() == at,
            forall|k: int| 0 <= k < at ==> packets[k]@ == plan[k],
        decreases wanted.len() - at,
    {
        let peer = &valid_peers[at % valid_peers.len()];
        let request = PieceRequest {
            dest_ip: String::from_str(local_addr),
            filename: String::from_str(filename),
            location: wanted[at],
        };
        let packet = Packet {
            packet_type: PacketType::PieceRequest,
            thread_id: id,
            dest_ip: peer_address(peer.as_str(), TCP_PORT),
            from_ip: String::new(),
            content: encode_request(&request),
        };
        assert(packet@ == plan[at as int]);
        packets.push(packet);
        at += 1;
    }
    let mut notified: usize = 0;
    while notified < valid_peers.len()
        invariant
            notified <= valid_peers.len(),
            valid_peers.len() > 0,
            peers == valid_peers.deep_view(),
            plan == spec_round(id, filename@, local_addr@, peers, wanted@),
            packets.len() == wanted.len() + notified,
            forall|k: int| 0 <= k < wanted.len() + notified ==> packets[k]@ == plan[k],
        decreases valid_peers.len() - notified,
    {
        let packet = Packet {
            packet_type: PacketType::DownloadComplete,
            thread_id: id,
            dest_ip: peer_address(valid_peers[notified].as_str(), TCP_PORT),
            from_ip: String::new(),
            content: Vec::new(),
        };
        assert(packet@ == plan[wanted.len() + notified]);
        packets.push(packet);
        notified += 1;
    }
    assert(packets.deep_view() =~= plan);
    packets
}

/// Plans the first round of requests for the file of `info`, on behalf of
/// session `id`, among the confirmed peers `valid_peers`; pieces are to be
/// delivered to `local_addr`.
///
/// With no confirmed peer nothing is asked and every piece is left unassigned.
pub fn schedule_pieces(
    id: u64,
    info: &TorrentInfo,
    valid_peers: &Vec<String>,
    local_addr: &str,
) -> (schedule: Schedule)
    ensures
        schedule.packets.deep_view() == spec_schedule(
            id,
            info@.filename,
            info.size,
            local_addr@,
            valid_peers.deep_view(),
        ),
        schedule.assigned == spec_assignable(valid_peers.len() as nat, info.size as nat),
        schedule.assigned + schedule.unassigned == spec_piece_count(info.size as nat),
{
    let pieces: u64 = piece_count(info.size);
    let peer_count: u64 = valid_peers.len() as u64;
    let wave: u64 = if peer_count < pieces {
        peer_count
    } else {
        pieces
    };
    let mut wanted: Vec<u64> = Vec::new();
    let mut piece: u64 = 0;
    while piece < wave
        invariant
            piece <= wave,
            wanted.len() == piece,
            forall|k: int| 0 <= k < piece ==> wanted[k] == k,
        decreases wave - piece,
    {
        wanted.push(piece);
        piece += 1;
    }
    assert(wanted@ =~= spec_first_wave(valid_peers.len() as nat, info.size as nat));
    assert(valid_peers.deep_view().len() == valid_peers.len());
    let packets = round_packets(id, info.filename.as_str(), valid_peers, local_addr, &wanted);
    Schedule { packets, assigned: wave, unassigned: pieces - wave }
}

/// The shape of a round. The piece at position `at` of the wanted list is
/// asked from the peer at position `at mod peers`; the request names the
/// piece and the place to deliver it; and every peer gets one end-of-round
/// notice after the requests.
pub proof fn lemma_round_shape(
    id: u64,
    filename: Seq<char>,
    local: Seq<char>,
    peers: Seq<Seq<char>>,
    wanted: Seq<u64>,
)
    requires
        peers.len() > 0,
        vstd::utf8::encode_utf8(local).len() <= u64::MAX,
    ensures
        spec_round(id, filename, local, peers, wanted).len() == wanted.len() + peers.len(),
        forall|at: int|
            0 <= at < wanted.len() ==> {
                let packet = #[trigger] spec_round(id, filename, local, peers, wanted)[at];
                &&& packet.packet_type == PacketType::PieceRequest
                &&& packet.thread_id == id
                &&& 0 <= spec_assigned_peer(at as nat, peers.len()) < peers.len()
                &&& packet.dest_ip == spec_address(
                    peers[spec_assigned_peer(at as nat, peers.len())],
                    TCP_PORT,
                )
                &&& spec_decode_request(packet.content) == Some(
                    PieceRequestView { dest_ip: local, filename, location: wanted[at] },
                )
            },
        forall|at: int|
            0 <= at < peers.len() ==> #[trigger] spec_round(
                id,
                filename,
                local,
                peers,
                wanted,
            )[wanted.len() + at] == spec_round_done_packet(id, peers[at]),
{
    let plan = spec_round(id, filename, local, peers, wanted);
    assert forall|at: int| 0 <= at < wanted.len() implies {
        let packet = #[trigger] plan[at];
        &&& packet.packet_type == PacketType::PieceRequest
        &&& packet.thread_id == id
        &&& 0 <= spec_assigned_peer(at as nat, peers.len()) < peers.len()
        &&& packet.dest_ip == spec_address(
            peers[spec_assigned_peer(at as nat, peers.len())],
            TCP_PORT,
        )
        &&& spec_decode_request(packet.content) == Some(
            PieceRequestView { dest_ip: local, filename, location: wanted[at] },
        )
    } by {
        crate::wire::lemma_request_round_trip(
            PieceRequestView { dest_ip: local, filename, location: wanted[at] },
        );
    }
}

/// The shape of the first round. Piece `i` of the wave is asked from the peer
/// at position `i mod peers`, which in a first round is position `i` itself,
/// so no peer is asked for two pieces; and every peer gets one end-of-round
/// notice after the requests.
pub proof fn lemma_round_robin(
    id: u64,
    filename: Seq<char>,
    size: u64,
    local: Seq<char>,
    peers: Seq<Seq<char>>,
)
    requires
        vstd::utf8::encode_utf8(local).len() <= u64::MAX,
    ensures
        spec_schedule(id, filename, size, local, peers).len() == spec_assignable(
            peers.len(),
            size as nat,
        ) + peers.len(),
        forall|piece: int|
            0 <= piece < spec_assignable(peers.len(), size as nat) ==> {
                let packet = #[trigger] spec_schedule(id, filename, size, local, peers)[piece];
                &&& packet.packet_type == PacketType::PieceRequest
                &&& packet.thread_id == id
                &&& spec_assigned_peer(piece as nat, peers.len()) == piece
                &&& packet.dest_ip == spec_address(peers[piece], TCP_PORT)
                &&& spec_decode_request(packet.content) == Some(
                    PieceRequestView { dest_ip: local, filename, location: piece as u64 },
                )
            },
        forall|at: int|
            0 <= at < peers.len() ==> #[trigger] spec_schedule(
                id,
                filename,
                size,
                local,
                peers,
            )[spec_assignable(peers.len(), size as nat) + at] == spec_round_done_packet(
                id,
                peers[at],
            ),
{
    let wave = spec_assignable(peers.len(), size as nat);
    let wanted = spec_first_wave(peers.len(), size as nat);
    let plan = spec_schedule(id, filename, size, local, peers);
    if peers.len() > 0 {
        lemma_round_shape(id, filename, local, peers, wanted);
        assert forall|piece: int| 0 <= piece < wave implies {
            let packet = #[trigger] plan[piece];
            &&& packet.packet_type == PacketType::PieceRequest
            &&& packet.thread_id == id
            &&& spec_assigned_peer(piece as nat, peers.len()) == piece
            &&& packet.dest_ip == spec_address(peers[piece], TCP_PORT)
            &&& spec_decode_request(packet.content) == Some(
                PieceRequestView { dest_ip: local, filename, location: piece as u64 },
            )
        } by {
            vstd::arithmetic::div_mod::lemma_small_mod(piece as nat, peers.len());
            assert(wanted[piece] == piece as u64);
        }
    }
}

/// The first round leaves no piece unassigned exactly when there are at least
/// as many confirmed peers as pieces; with fewer peers, what is left is the
/// difference.
pub proof fn lemma_unassigned(peer_count: nat, size: nat)
    ensures
        spec_assignable(peer_count, size) <= peer_count,
        spec_assignable(peer_count, size) <= spec_piece_count(size),
        spec_assignable(peer_count, size) == spec_piece_count(size) <==> peer_count
            >= spec_piece_count(size),
        peer_count < spec_piece_count(size) ==> spec_piece_count(size) - spec_assignable(
            peer_count,
            size,
        ) == spec_piece_count(size) - peer_count,
{
}

} // verus!
