//! The seed session: the state machine that serves one file.
//!
//! A session collects the piece requests that reach it until the requester
//! says that the round is over, and then serves what it collected:
//!
//! `Idle → CollectingAssignments → Serving`, and back to collecting when a
//! further request comes in. Every request that was collected is handed out
//! for serving once. A session whose file cannot be read is `Failed` and
//! takes in nothing more.
//!
//! The session decides; it performs no I/O. The caller reads the file and
//! sends the packets.

use crate::packet::{
    Packet, PacketType, PacketView, PieceRequest, PieceRequestView, TorrentInfo, TorrentInfoView,
};
use crate::piece::{get_piece, spec_extract, spec_piece_offset, PieceError};
use crate::text::same_bytes;
use crate::wire::{decode_request, encode_delivery, spec_decode_request, spec_encode_delivery};
use vstd::prelude::*;
use vstd::utf8::encode_utf8;

verus! {

/// Where a seed session stands.
#[derive(Clone, Copy, Debug, PartialEq, Eq, Structural)]
pub enum SeedState {
    /// No request has come in since the session began.
    Idle,
    /// At least one request is waiting for the end of the round.
    CollectingAssignments,
    /// The requests of the last round were handed out for serving.
    Serving,
    /// The file could not be read; the session has ended.
    Failed,
}

/// The session of one seeded file.
#[derive(Debug)]
pub struct SeedThread {
    id: u64,
    info: TorrentInfo,
    state: SeedState,
    pending: Vec<PieceRequest>,
}

/// A seed session as a mathematical value.
pub struct SeedView {
    pub id: u64,
    pub info: TorrentInfoView,
    pub state: SeedState,
    /// The requests collected in the running round, in the order they came.
    pub pending: Seq<PieceRequestView>,
}

/// The request that a packet carries, if it is a `PieceRequest` with a
/// well-formed payload.
pub open spec fn spec_carried_request(packet: PacketView) -> Option<PieceRequestView> {
    if packet.packet_type == PacketType::PieceRequest {
        spec_decode_request(packet.content)
    } else {
        None
    }
}

/// Whether a packet says that the requester's round of requests is over.
pub open spec fn spec_ends_round(packet: PacketView) -> bool {
    packet.packet_type == PacketType::RequestDone || packet.packet_type
        == PacketType::DownloadComplete
}

/// The requests that the packets of `packets` carry, in order.
pub open spec fn spec_carried_requests(packets: Seq<PacketView>) -> Seq<PieceRequestView>
    decreases packets.len(),
{
    if packets.len() == 0 {
        Seq::empty()
    } else {
        let before = spec_carried_requests(packets.drop_last());
        match spec_carried_request(packets.last()) {
            Some(request) => before.push(request),
            None => before,
        }
    }
}

/// The packet that delivers piece `request.location` of `file` to the
/// requester, sent by session `id`.
pub open spec fn spec_delivery_packet(id: u64, request: PieceRequestView, file: Seq<u8>)
    -> PacketView {
    PacketView {
        packet_type: PacketType::PieceDelivery,
        thread_id: id,
        dest_ip: request.dest_ip,
        from_ip: Seq::empty(),
        content: spec_encode_delivery(request.location, spec_extract(file, request.location as nat)),
    }
}

impl SeedView {
    /// What holds of every session: requests wait only while the session is
    /// collecting.
    pub open spec fn wf(self) -> bool {
        self.pending.len() > 0 ==> self.state is CollectingAssignments
    }

    /// The session after it was handed a packet. A request is put behind the
    /// waiting ones; the end of a round empties them out; everything else,
    /// and the end of a round that never began, changes nothing. A failed
    /// session stays as it is.
    pub open spec fn after_packet(self, packet: PacketView) -> SeedView {
        if self.state is Failed {
            self
        } else {
            match spec_carried_request(packet) {
                Some(request) => SeedView {
                    state: SeedState::CollectingAssignments,
                    pending: self.pending.push(request),
                    ..self
                },
                None => if spec_ends_round(packet) && self.state is CollectingAssignments {
                    SeedView { state: SeedState::Serving, pending: Seq::empty(), ..self }
                } else {
                    self
                },
            }
        }
    }

    /// The session after its file could not be read: failed, with nothing waiting.
    pub open spec fn failed(self) -> SeedView {
        SeedView { state: SeedState::Failed, pending: Seq::empty(), ..self }
    }

    /// The requests that are handed out for serving when the session is
    /// handed a packet: all the waiting ones at the end of a round, in the
    /// order they came, and nothing at any other time.
    pub open spec fn handed_out(self, packet: PacketView) -> Option<Seq<PieceRequestView>> {
        if spec_carried_request(packet) is None && spec_ends_round(packet) && self.state
            is CollectingAssignments {
            Some(self.pending)
        } else {
            None
        }
    }

    /// The session after it was handed the packets of `packets`, one after the other.
    pub open spec fn after_packets(self, packets: Seq<PacketView>) -> SeedView
        decreases packets.len(),
    {
        if packets.len() == 0 {
            self
        } else {
            self.after_packets(packets.drop_last()).after_packet(packets.last())
        }
    }

    /// All the requests handed out for serving while the session was handed
    /// the packets of `packets`, round after round.
    pub open spec fn served(self, packets: Seq<PacketView>) -> Seq<PieceRequestView>
        decreases packets.len(),
    {
        if packets.len() == 0 {
            Seq::empty()
        } else {
            let before = self.served(packets.drop_last());
            match self.after_packets(packets.drop_last()).handed_out(packets.last()) {
                Some(round) => before + round,
                None => before,
            }
        }
    }

    /// The answer to a packet that asks whether this session serves a file:
    /// a confirmation where the packet names the session's file, a denial
    /// otherwise, sent back to where the packet came from. Other packets get
    /// no answer, and a failed session answers nothing.
    pub open spec fn answer(self, packet: PacketView) -> Option<PacketView> {
        if packet.packet_type == PacketType::FileCheck && !(self.state is Failed) {
            Some(
                PacketView {
                    packet_type: if packet.content == encode_utf8(self.info.filename) {
                        PacketType::FileConfirm
                    } else {
                        PacketType::FileDeny
                    },
                    thread_id: packet.thread_id,
                    dest_ip: packet.from_ip,
                    from_ip: Seq::empty(),
                    content: Seq::empty(),
                },
            )
        } else {
            None
        }
    }
}

impl View for SeedThread {
    type V = SeedView;

    closed spec fn view(&self) -> SeedView {
        SeedView {
            id: self.id,
            info: self.info@,
            state: self.state,
            pending: self.pending.deep_view(),
        }
    }
}

impl SeedThread {
    /// What holds of every session: requests wait only while it is collecting.
    #[verifier::type_invariant]
    spec fn waits_while_collecting(&self) -> bool {
        self@.wf()
    }

    /// A fresh session that serves the file of `info`, known to the router as `id`.
    pub fn new(id: u64, info: TorrentInfo) -> (session: Self)
        ensures
            session@.wf(),
            session@ == (SeedView {
                id,
                info: info@,
                state: SeedState::Idle,
                pending: Seq::empty(),
            }),
    {
        let session = SeedThread { id, info, state: SeedState::Idle, pending: Vec::new() };
        assert(session.pending.deep_view() =~= Seq::<PieceRequestView>::empty());
        session
    }

    /// The id under which the router knows the session.
    pub fn id(&self) -> (id: u64)
        ensures
            id == self@.id,
    {
        self.id
    }

    /// The manifest of the file.
    pub fn info(&self) -> (info: &TorrentInfo)
        ensures
            info@ == self@.info,
    {
        &self.info
    }

    /// Where the session stands.
    pub fn state(&self) -> (state: SeedState)
        ensures
            state == self@.state,
    {
        self.state
    }

    /// Number of requests that wait for the end of the round.
    pub fn pending_requests(&self) -> (count: usize)
        ensures
            count == self@.pending.len(),
    {
        self.pending.len()
    }

    /// Answers a `FileCheck`: `FileConfirm` where the packet names the file of
    /// this session, `FileDeny` where it names another. The answer goes back
    /// to the address the packet came from, under the packet's session id.
    /// Any other packet gets no answer, and a failed session answers nothing.
    pub fn answer_check(&self, packet: &Packet) -> (reply: Option<Packet>)
        ensures
            reply.deep_view() == self@.answer(packet@),
    {
        if packet.packet_type != PacketType::FileCheck || self.state == SeedState::Failed {
            return None;
        }
        let named = same_bytes(packet.content.as_slice(), self.info.filename.as_str().as_bytes());
        Some(
            Packet {
                packet_type: if named {
                    PacketType::FileConfirm
                } else {
                    PacketType::FileDeny
                },
                thread_id: packet.thread_id,
                dest_ip: packet.from_ip.clone(),
                from_ip: String::new(),
                content: Vec::new(),
            },
        )
    }

    /// Takes in one packet that the router handed to this session.
    ///
    /// A `PieceRequest` with a well-formed payload is put behind the requests
    /// that wait, and the session is collecting. A `RequestDone` or
    /// `DownloadComplete` ends the round of a collecting session: the session
    /// is serving, and all the requests that waited are handed back, in the
    /// order they came, to be served once. Everything else, a malformed
    /// request included, is dropped and changes nothing. A failed session
    /// takes in nothing.
    pub fn get_assignments(&mut self, packet: &Packet) -> (round: Option<Vec<PieceRequest>>)
        ensures
            final(self)@.wf(),
            final(self)@ == old(self)@.after_packet(packet@),
            round.deep_view() == old(self)@.handed_out(packet@),
    {
        proof {
            use_type_invariant(&*self);
        }
        if self.state == SeedState::Failed {
            return None;
        }
        match packet.packet_type {
            PacketType::PieceRequest => {
                match decode_request(packet.content.as_slice()) {
                    Some(request) => {
                        let ghost before = self.pending.deep_view();
                        let mut pending: Vec<PieceRequest> = Vec::new();
                        assert(pending.deep_view() =~= Seq::<PieceRequestView>::empty());
                        self.state = SeedState::CollectingAssignments;
                        std::mem::swap(&mut pending, &mut self.pending);
                        pending.push(request);
                        assert(pending.deep_view() =~= before.push(request@));
                        self.pending = pending;
                    },
                    None => {},
                }
                None
            },
            PacketType::RequestDone | PacketType::DownloadComplete => {
                if self.state == SeedState::CollectingAssignments {
                    let mut round: Vec<PieceRequest> = Vec::new();
                    assert(round.deep_view() =~= Seq::<PieceRequestView>::empty());
                    std::mem::swap(&mut round, &mut self.pending);
                    self.state = SeedState::Serving;
                    Some(round)
                } else {
                    None
                }
            },
            _ => None,
        }
    }

    /// Ends the session after its file could not be read. What waited is
    /// given up.
    pub fn fail(&mut self)
        ensures
            final(self)@.wf(),
            final(self)@ == old(self)@.failed(),
    {
        let pending: Vec<PieceRequest> = Vec::new();
        assert(pending.deep_view() =~= Seq::<PieceRequestView>::empty());
        self.pending = pending;
        self.state = SeedState::Failed;
    }

    /// Builds the delivery that answers `request` out of the bytes of the
    /// seeded file.
    ///
    /// The packet carries the requested piece, a full one or the shorter last
    /// one, never a byte from past the end of the file, and goes to the
    /// address that the request names. A request for a piece that the file
    /// does not have is refused.
    pub fn send_piece(&self, request: &PieceRequest, file_bytes: &[u8]) -> (result: Result<
        Packet,
        PieceError,
    >)
        ensures
            match result {
                Ok(packet) => {
                    &&& spec_piece_offset(request.location as nat) < file_bytes@.len()
                    &&& packet@ == spec_delivery_packet(self@.id, request@, file_bytes@)
                },
                Err(error) => {
                    &&& spec_piece_offset(request.location as nat) >= file_bytes@.len()
                    &&& error == PieceError::OutOfRange
                },
            },
    {
        match get_piece(file_bytes, request.location) {
            Ok(piece) => Ok(
                Packet {
                    packet_type: PacketType::PieceDelivery,
                    thread_id: self.id,
                    dest_ip: request.dest_ip.clone(),
                    from_ip: String::new(),
                    content: encode_delivery(request.location, piece.as_slice()),
                },
            ),
            Err(error) => Err(error),
        }
    }
}

/// Handing a session a packet keeps it well formed.
pub proof fn lemma_seed_step_wf(session: SeedView, packet: PacketView)
    requires
        session.wf(),
    ensures
        session.after_packet(packet).wf(),
{
}

/// Every request that reaches a session that has not failed is served once.
/// Over any run of packets, the requests handed out for serving, followed by
/// those that still wait, are the requests that waited at the start followed
/// by those that the packets carried, in the order they came: none is lost,
/// none is handed out twice.
pub proof fn lemma_served_once(session: SeedView, packets: Seq<PacketView>)
    requires
        session.wf(),
        !(session.state is Failed),
    ensures
        session.after_packets(packets).wf(),
        !(session.after_packets(packets).state is Failed),
        session.served(packets) + session.after_packets(packets).pending == session.pending
            + spec_carried_requests(packets),
    decreases packets.len(),
{
    if packets.len() == 0 {
        assert(session.served(packets) + session.pending =~= session.pending
            + spec_carried_requests(packets));
    } else {
        let front = packets.drop_last();
        let last = packets.last();
        let before = session.after_packets(front);
        lemma_served_once(session, front);
        lemma_seed_step_wf(before, last);
        let served_before = session.served(front);
        let carried_before = spec_carried_requests(front);
        assert(served_before + before.pending == session.pending + carried_before);
        match spec_carried_request(last) {
            Some(request) => {
                assert(served_before + before.pending.push(request) =~= (served_before
                    + before.pending).push(request));
                assert(session.pending + carried_before.push(request) =~= (session.pending
                    + carried_before).push(request));
            },
            None => {
                if spec_ends_round(last) && before.state is CollectingAssignments {
                    assert((served_before + before.pending) + Seq::<PieceRequestView>::empty()
                        =~= served_before + before.pending);
                }
            },
        }
    }
}

/// What a seed sends is what the downloader takes: the delivery built for a
/// request of a piece of the file is accepted by a receiving download session
/// for a file of the same size, which is told to write exactly the bytes of
/// that piece at the piece's own offset.
pub proof fn lemma_delivery_is_accepted(id: u64, request: PieceRequestView, file: Seq<u8>)
    requires
        file.len() <= u64::MAX,
        spec_piece_offset(request.location as nat) < file.len(),
    ensures
        crate::receive::spec_delivered_piece(
            file.len() as u64,
            spec_delivery_packet(id, request, file),
        ) == Some((request.location, spec_extract(file, request.location as nat))),
{
    crate::wire::lemma_delivery_round_trip(
        request.location,
        spec_extract(file, request.location as nat),
    );
}

} // verus!
