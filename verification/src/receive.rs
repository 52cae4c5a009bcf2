//! The download session: the state machine that fetches one file.
//!
//! A session probes the declared peers, schedules requests among those that
//! confirmed, and then takes in deliveries until every piece has arrived:
//!
//! `Init → Discovering → Scheduling → Receiving → Complete`, with `Failed` for
//! a session that cannot go on.
//!
//! The session decides; it performs no I/O. Its methods hand back the packets
//! to send and the bytes to write, and the caller reports what came in.

use crate::packet::{Packet, PacketType, PacketView, TorrentInfo, TorrentInfoView};
use crate::piece::{
    lemma_extract_then_write, piece_count, piece_len, spec_extract, spec_piece_count,
    spec_piece_len, spec_piece_offset, spec_write, PIECE_SIZE,
};
use crate::probe::{confirmed_peers, probe_packets, spec_confirmed, spec_probes};
use crate::schedule::{
    round_packets, schedule_pieces, spec_assignable, spec_round, spec_schedule, Schedule,
};
use crate::wire::{decode_delivery, spec_decode_delivery};
use std::collections::HashSet;
use vstd::prelude::*;
use vstd::set_lib::{lemma_len_subset, lemma_subset_equality};
use vstd::std_specs::hash::*;

verus! {

broadcast use vstd::std_specs::hash::group_hash_axioms;

/// Where a download session stands.
#[derive(Clone, Copy, Debug, PartialEq, Eq, Structural)]
pub enum DownloadState {
    /// The manifest is loaded; nothing was sent yet.
    Init,
    /// The probes are out; the answers are awaited.
    Discovering,
    /// The confirmed peers are known; no piece was asked for yet.
    Scheduling,
    /// The requests are out; deliveries are taken in.
    Receiving,
    /// Every piece has been received.
    Complete,
    /// The session cannot make progress and has ended.
    Failed,
}

/// What the caller has to do with a packet that the session was handed.
#[derive(Debug)]
pub enum ReceiveAction {
    /// Nothing: the packet is not for this phase, is malformed, or does not fit the file.
    Ignored,
    /// Write `data` into the file at byte `offset`.
    Write { offset: u64, data: Vec<u8> },
}

/// A `ReceiveAction` as a mathematical value.
pub enum ReceiveActionView {
    Ignored,
    Write { offset: u64, data: Seq<u8> },
}

impl View for ReceiveAction {
    type V = ReceiveActionView;

    open spec fn view(&self) -> ReceiveActionView {
        match self {
            ReceiveAction::Ignored => ReceiveActionView::Ignored,
            ReceiveAction::Write { offset, data } => ReceiveActionView::Write {
                offset: *offset,
                data: data@,
            },
        }
    }
}

/// The session of one download.
#[derive(Debug)]
pub struct DownloadThread {
    id: u64,
    info: TorrentInfo,
    /// Where the session stands, but that `Receiving` stands for `Complete`
    /// too: a session is complete when it receives and misses nothing.
    phase: DownloadState,
    received: HashSet<u64>,
}

/// A download session as a mathematical value.
pub struct DownloadView {
    pub id: u64,
    pub info: TorrentInfoView,
    pub state: DownloadState,
    /// The indices of the pieces received so far, each once.
    pub received: Set<u64>,
}

/// The indices of the pieces of a file of `count` pieces.
pub open spec fn spec_index_range(count: nat) -> Set<u64> {
    Set::new(|index: u64| (index as nat) < count)
}

/// The piece that a packet delivers into a file of `size` bytes, if it
/// delivers one: the packet is a `PieceDelivery`, its payload holds an index
/// and bytes, the index is one of the file's, and the bytes are no more than
/// that piece holds, so that nothing is written past the end of the file.
pub open spec fn spec_delivered_piece(size: u64, packet: PacketView) -> Option<(u64, Seq<u8>)> {
    if packet.packet_type == PacketType::PieceDelivery {
        match spec_decode_delivery(packet.content) {
            Some((index, data)) => if (index as nat) < spec_piece_count(size as nat) && data.len()
                <= spec_piece_len(size as nat, index as nat) {
                Some((index, data))
            } else {
                None
            },
            None => None,
        }
    } else {
        None
    }
}

/// Whether `packet` delivers piece `index` into a file of `size` bytes.
pub open spec fn spec_delivers(size: u64, packet: PacketView, index: u64) -> bool {
    spec_delivered_piece(size, packet) matches Some(piece) && piece.0 == index
}

/// The indices that the packets of `packets` deliver into a file of `size` bytes.
pub open spec fn spec_delivered_indices(size: u64, packets: Seq<PacketView>) -> Set<u64> {
    Set::new(
        |index: u64|
            exists|at: int|
                0 <= at < packets.len() && #[trigger] spec_delivers(size, packets[at], index),
    )
}

/// The lowest indices below `upto` that are not in `received`, in ascending
/// order, as far as there are any, and no more than `limit` of them.
pub open spec fn spec_missing(received: Set<u64>, upto: nat, limit: nat) -> Seq<u64>
    decreases upto,
{
    if upto == 0 {
        Seq::empty()
    } else {
        let before = spec_missing(received, (upto - 1) as nat, limit);
        let index = (upto - 1) as u64;
        if before.len() < limit && !received.contains(index) {
            before.push(index)
        } else {
            before
        }
    }
}

/// The indices of `received` that are below `upto`.
pub open spec fn spec_received_below(received: Set<u64>, upto: nat) -> Set<u64> {
    received.intersect(spec_index_range(upto))
}

impl DownloadView {
    /// Number of pieces of the file.
    pub open spec fn piece_count(self) -> nat {
        spec_piece_count(self.info.size as nat)
    }

    /// What holds of every session: only pieces of the file are marked
    /// received, none before the receiving phase; a receiving session still
    /// misses a piece, and a complete one has them all.
    pub open spec fn wf(self) -> bool {
        &&& self.received.finite()
        &&& self.received.subset_of(spec_index_range(self.piece_count()))
        &&& (self.state is Init || self.state is Discovering || self.state is Scheduling)
            ==> self.received == Set::<u64>::empty()
        &&& self.state is Receiving ==> self.received.len() < self.piece_count()
        &&& self.state is Complete ==> self.received.len() == self.piece_count()
    }

    /// The probes that a fresh session sends; no other session sends any.
    pub open spec fn probes(self) -> Seq<PacketView> {
        if self.state is Init {
            spec_probes(self.id, self.info.filename, self.info.peers)
        } else {
            Seq::empty()
        }
    }

    /// The session after it sent its probes.
    pub open spec fn started(self) -> DownloadView {
        if self.state is Init {
            DownloadView { state: DownloadState::Discovering, ..self }
        } else {
            self
        }
    }

    /// The peers that the answers confirm, for a session that awaits them.
    pub open spec fn confirmed(self, replies: Seq<Option<PacketView>>) -> Seq<Seq<char>> {
        if self.state is Discovering {
            spec_confirmed(self.info.peers, replies)
        } else {
            Seq::empty()
        }
    }

    /// The session after the answers came in: ready to schedule, or failed
    /// where nobody confirmed.
    pub open spec fn discovered(self, replies: Seq<Option<PacketView>>) -> DownloadView {
        if self.state is Discovering {
            DownloadView {
                state: if self.confirmed(replies).len() == 0 {
                    DownloadState::Failed
                } else {
                    DownloadState::Scheduling
                },
                ..self
            }
        } else {
            self
        }
    }

    /// The packets of the scheduling pass, for a session that is ready for it.
    pub open spec fn planned(self, peers: Seq<Seq<char>>, local: Seq<char>) -> Seq<PacketView> {
        if self.state is Scheduling {
            spec_schedule(self.id, self.info.filename, self.info.size, local, peers)
        } else {
            Seq::empty()
        }
    }

    /// The session after the scheduling pass: receiving; complete at once
    /// where the file has no piece; failed where there is no peer to ask.
    pub open spec fn scheduled(self, peers: Seq<Seq<char>>) -> DownloadView {
        if self.state is Scheduling {
            DownloadView {
                state: if peers.len() == 0 {
                    DownloadState::Failed
                } else if self.piece_count() == 0 {
                    DownloadState::Complete
                } else {
                    DownloadState::Receiving
                },
                ..self
            }
        } else {
            self
        }
    }

    /// The pieces that a further round asks for, among `peer_count` peers:
    /// the lowest missing ones, one for each peer at most. A session that is
    /// not receiving asks for none.
    pub open spec fn wanted(self, peer_count: nat) -> Seq<u64> {
        if self.state is Receiving {
            spec_missing(self.received, self.piece_count(), peer_count)
        } else {
            Seq::empty()
        }
    }

    /// The packets of a further round, for a session that is receiving.
    pub open spec fn replanned(self, peers: Seq<Seq<char>>, local: Seq<char>) -> Seq<PacketView> {
        if self.state is Receiving {
            spec_round(self.id, self.info.filename, local, peers, self.wanted(peers.len()))
        } else {
            Seq::empty()
        }
    }

    /// The session after a further round: as it was, but failed where it is
    /// receiving and there is no peer to ask.
    pub open spec fn rescheduled(self, peers: Seq<Seq<char>>) -> DownloadView {
        if self.state is Receiving && peers.len() == 0 {
            DownloadView { state: DownloadState::Failed, ..self }
        } else {
            self
        }
    }

    /// The piece that the session takes from a packet: what the packet
    /// delivers, while the session is receiving.
    pub open spec fn accepted(self, packet: PacketView) -> Option<(u64, Seq<u8>)> {
        if self.state is Receiving {
            spec_delivered_piece(self.info.size, packet)
        } else {
            None
        }
    }

    /// What the caller is told to do with a packet.
    pub open spec fn action(self, packet: PacketView) -> ReceiveActionView {
        match self.accepted(packet) {
            Some((index, data)) => ReceiveActionView::Write {
                offset: spec_piece_offset(index as nat) as u64,
                data,
            },
            None => ReceiveActionView::Ignored,
        }
    }

    /// The session after it was handed a packet. An accepted piece is marked
    /// received, once however often it comes; the session is complete as soon
    /// as the number of distinct received pieces is the number of pieces.
    pub open spec fn after_packet(self, packet: PacketView) -> DownloadView {
        match self.accepted(packet) {
            Some((index, data)) => {
                let received = self.received.insert(index);
                DownloadView {
                    received,
                    state: if received.len() == self.piece_count() {
                        DownloadState::Complete
                    } else {
                        DownloadState::Receiving
                    },
                    ..self
                }
            },
            None => self,
        }
    }

    /// The session after it was handed the packets of `packets`, one after the other.
    pub open spec fn after_packets(self, packets: Seq<PacketView>) -> DownloadView
        decreases packets.len(),
    {
        if packets.len() == 0 {
            self
        } else {
            self.after_packets(packets.drop_last()).after_packet(packets.last())
        }
    }

    /// The file image after the caller did with `image` what it was told to
    /// do with each packet of `packets`, one after the other.
    pub open spec fn written(self, image: Seq<u8>, packets: Seq<PacketView>) -> Seq<u8>
        decreases packets.len(),
    {
        if packets.len() == 0 {
            image
        } else {
            let before = self.written(image, packets.drop_last());
            match self.after_packets(packets.drop_last()).accepted(packets.last()) {
                Some((index, data)) => spec_write(before, index as nat, data),
                None => before,
            }
        }
    }

    /// The session after a failure of the disk.
    pub open spec fn failed(self) -> DownloadView {
        DownloadView { state: DownloadState::Failed, ..self }
    }
}

impl View for DownloadThread {
    type V = DownloadView;

    closed spec fn view(&self) -> DownloadView {
        DownloadView {
            id: self.id,
            info: self.info@,
            state: if self.phase is Receiving && self.received@.len() == spec_piece_count(
                self.info.size as nat,
            ) {
                DownloadState::Complete
            } else {
                self.phase
            },
            received: self.received@,
        }
    }
}

impl DownloadThread {
    /// What holds of every session: only pieces of the file are marked
    /// received, and none before the receiving phase.
    #[verifier::type_invariant]
    spec fn holds_pieces_of_the_file(&self) -> bool {
        &&& !(self.phase is Complete)
        &&& self.received@.finite()
        &&& self.received@.subset_of(spec_index_range(spec_piece_count(self.info.size as nat)))
        &&& (self.phase is Init || self.phase is Discovering || self.phase is Scheduling)
            ==> self.received@ == Set::<u64>::empty()
    }

    /// What the type promises of every session makes its view well formed.
    proof fn lemma_well_formed(self)
        requires
            self.holds_pieces_of_the_file(),
        ensures
            self@.wf(),
            self@.received.len() <= self@.piece_count(),
    {
        lemma_index_range(self@.piece_count());
        lemma_len_subset(self@.received, spec_index_range(self@.piece_count()));
    }

    /// A fresh session for the file of `info`, known to the router as `id`.
    pub fn new(id: u64, info: TorrentInfo) -> (session: Self)
        ensures
            session@.wf(),
            session@ == (DownloadView {
                id,
                info: info@,
                state: DownloadState::Init,
                received: Set::empty(),
            }),
    {
        DownloadThread { id, info, phase: DownloadState::Init, received: HashSet::new() }
    }

    /// The id under which the router knows the session.
    pub fn id(&self) -> (id: u64)
        ensures
            id == self@.id,
    {
        self.id
    }

    /// The manifest of the file.
    pub fn info(&self) -> (info: &TorrentInfo)
        ensures
            info@ == self@.info,
    {
        &self.info
    }

    /// Where the session stands.
    pub fn state(&self) -> (state: DownloadState)
        ensures
            self@.wf(),
            state == self@.state,
    {
        proof {
            use_type_invariant(self);
            self.lemma_well_formed();
        }
        if self.phase == DownloadState::Receiving && self.received.len() as u64 == piece_count(
            self.info.size,
        ) {
            DownloadState::Complete
        } else {
            self.phase
        }
    }

    /// Whether every piece has been received.
    pub fn is_complete(&self) -> (complete: bool)
        ensures
            complete == (self@.state is Complete),
    {
        self.state() == DownloadState::Complete
    }

    /// Number of pieces of the file.
    pub fn expected_pieces(&self) -> (count: u64)
        ensures
            count == self@.piece_count(),
    {
        piece_count(self.info.size)
    }

    /// Number of distinct pieces received so far.
    pub fn received_pieces(&self) -> (count: u64)
        ensures
            count == self@.received.len(),
            count <= self@.piece_count(),
    {
        proof {
            use_type_invariant(self);
            self.lemma_well_formed();
        }
        self.received.len() as u64
    }

    /// Whether piece `index` has been received.
    pub fn has_piece(&self, index: u64) -> (present: bool)
        ensures
            present == self@.received.contains(index),
    {
        self.received.contains(&index)
    }

    /// Starts the session: hands back one probe for every declared peer, in
    /// declaration order. A session that was already started hands back
    /// nothing and stays as it is.
    pub fn probe_packets(&mut self) -> (packets: Vec<Packet>)
        ensures
            final(self)@.wf(),
            final(self)@ == old(self)@.started(),
            packets.deep_view() == old(self)@.probes(),
    {
        proof {
            use_type_invariant(&*self);
            self.lemma_well_formed();
        }
        if self.phase != DownloadState::Init {
            let packets: Vec<Packet> = Vec::new();
            assert(packets.deep_view() =~= Seq::<PacketView>::empty());
            return packets;
        }
        self.phase = DownloadState::Discovering;
        probe_packets(self.id, self.info.filename.as_str(), &self.info.peers)
    }

    /// Takes in the answers to the probes and hands back the confirmed peers.
    ///
    /// `replies[at]` is what the peer declared at position `at` answered, or
    /// `None` where it gave no answer in time or could not be reached. The
    /// result is exactly the peers that answered `FileConfirm`, in declaration
    /// order. With at least one of them the session goes on to scheduling;
    /// with none it fails. A session that does not await answers hands back
    /// nothing and stays as it is.
    pub fn notify_peers(&mut self, replies: &Vec<Option<Packet>>) -> (active: Vec<String>)
        ensures
            final(self)@.wf(),
            final(self)@ == old(self)@.discovered(replies.deep_view()),
            active.deep_view() == old(self)@.confirmed(replies.deep_view()),
    {
        proof {
            use_type_invariant(&*self);
            self.lemma_well_formed();
        }
        if self.phase != DownloadState::Discovering {
            let active: Vec<String> = Vec::new();
            assert(active.deep_view() =~= Seq::<Seq<char>>::empty());
            return active;
        }
        let active = confirmed_peers(&self.info.peers, replies);
        assert(active.deep_view().len() == active.len());
        if active.len() == 0 {
            self.phase = DownloadState::Failed;
        } else {
            self.phase = DownloadState::Scheduling;
        }
        active
    }

    /// Plans the requests among the confirmed peers `valid_peers`; the pieces
    /// are to be delivered to `local_addr`, this node's own address.
    ///
    /// The packets are those of one scheduling pass. Afterwards the session is
    /// receiving; it is complete at once where the file has no piece, and has
    /// failed where `valid_peers` is empty. A session that is not ready to
    /// schedule plans nothing and stays as it is.
    pub fn assign_pieces(&mut self, valid_peers: Vec<String>, local_addr: &str) -> (schedule:
        Schedule)
        ensures
            final(self)@.wf(),
            final(self)@ == old(self)@.scheduled(valid_peers.deep_view()),
            schedule.packets.deep_view() == old(self)@.planned(
                valid_peers.deep_view(),
                local_addr@,
            ),
            schedule.assigned == if old(self)@.state is Scheduling {
                spec_assignable(valid_peers.len() as nat, old(self)@.info.size as nat)
            } else {
                0
            },
            schedule.assigned + schedule.unassigned == if old(self)@.state is Scheduling {
                old(self)@.piece_count()
            } else {
                0
            },
    {
        proof {
            use_type_invariant(&*self);
            self.lemma_well_formed();
        }
        if self.phase != DownloadState::Scheduling {
            let packets: Vec<Packet> = Vec::new();
            assert(packets.deep_view() =~= Seq::<PacketView>::empty());
            return Schedule { packets, assigned: 0, unassigned: 0 };
        }
        let schedule = schedule_pieces(self.id, &self.info, &valid_peers, local_addr);
        assert(valid_peers.deep_view().len() == valid_peers.len());
        if valid_peers.len() == 0 {
            self.phase = DownloadState::Failed;
        } else {
            self.phase = DownloadState::Receiving;
        }
        schedule
    }

    /// Plans a further round of requests for pieces that have not arrived,
    /// be it that nobody was asked for them yet or that their delivery was lost.
    ///
    /// A receiving session asks for its lowest missing pieces, one from each
    /// of the confirmed peers `valid_peers` at most, and tells every peer
    /// that the round is over; `unassigned` counts the missing pieces that
    /// this round does not ask for. With no peer the session fails. A session
    /// that is not receiving plans nothing and stays as it is.
    pub fn request_missing(&mut self, valid_peers: &Vec<String>, local_addr: &str) -> (schedule:
        Schedule)
        ensures
            final(self)@.wf(),
            final(self)@ == old(self)@.rescheduled(valid_peers.deep_view()),
            schedule.packets.deep_view() == old(self)@.replanned(
                valid_peers.deep_view(),
                local_addr@,
            ),
            schedule.assigned == old(self)@.wanted(valid_peers.len() as nat).len(),
            schedule.assigned + schedule.unassigned == if old(self)@.state is Receiving {
                old(self)@.piece_count() - old(self)@.received.len()
            } else {
                0
            },
    {
        assert(valid_peers.deep_view().len() == valid_peers.len());
        if self.state() != DownloadState::Receiving {
            let packets: Vec<Packet> = Vec::new();
            assert(packets.deep_view() =~= Seq::<PacketView>::empty());
            return Schedule { packets, assigned: 0, unassigned: 0 };
        }
        proof {
            use_type_invariant(&*self);
        }
        let pieces: u64 = piece_count(self.info.size);
        let limit: usize = valid_peers.len();
        let mut wanted: Vec<u64> = Vec::new();
        let mut index: u64 = 0;
        while index < pieces && wanted.len() < limit
            invariant
                index <= pieces,
                wanted.len() <= limit,
                wanted@ == spec_missing(self@.received, index as nat, limit as nat),
            decreases pieces - index,
        {
            if !self.received.contains(&index) {
                wanted.push(index);
            }
            index += 1;
        }
        proof {
            lemma_missing_saturates(self@.received, index as nat, pieces as nat, limit as nat);
            lemma_missing(self@.received, pieces as nat, limit as nat);
            lemma_received_bound(self@);
            assert(spec_received_below(self@.received, pieces as nat) =~= self@.received);
        }
        let missing: u64 = pieces - self.received.len() as u64;
        let assigned: u64 = wanted.len() as u64;
        let packets = round_packets(
            self.id,
            self.info.filename.as_str(),
            valid_peers,
            local_addr,
            &wanted,
        );
        if limit == 0 {
            self.phase = DownloadState::Failed;
        }
        Schedule { packets, assigned, unassigned: missing - assigned }
    }

    /// Takes in one packet that the router handed to this session.
    ///
    /// While the session is receiving, a `PieceDelivery` whose payload holds
    /// an index of the file and no more bytes than that piece has is accepted:
    /// the caller is told to write the bytes at the piece's offset, and the
    /// index is marked received. A piece that comes twice is written twice and
    /// counted once. The session is complete as soon as every index is marked.
    /// Everything else is ignored and changes nothing.
    pub fn receive(&mut self, packet: &Packet) -> (action: ReceiveAction)
        ensures
            final(self)@.wf(),
            final(self)@ == old(self)@.after_packet(packet@),
            action@ == old(self)@.action(packet@),
            old(self)@.state is Receiving ==> (final(self)@.state is Complete
                <==> final(self)@.received.len() == final(self)@.piece_count()),
    {
        if self.state() != DownloadState::Receiving || packet.packet_type
            != PacketType::PieceDelivery {
            return ReceiveAction::Ignored;
        }
        proof {
            use_type_invariant(&*self);
        }
        match decode_delivery(packet.content.as_slice()) {
            None => ReceiveAction::Ignored,
            Some((index, data)) => {
                let size: u64 = self.info.size;
                let pieces: u64 = piece_count(size);
                if index >= pieces || data.len() as u64 > piece_len(size, index) {
                    return ReceiveAction::Ignored;
                }
                proof {
                    lemma_after_packet_wf(self@, packet@);
                }
                let mut received: HashSet<u64> = HashSet::new();
                std::mem::swap(&mut received, &mut self.received);
                received.insert(index);
                self.received = received;
                ReceiveAction::Write { offset: index * PIECE_SIZE, data }
            },
        }
    }

    /// Ends the session after a failure of the disk: whatever was received,
    /// the file on disk cannot be relied on.
    pub fn fail(&mut self)
        ensures
            final(self)@.wf(),
            final(self)@ == old(self)@.failed(),
    {
        proof {
            use_type_invariant(&*self);
        }
        self.phase = DownloadState::Failed;
    }
}

/// The offset of the one byte that is written to give a fresh file its final
/// length of `total_size` bytes: the last one. An empty file needs none.
pub fn sentinel_offset(total_size: u64) -> (offset: Option<u64>)
    ensures
        match offset {
            Some(at) => total_size > 0 && at + 1 == total_size,
            None => total_size == 0,
        },
{
    if total_size == 0 {
        None
    } else {
        Some(total_size - 1)
    }
}

/// A file of `count` pieces has exactly the indices below `count`.
pub proof fn lemma_index_range(count: nat)
    requires
        count <= u64::MAX,
    ensures
        spec_index_range(count).finite(),
        spec_index_range(count).len() == count,
    decreases count,
{
    if count == 0 {
        assert(spec_index_range(count) =~= Set::<u64>::empty());
    } else {
        lemma_index_range((count - 1) as nat);
        assert(spec_index_range(count) =~= spec_index_range((count - 1) as nat).insert(
            (count - 1) as u64,
        ));
    }
}

/// No session has received more distinct pieces than the file has.
pub proof fn lemma_received_bound(session: DownloadView)
    requires
        session.wf(),
    ensures
        session.received.len() <= session.piece_count(),
{
    lemma_index_range(session.piece_count());
    lemma_len_subset(session.received, spec_index_range(session.piece_count()));
}

/// A complete session has received every piece of the file, and a receiving
/// one still misses at least one.
pub proof fn lemma_complete_has_all(session: DownloadView)
    requires
        session.wf(),
    ensures
        session.state is Complete ==> session.received == spec_index_range(session.piece_count()),
        session.state is Receiving ==> exists|index: u64|
            (index as nat) < session.piece_count() && !session.received.contains(index),
{
    let all = spec_index_range(session.piece_count());
    lemma_index_range(session.piece_count());
    if session.state is Complete {
        lemma_subset_equality(session.received, all);
    }
    if session.state is Receiving {
        if forall|index: u64| (index as nat) < session.piece_count() ==> session.received.contains(
            index,
        ) {
            assert(session.received =~= all);
        }
    }
}

/// Handing a session a packet keeps it well formed, and a session that was
/// receiving is complete afterwards exactly when the number of distinct
/// received pieces is the number of pieces of the file.
pub proof fn lemma_after_packet_wf(session: DownloadView, packet: PacketView)
    requires
        session.wf(),
    ensures
        session.after_packet(packet).wf(),
        session.state is Receiving ==> (session.after_packet(packet).state is Complete
            <==> session.after_packet(packet).received.len() == session.piece_count()),
        session.state is Receiving ==> (session.after_packet(packet).state is Complete
            || session.after_packet(packet).state is Receiving),
{
    let after = session.after_packet(packet);
    if session.accepted(packet) is Some {
        let all = spec_index_range(session.piece_count());
        lemma_index_range(session.piece_count());
        assert(after.received.subset_of(all));
        lemma_len_subset(after.received, all);
    }
}

/// Once `limit` missing indices are found, looking further finds no more.
pub proof fn lemma_missing_saturates(received: Set<u64>, from: nat, upto: nat, limit: nat)
    requires
        from <= upto,
        from == upto || spec_missing(received, from, limit).len() >= limit,
    ensures
        spec_missing(received, upto, limit) == spec_missing(received, from, limit),
    decreases upto,
{
    if from < upto {
        lemma_missing_saturates(received, from, (upto - 1) as nat, limit);
    }
}

/// What a round asks for. The indices are below `upto`, are not among the
/// received ones, and come in ascending order, so none comes twice; there
/// are as many of them as there are missing indices below `upto`, but no
/// more than `limit`.
pub proof fn lemma_missing(received: Set<u64>, upto: nat, limit: nat)
    requires
        received.finite(),
        upto <= u64::MAX,
    ensures
        forall|at: int|
            0 <= at < spec_missing(received, upto, limit).len() ==> {
                let index = #[trigger] spec_missing(received, upto, limit)[at];
                (index as nat) < upto && !received.contains(index)
            },
        forall|first: int, second: int|
            0 <= first < second < spec_missing(received, upto, limit).len() ==> spec_missing(
                received,
                upto,
                limit,
            )[first] < spec_missing(received, upto, limit)[second],
        spec_received_below(received, upto).finite(),
        spec_received_below(received, upto).len() <= upto,
        spec_missing(received, upto, limit).len() == if limit < upto - spec_received_below(
            received,
            upto,
        ).len() {
            limit
        } else {
            (upto - spec_received_below(received, upto).len()) as nat
        },
    decreases upto,
{
    if upto == 0 {
        assert(spec_received_below(received, upto) =~= Set::<u64>::empty());
    } else {
        let index = (upto - 1) as u64;
        let below = spec_received_below(received, (upto - 1) as nat);
        lemma_missing(received, (upto - 1) as nat, limit);
        if received.contains(index) {
            assert(spec_received_below(received, upto) =~= below.insert(index));
        } else {
            assert(spec_received_below(received, upto) =~= below);
        }
    }
}

/// A further round makes progress. While a session is receiving and there is
/// a peer to ask, the round asks for at least one piece; it asks only for
/// pieces of the file that have not arrived, for none of them twice, for one
/// from each peer at most, and for every missing piece where there are peers
/// enough.
pub proof fn lemma_round_asks_for_missing(session: DownloadView, peer_count: nat)
    requires
        session.wf(),
        session.state is Receiving,
    ensures
        session.wanted(peer_count).no_duplicates(),
        forall|at: int|
            0 <= at < session.wanted(peer_count).len() ==> {
                let index = #[trigger] session.wanted(peer_count)[at];
                (index as nat) < session.piece_count() && !session.received.contains(index)
            },
        session.wanted(peer_count).len() <= peer_count,
        session.wanted(peer_count).len() == if peer_count < session.piece_count()
            - session.received.len() {
            peer_count
        } else {
            (session.piece_count() - session.received.len()) as nat
        },
        peer_count > 0 ==> session.wanted(peer_count).len() > 0,
{
    lemma_missing(session.received, session.piece_count(), peer_count);
    assert(spec_received_below(session.received, session.piece_count()) =~= session.received);
}

/// A round whose deliveries all arrive brings the session that much further.
/// Where the packets handed to a receiving session deliver exactly the pieces
/// that a round asked for, the session has that many pieces more afterwards,
/// and it is complete exactly when the round asked for every missing piece,
/// that is, when there were at least as many peers as missing pieces.
pub proof fn lemma_round_delivered(
    session: DownloadView,
    peer_count: nat,
    packets: Seq<PacketView>,
)
    requires
        session.wf(),
        session.state is Receiving,
        spec_delivered_indices(session.info.size, packets) == session.wanted(peer_count).to_set(),
    ensures
        session.after_packets(packets).received.len() == session.received.len()
            + session.wanted(peer_count).len(),
        session.after_packets(packets).state is Complete <==> peer_count >= session.piece_count()
            - session.received.len(),
{
    let wanted = session.wanted(peer_count);
    lemma_round_asks_for_missing(session, peer_count);
    lemma_complete_exactly_when_all_received(session, packets);
    lemma_received_bound(session);
    wanted.unique_seq_to_set();
    assert(session.received.disjoint(wanted.to_set())) by {
        assert forall|index: u64| session.received.contains(index) implies !wanted.to_set().contains(
            index,
        ) by {
            if wanted.to_set().contains(index) {
                let at = choose|at: int| 0 <= at < wanted.len() && wanted[at] == index;
                assert(!session.received.contains(wanted[at]));
            }
        }
    }
    vstd::set_lib::lemma_set_disjoint_lens(session.received, wanted.to_set());
}

/// Whether `image` holds the bytes of `file` in every piece whose index is in `pieces`.
pub open spec fn spec_holds_pieces(image: Seq<u8>, file: Seq<u8>, pieces: Set<u64>) -> bool {
    &&& image.len() == file.len()
    &&& forall|index: u64, at: int|
        #![trigger pieces.contains(index), image[at]]
        pieces.contains(index) && spec_piece_offset(index as nat) <= at < spec_piece_offset(
            index as nat,
        ) + spec_piece_len(file.len(), index as nat) ==> image[at] == file[at]
}

/// Whether every packet of `packets` that delivers a piece delivers the bytes
/// that `file` has in that piece.
pub open spec fn spec_faithful(file: Seq<u8>, packets: Seq<PacketView>) -> bool {
    forall|at: int|
        0 <= at < packets.len() ==> match #[trigger] spec_delivered_piece(
            file.len() as u64,
            packets[at],
        ) {
            Some((index, data)) => data == spec_extract(file, index as nat),
            None => true,
        }
}

/// A complete download is the file. Where a session starts to receive with a
/// file image of the file's length, and every delivery carries the bytes that
/// the file has in that piece, the image holds the file's bytes in every
/// piece that was received, in whatever order and however often the pieces
/// came; so once the session is complete, the image is the file.
pub proof fn lemma_complete_download_is_the_file(
    session: DownloadView,
    file: Seq<u8>,
    image: Seq<u8>,
    packets: Seq<PacketView>,
)
    requires
        session.wf(),
        session.state is Receiving,
        file.len() == session.info.size,
        spec_holds_pieces(image, file, session.received),
        spec_faithful(file, packets),
    ensures
        spec_holds_pieces(
            session.written(image, packets),
            file,
            session.after_packets(packets).received,
        ),
        session.after_packets(packets).state is Complete ==> session.written(image, packets)
            == file,
    decreases packets.len(),
{
    let size = session.info.size;
    let after = session.after_packets(packets);
    let out = session.written(image, packets);
    lemma_complete_exactly_when_all_received(session, packets);
    if packets.len() > 0 {
        let front = packets.drop_last();
        let last = packets.last();
        let before = session.after_packets(front);
        let held = session.written(image, front);
        assert(spec_faithful(file, front)) by {
            assert forall|at: int| 0 <= at < front.len() implies match #[trigger] spec_delivered_piece(
                file.len() as u64,
                front[at],
            ) {
                Some((index, data)) => data == spec_extract(file, index as nat),
                None => true,
            } by {
                assert(front[at] == packets[at]);
            }
        }
        lemma_complete_download_is_the_file(session, file, image, front);
        lemma_complete_exactly_when_all_received(session, front);
        match before.accepted(last) {
            Some((index, data)) => {
                assert(packets[packets.len() - 1] == last);
                assert(spec_delivered_piece(size, last) == Some((index, data)));
                assert(data == spec_extract(file, index as nat));
                lemma_extract_then_write(file, held, index as nat);
                assert(after.received == before.received.insert(index));
                assert(out == spec_write(held, index as nat, data));
                assert forall|other: u64, at: int|
                    #![trigger after.received.contains(other), out[at]]
                    after.received.contains(other) && spec_piece_offset(other as nat) <= at
                        < spec_piece_offset(other as nat) + spec_piece_len(
                        file.len(),
                        other as nat,
                    ) implies out[at] == file[at] by {
                    if other != index {
                        assert(before.received.contains(other));
                        assert(held[at] == file[at]);
                    }
                }
            },
            None => {
                assert(after == before);
                assert(out == held);
            },
        }
    }
    if after.state is Complete {
        lemma_complete_has_all(after);
        assert forall|at: int| 0 <= at < file.len() implies out[at] == file[at] by {
            let index = (at / (PIECE_SIZE as int)) as u64;
            assert(after.received.contains(index));
            assert(spec_piece_offset(index as nat) <= at < spec_piece_offset(index as nat)
                + spec_piece_len(file.len(), index as nat));
        }
        assert(out =~= file);
    }
}

/// A piece that is delivered a second time changes nothing: the session is
/// after the second delivery what it was after the first, so a repeated piece
/// neither completes the session early nor holds its completion back.
pub proof fn lemma_duplicate_delivery(session: DownloadView, packet: PacketView)
    requires
        session.wf(),
    ensures
        session.after_packet(packet).after_packet(packet) == session.after_packet(packet),
{
    let once = session.after_packet(packet);
    if session.accepted(packet) is Some {
        let piece = session.accepted(packet)->0;
        assert(once.received.insert(piece.0) =~= once.received);
    }
}

/// What a receiving session has after any run of packets: the pieces it had,
/// and the pieces that the packets deliver. It is complete exactly when those
/// are all the pieces of the file, however often and in whatever order they came.
pub proof fn lemma_complete_exactly_when_all_received(
    session: DownloadView,
    packets: Seq<PacketView>,
)
    requires
        session.wf(),
        session.state is Receiving,
    ensures
        session.after_packets(packets).wf(),
        session.after_packets(packets).id == session.id,
        session.after_packets(packets).info == session.info,
        session.after_packets(packets).received == session.received.union(
            spec_delivered_indices(session.info.size, packets),
        ),
        session.after_packets(packets).state is Complete || session.after_packets(packets).state
            is Receiving,
        session.after_packets(packets).state is Complete <==> session.received.union(
            spec_delivered_indices(session.info.size, packets),
        ).len() == session.piece_count(),
        session.after_packets(packets).state is Complete <==> session.received.union(
            spec_delivered_indices(session.info.size, packets),
        ) == spec_index_range(session.piece_count()),
    decreases packets.len(),
{
    let size = session.info.size;
    let after = session.after_packets(packets);
    let all = spec_index_range(session.piece_count());
    lemma_index_range(session.piece_count());
    if packets.len() == 0 {
        assert(spec_delivered_indices(size, packets) =~= Set::<u64>::empty());
        assert(session.received.union(spec_delivered_indices(size, packets))
            =~= session.received);
    } else {
        let front = packets.drop_last();
        let last = packets.last();
        let before = session.after_packets(front);
        lemma_complete_exactly_when_all_received(session, front);
        lemma_after_packet_wf(before, last);
        lemma_complete_has_all(before);
        let old_indices = spec_delivered_indices(size, front);
        let new_indices = spec_delivered_indices(size, packets);
        assert forall|index: u64|
            new_indices.contains(index) <==> (old_indices.contains(index) || spec_delivers(
                size,
                last,
                index,
            )) by {
            if new_indices.contains(index) {
                let at = choose|at: int|
                    0 <= at < packets.len() && #[trigger] spec_delivers(size, packets[at], index);
                if at < front.len() {
                    assert(front[at] == packets[at]);
                    assert(spec_delivers(size, front[at], index));
                }
            }
            if old_indices.contains(index) {
                let at = choose|at: int|
                    0 <= at < front.len() && #[trigger] spec_delivers(size, front[at], index);
                assert(front[at] == packets[at]);
                assert(spec_delivers(size, packets[at], index));
            }
            if spec_delivers(size, last, index) {
                assert(packets[packets.len() - 1] == last);
                assert(spec_delivers(size, packets[packets.len() - 1], index));
            }
        }
        assert(before.info == session.info);
        assert(after == before.after_packet(last));
        if before.state is Receiving {
            match before.accepted(last) {
                Some((index, data)) => {
                    assert(spec_delivers(size, last, index));
                    assert(after.received == before.received.insert(index));
                },
                None => {
                    assert(forall|index: u64| !spec_delivers(size, last, index));
                },
            }
        } else {
            assert(before.received == all);
            assert(after == before);
        }
        assert(after.received =~= session.received.union(new_indices));
    }
    lemma_complete_has_all(after);
    if after.received == all {
        lemma_received_bound(after);
    }
}

} // verus!
