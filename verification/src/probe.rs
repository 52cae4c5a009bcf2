//! The peer prober: which of the declared peers serve the file right now.
//!
//! Every declared peer is sent one `FileCheck` packet that names the file. A
//! peer is confirmed if its answer is a `FileConfirm`; a denial, any other
//! answer, or no answer at all leaves it out. Each peer is judged by its own
//! answer alone, and nobody is asked twice.

use crate::packet::{Packet, PacketType, PacketView};
use crate::transport::{peer_address, spec_address, TCP_PORT};
use vstd::prelude::*;
use vstd::utf8::encode_utf8;

verus! {

/// The packet that asks `peer` whether it serves `filename`, on behalf of
/// session `id`.
pub open spec fn spec_probe(id: u64, filename: Seq<char>, peer: Seq<char>) -> PacketView {
    PacketView {
        packet_type: PacketType::FileCheck,
        thread_id: id,
        dest_ip: spec_address(peer, TCP_PORT),
        from_ip: Seq::empty(),
        content: encode_utf8(filename),
    }
}

/// The probes of a whole peer list, one for each peer, in the list's order.
pub open spec fn spec_probes(id: u64, filename: Seq<char>, peers: Seq<Seq<char>>) -> Seq<
    PacketView,
> {
    Seq::new(peers.len(), |at: int| spec_probe(id, filename, peers[at]))
}

/// Whether an answer, or its absence, confirms the peer.
pub open spec fn spec_confirms(reply: Option<PacketView>) -> bool {
    reply matches Some(packet) && packet.packet_type == PacketType::FileConfirm
}

/// Whether the peer at position `at` was confirmed: it has an answer of its
/// own, and that answer confirms.
pub open spec fn spec_peer_confirmed(replies: Seq<Option<PacketView>>, at: int) -> bool {
    0 <= at < replies.len() && spec_confirms(replies[at])
}

/// The confirmed peers among the first `count` declared ones, in declaration order.
pub open spec fn spec_confirmed_among(
    peers: Seq<Seq<char>>,
    replies: Seq<Option<PacketView>>,
    count: nat,
) -> Seq<Seq<char>>
    decreases count,
{
    if count == 0 || count > peers.len() {
        Seq::empty()
    } else {
        let before = spec_confirmed_among(peers, replies, (count - 1) as nat);
        if spec_peer_confirmed(replies, count - 1) {
            before.push(peers[count - 1])
        } else {
            before
        }
    }
}

/// The confirmed peers: the declared peers whose own answer is a `FileConfirm`,
/// in declaration order. `replies[at]` is the answer of `peers[at]`.
pub open spec fn spec_confirmed(peers: Seq<Seq<char>>, replies: Seq<Option<PacketView>>) -> Seq<
    Seq<char>,
> {
    spec_confirmed_among(peers, replies, peers.len())
}

/// Builds the packet that asks `peer` whether it serves `filename`.
pub fn probe_packet(id: u64, filename: &str, peer: &str) -> (packet: Packet)
    ensures
        packet@ == spec_probe(id, filename@, peer@),
{
    Packet {
        packet_type: PacketType::FileCheck,
        thread_id: id,
        dest_ip: peer_address(peer, TCP_PORT),
        from_ip: String::new(),
        content: vstd::slice::slice_to_vec(filename.as_bytes()),
    }
}

/// Builds one probe for every declared peer, in declaration order.
pub fn probe_packets(id: u64, filename: &str, peers: &Vec<String>) -> (packets: Vec<Packet>)
    ensures
        packets.deep_view() == spec_probes(id, filename@, peers.deep_view()),
{
    let mut packets: Vec<Packet> = Vec::new();
    let mut at: usize = 0;
    while at < peers.len()
        invariant
            at <= peers.len(),
            packets.len() == at,
            forall|k: int| 0 <= k < at ==> packets[k]@ == spec_probe(id, filename@, peers[k]@),
        decreases peers.len() - at,
    {
        packets.push(probe_packet(id, filename, peers[at].as_str()));
        at += 1;
    }
    assert(packets.deep_view() =~= spec_probes(id, filename@, peers.deep_view()));
    packets
}

/// Whether an answer confirms the peer that gave it. No answer confirms nothing.
pub fn confirms(reply: &Option<Packet>) -> (confirmed: bool)
    ensures
        confirmed == spec_confirms(reply.deep_view()),
{
    match reply {
        Some(packet) => packet.packet_type == PacketType::FileConfirm,
        None => false,
    }
}

/// Picks the confirmed peers out of the declared ones.
///
/// `replies[at]` is what `peers[at]` answered, or `None` where it gave no
/// answer in time or could not be reached; a peer without an entry counts as
/// unanswered. The result holds exactly the peers whose own answer is a
/// `FileConfirm`, in declaration order.
pub fn confirmed_peers(peers: &Vec<String>, replies: &Vec<Option<Packet>>) -> (active: Vec<String>)
    ensures
        active.deep_view() == spec_confirmed(peers.deep_view(), replies.deep_view()),
{
    let mut active: Vec<String> = Vec::new();
    let mut at: usize = 0;
    while at < peers.len()
        invariant
            at <= peers.len(),
            active.deep_view() == spec_confirmed_among(
                peers.deep_view(),
                replies.deep_view(),
                at as nat,
            ),
        decreases peers.len() - at,
    {
        let ghost before = active.deep_view();
        if at < replies.len() && confirms(&replies[at]) {
            active.push(peers[at].clone());
            assert(active.deep_view() =~= before.push(peers.deep_view()[at as int]));
        }
        at += 1;
    }
    active
}

/// The confirmed peers are exactly the declared peers that answered with a
/// `FileConfirm`: every such peer is among them, and everyone among them is
/// such a peer.
pub proof fn lemma_confirmed_exact(peers: Seq<Seq<char>>, replies: Seq<Option<PacketView>>)
    ensures
        forall|at: int|
            0 <= at < peers.len() && #[trigger] spec_peer_confirmed(replies, at) ==> spec_confirmed(
                peers,
                replies,
            ).contains(peers[at]),
        forall|peer: Seq<char>| #[trigger]
            spec_confirmed(peers, replies).contains(peer) ==> exists|at: int|
                0 <= at < peers.len() && #[trigger] spec_peer_confirmed(replies, at) && peers[at]
                    == peer,
        spec_confirmed(peers, replies).len() <= peers.len(),
{
    lemma_confirmed_among(peers, replies, peers.len());
}

proof fn lemma_confirmed_among(
    peers: Seq<Seq<char>>,
    replies: Seq<Option<PacketView>>,
    count: nat,
)
    requires
        count <= peers.len(),
    ensures
        forall|at: int|
            0 <= at < count && #[trigger] spec_peer_confirmed(replies, at)
                ==> spec_confirmed_among(peers, replies, count).contains(peers[at]),
        forall|peer: Seq<char>| #[trigger]
            spec_confirmed_among(peers, replies, count).contains(peer) ==> exists|at: int|
                0 <= at < count && #[trigger] spec_peer_confirmed(replies, at) && peers[at] == peer,
        spec_confirmed_among(peers, replies, count).len() <= count,
    decreases count,
{
    if count > 0 {
        let before = spec_confirmed_among(peers, replies, (count - 1) as nat);
        let now = spec_confirmed_among(peers, replies, count);
        lemma_confirmed_among(peers, replies, (count - 1) as nat);
        if spec_peer_confirmed(replies, count - 1) {
            assert(now == before.push(peers[count - 1]));
            assert(now[now.len() - 1] == peers[count - 1]);
            assert forall|at: int|
                0 <= at < count && #[trigger] spec_peer_confirmed(replies, at) implies now.contains(
                peers[at],
            ) by {
                if at < count - 1 {
                    let found = choose|k: int| 0 <= k < before.len() && before[k] == peers[at];
                    assert(now[found] == peers[at]);
                }
            }
            assert forall|peer: Seq<char>| #[trigger] now.contains(peer) implies exists|at: int|
                0 <= at < count && #[trigger] spec_peer_confirmed(replies, at) && peers[at]
                    == peer by {
                let found = choose|k: int| 0 <= k < now.len() && now[k] == peer;
                if found < before.len() {
                    assert(before[found] == peer);
                    assert(before.contains(peer));
                } else {
                    assert(spec_peer_confirmed(replies, count - 1));
                }
            }
        }
    }
}

} // verus!
