use p2p_transfer::packet::{Packet, PacketType, PieceRequest, TorrentInfo};
use p2p_transfer::piece::PieceError;
use p2p_transfer::send::{SeedState, SeedThread};
use p2p_transfer::wire::{decode_delivery, encode_request};

fn manifest() -> TorrentInfo {
    TorrentInfo {
        filename: "shared.bin".to_string(),
        created_on: "2024-01-01".to_string(),
        size: 1_200_000,
        peers: Vec::new(),
    }
}

fn packet(kind: PacketType, content: Vec<u8>) -> Packet {
    Packet {
        packet_type: kind,
        thread_id: 5,
        dest_ip: "seed:8080".to_string(),
        from_ip: "asker:40000".to_string(),
        content,
    }
}

fn request(dest: &str, location: u64) -> PieceRequest {
    PieceRequest { dest_ip: dest.to_string(), filename: "shared.bin".to_string(), location }
}

fn request_packet(dest: &str, location: u64) -> Packet {
    packet(PacketType::PieceRequest, encode_request(&request(dest, location)))
}

fn patterned(len: usize) -> Vec<u8> {
    (0..len).map(|at| (at % 253) as u8).collect()
}

#[test]
fn a_new_seed_is_idle() {
    let session = SeedThread::new(5, manifest());
    assert_eq!(session.state(), SeedState::Idle);
    assert_eq!(session.id(), 5);
    assert_eq!(session.info().size, 1_200_000);
    assert_eq!(session.pending_requests(), 0);
}

#[test]
fn requests_are_collected_until_the_round_ends() {
    let mut session = SeedThread::new(5, manifest());
    assert!(session.get_assignments(&request_packet("x:8081", 2)).is_none());
    assert_eq!(session.state(), SeedState::CollectingAssignments);
    assert!(session.get_assignments(&request_packet("y:8081", 0)).is_none());
    assert_eq!(session.pending_requests(), 2);
    let round = session.get_assignments(&packet(PacketType::RequestDone, Vec::new())).unwrap();
    assert_eq!(session.state(), SeedState::Serving);
    assert_eq!(session.pending_requests(), 0);
    assert_eq!(round.len(), 2);
    assert_eq!(round[0].dest_ip, "x:8081");
    assert_eq!(round[0].location, 2);
    assert_eq!(round[0].filename, "shared.bin");
    assert_eq!(round[1].dest_ip, "y:8081");
    assert_eq!(round[1].location, 0);
}

#[test]
fn the_notice_of_the_scheduler_ends_the_round_too() {
    let mut session = SeedThread::new(5, manifest());
    session.get_assignments(&request_packet("x:8081", 1));
    let round = session.get_assignments(&packet(PacketType::DownloadComplete, Vec::new()));
    assert_eq!(round.unwrap().len(), 1);
    assert_eq!(session.state(), SeedState::Serving);
}

#[test]
fn the_end_of_a_round_that_never_began_changes_nothing() {
    let mut session = SeedThread::new(5, manifest());
    assert!(session.get_assignments(&packet(PacketType::RequestDone, Vec::new())).is_none());
    assert_eq!(session.state(), SeedState::Idle);
    session.get_assignments(&request_packet("x:8081", 1));
    session.get_assignments(&packet(PacketType::RequestDone, Vec::new()));
    assert!(session.get_assignments(&packet(PacketType::RequestDone, Vec::new())).is_none());
    assert_eq!(session.state(), SeedState::Serving);
}

#[test]
fn a_further_round_starts_with_a_further_request() {
    let mut session = SeedThread::new(5, manifest());
    session.get_assignments(&request_packet("x:8081", 0));
    let first = session.get_assignments(&packet(PacketType::RequestDone, Vec::new())).unwrap();
    assert_eq!(first.len(), 1);
    session.get_assignments(&request_packet("x:8081", 1));
    assert_eq!(session.state(), SeedState::CollectingAssignments);
    let second = session.get_assignments(&packet(PacketType::RequestDone, Vec::new())).unwrap();
    assert_eq!(second.len(), 1);
    assert_eq!(second[0].location, 1);
}

#[test]
fn a_malformed_request_is_dropped() {
    let mut session = SeedThread::new(5, manifest());
    assert!(session.get_assignments(&packet(PacketType::PieceRequest, vec![1, 2, 3])).is_none());
    assert_eq!(session.state(), SeedState::Idle);
    assert_eq!(session.pending_requests(), 0);
    session.get_assignments(&request_packet("x:8081", 0));
    session.get_assignments(&packet(PacketType::PieceRequest, vec![0xFF; 40]));
    assert_eq!(session.pending_requests(), 1);
    assert_eq!(session.state(), SeedState::CollectingAssignments);
}

#[test]
fn other_packets_are_ignored_by_the_collector() {
    let mut session = SeedThread::new(5, manifest());
    session.get_assignments(&request_packet("x:8081", 0));
    for kind in [
        PacketType::Unset,
        PacketType::FileCheck,
        PacketType::FileConfirm,
        PacketType::FileDeny,
        PacketType::PieceDelivery,
    ] {
        let content = encode_request(&request("z:8081", 7));
        assert!(session.get_assignments(&packet(kind, content)).is_none());
    }
    assert_eq!(session.pending_requests(), 1);
    assert_eq!(session.state(), SeedState::CollectingAssignments);
}

#[test]
fn a_check_for_the_seeded_file_is_confirmed() {
    let session = SeedThread::new(5, manifest());
    let mut check = packet(PacketType::FileCheck, b"shared.bin".to_vec());
    check.thread_id = 77;
    let reply = session.answer_check(&check).unwrap();
    assert_eq!(reply.packet_type, PacketType::FileConfirm);
    assert_eq!(reply.thread_id, 77);
    assert_eq!(reply.dest_ip, "asker:40000");
    assert_eq!(reply.from_ip, "");
    assert!(reply.content.is_empty());
}

#[test]
fn a_check_for_another_file_is_denied() {
    let session = SeedThread::new(5, manifest());
    let reply = session.answer_check(&packet(PacketType::FileCheck, b"other.bin".to_vec()));
    assert_eq!(reply.unwrap().packet_type, PacketType::FileDeny);
    let reply = session.answer_check(&packet(PacketType::FileCheck, b"shared.bi".to_vec()));
    assert_eq!(reply.unwrap().packet_type, PacketType::FileDeny);
    let reply = session.answer_check(&packet(PacketType::FileCheck, Vec::new()));
    assert_eq!(reply.unwrap().packet_type, PacketType::FileDeny);
}

#[test]
fn only_a_check_is_answered() {
    let session = SeedThread::new(5, manifest());
    for kind in [
        PacketType::Unset,
        PacketType::FileConfirm,
        PacketType::FileDeny,
        PacketType::PieceRequest,
        PacketType::PieceDelivery,
        PacketType::RequestDone,
        PacketType::DownloadComplete,
    ] {
        assert!(session.answer_check(&packet(kind, b"shared.bin".to_vec())).is_none());
    }
}

#[test]
fn send_piece_delivers_the_requested_piece_to_the_requester() {
    let session = SeedThread::new(5, manifest());
    let file = patterned(1_200_000);
    let packet = session.send_piece(&request("asker:8081", 1), &file).unwrap();
    assert_eq!(packet.packet_type, PacketType::PieceDelivery);
    assert_eq!(packet.thread_id, 5);
    assert_eq!(packet.dest_ip, "asker:8081");
    assert_eq!(packet.from_ip, "");
    let (index, data) = decode_delivery(&packet.content).unwrap();
    assert_eq!(index, 1);
    assert_eq!(&data[..], &file[512_000..1_024_000]);
}

#[test]
fn send_piece_does_not_read_past_the_end_of_the_file() {
    let session = SeedThread::new(5, manifest());
    let file = patterned(1_200_000);
    let packet = session.send_piece(&request("asker:8081", 2), &file).unwrap();
    let (index, data) = decode_delivery(&packet.content).unwrap();
    assert_eq!(index, 2);
    assert_eq!(data.len(), 176_000);
    assert_eq!(&data[..], &file[1_024_000..]);
}

#[test]
fn send_piece_refuses_a_piece_that_the_file_does_not_have() {
    let session = SeedThread::new(5, manifest());
    let file = patterned(1_200_000);
    let result = session.send_piece(&request("asker:8081", 3), &file);
    assert_eq!(result.err(), Some(PieceError::OutOfRange));
    let result = session.send_piece(&request("asker:8081", 0), &[]);
    assert_eq!(result.err(), Some(PieceError::OutOfRange));
}

#[test]
fn a_failed_seed_takes_in_nothing_and_answers_nothing() {
    let mut session = SeedThread::new(5, manifest());
    session.get_assignments(&request_packet("x:8081", 0));
    session.fail();
    assert_eq!(session.state(), SeedState::Failed);
    assert_eq!(session.pending_requests(), 0);
    assert!(session.get_assignments(&request_packet("x:8081", 1)).is_none());
    assert!(session.get_assignments(&packet(PacketType::RequestDone, Vec::new())).is_none());
    assert!(session.answer_check(&packet(PacketType::FileCheck, b"shared.bin".to_vec())).is_none());
    assert_eq!(session.state(), SeedState::Failed);
    assert_eq!(session.pending_requests(), 0);
}
