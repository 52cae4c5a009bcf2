use p2p_transfer::packet::{Packet, PacketType, TorrentInfo};
use p2p_transfer::receive::{sentinel_offset, DownloadState, DownloadThread, ReceiveAction};
use p2p_transfer::wire::{decode_request, encode_delivery};

fn manifest(size: u64, peers: &[&str]) -> TorrentInfo {
    TorrentInfo {
        filename: "shared.bin".to_string(),
        created_on: "2024-01-01".to_string(),
        size,
        peers: peers.iter().map(|peer| peer.to_string()).collect(),
    }
}

fn packet(kind: PacketType, content: Vec<u8>) -> Packet {
    Packet {
        packet_type: kind,
        thread_id: 3,
        dest_ip: String::new(),
        from_ip: String::new(),
        content,
    }
}

fn delivery(index: u64, len: usize) -> Packet {
    packet(PacketType::PieceDelivery, encode_delivery(index, &vec![index as u8 + 1; len]))
}

fn confirm() -> Option<Packet> {
    Some(packet(PacketType::FileConfirm, Vec::new()))
}

fn receiving(size: u64) -> DownloadThread {
    let mut session = DownloadThread::new(3, manifest(size, &["a", "b"]));
    session.probe_packets();
    let active = session.notify_peers(&vec![confirm(), confirm()]);
    session.assign_pieces(active, "me:8081");
    session
}

fn offset_of(action: &ReceiveAction) -> Option<u64> {
    match action {
        ReceiveAction::Write { offset, .. } => Some(*offset),
        ReceiveAction::Ignored => None,
    }
}

#[test]
fn a_new_session_is_in_init() {
    let session = DownloadThread::new(3, manifest(1_200_000, &["a"]));
    assert_eq!(session.state(), DownloadState::Init);
    assert_eq!(session.id(), 3);
    assert_eq!(session.info().filename, "shared.bin");
    assert_eq!(session.expected_pieces(), 3);
    assert_eq!(session.received_pieces(), 0);
    assert!(!session.is_complete());
    assert!(!session.has_piece(0));
}

#[test]
fn the_session_walks_through_its_states() {
    let mut session = DownloadThread::new(3, manifest(1_200_000, &["a", "b"]));
    let probes = session.probe_packets();
    assert_eq!(session.state(), DownloadState::Discovering);
    assert_eq!(probes.len(), 2);
    assert_eq!(probes[0].packet_type, PacketType::FileCheck);
    assert_eq!(probes[0].thread_id, 3);
    assert_eq!(probes[0].dest_ip, "a:8080");
    assert_eq!(probes[1].dest_ip, "b:8080");
    assert_eq!(probes[0].content, b"shared.bin".to_vec());

    let active = session.notify_peers(&vec![None, confirm()]);
    assert_eq!(active, vec!["b".to_string()]);
    assert_eq!(session.state(), DownloadState::Scheduling);

    let schedule = session.assign_pieces(active, "me:8081");
    assert_eq!(session.state(), DownloadState::Receiving);
    assert_eq!(schedule.assigned, 1);
    assert_eq!(schedule.unassigned, 2);
    assert_eq!(schedule.packets.len(), 2);
    assert_eq!(schedule.packets[0].dest_ip, "b:8080");
    assert_eq!(schedule.packets[0].thread_id, 3);
    let request = decode_request(&schedule.packets[0].content).unwrap();
    assert_eq!(request.dest_ip, "me:8081");
    assert_eq!(request.filename, "shared.bin");
    assert_eq!(request.location, 0);
    assert_eq!(schedule.packets[1].packet_type, PacketType::DownloadComplete);

    session.receive(&delivery(0, 512_000));
    session.receive(&delivery(1, 512_000));
    assert_eq!(session.state(), DownloadState::Receiving);
    session.receive(&delivery(2, 176_000));
    assert_eq!(session.state(), DownloadState::Complete);
    assert!(session.is_complete());
}

#[test]
fn no_confirmed_peer_fails_the_session() {
    let mut session = DownloadThread::new(3, manifest(1_200_000, &["a", "b"]));
    session.probe_packets();
    let denied = Some(packet(PacketType::FileDeny, Vec::new()));
    let active = session.notify_peers(&vec![denied, None]);
    assert!(active.is_empty());
    assert_eq!(session.state(), DownloadState::Failed);
}

#[test]
fn a_manifest_without_peers_fails_the_session() {
    let mut session = DownloadThread::new(3, manifest(1_200_000, &[]));
    assert!(session.probe_packets().is_empty());
    assert!(session.notify_peers(&Vec::new()).is_empty());
    assert_eq!(session.state(), DownloadState::Failed);
}

#[test]
fn scheduling_without_peers_fails_the_session() {
    let mut session = DownloadThread::new(3, manifest(1_200_000, &["a"]));
    session.probe_packets();
    session.notify_peers(&vec![confirm()]);
    let schedule = session.assign_pieces(Vec::new(), "me:8081");
    assert!(schedule.packets.is_empty());
    assert_eq!(schedule.assigned, 0);
    assert_eq!(schedule.unassigned, 3);
    assert_eq!(session.state(), DownloadState::Failed);
}

#[test]
fn steps_out_of_turn_change_nothing() {
    let mut session = DownloadThread::new(3, manifest(1_200_000, &["a"]));
    assert!(session.notify_peers(&vec![confirm()]).is_empty());
    assert_eq!(session.state(), DownloadState::Init);
    let schedule = session.assign_pieces(vec!["a".to_string()], "me:8081");
    assert!(schedule.packets.is_empty());
    assert_eq!(schedule.assigned, 0);
    assert_eq!(schedule.unassigned, 0);
    assert_eq!(session.state(), DownloadState::Init);
    assert_eq!(offset_of(&session.receive(&delivery(0, 10))), None);
    assert_eq!(session.state(), DownloadState::Init);
    assert_eq!(session.received_pieces(), 0);

    assert_eq!(session.probe_packets().len(), 1);
    assert!(session.probe_packets().is_empty());
    assert_eq!(session.state(), DownloadState::Discovering);
}

#[test]
fn an_empty_file_is_complete_once_scheduled() {
    let mut session = DownloadThread::new(3, manifest(0, &["a"]));
    session.probe_packets();
    let active = session.notify_peers(&vec![confirm()]);
    let schedule = session.assign_pieces(active, "me:8081");
    assert_eq!(schedule.assigned, 0);
    assert_eq!(schedule.unassigned, 0);
    assert_eq!(session.state(), DownloadState::Complete);
    assert_eq!(sentinel_offset(0), None);
}

#[test]
fn a_delivery_is_written_at_the_offset_of_its_index() {
    let mut session = receiving(1_200_000);
    match session.receive(&delivery(1, 512_000)) {
        ReceiveAction::Write { offset, data } => {
            assert_eq!(offset, 512_000);
            assert_eq!(data, vec![2u8; 512_000]);
        }
        ReceiveAction::Ignored => panic!("the delivery was ignored"),
    }
    match session.receive(&delivery(2, 176_000)) {
        ReceiveAction::Write { offset, data } => {
            assert_eq!(offset, 1_024_000);
            assert_eq!(data.len(), 176_000);
        }
        ReceiveAction::Ignored => panic!("the delivery was ignored"),
    }
    assert!(session.has_piece(1));
    assert!(session.has_piece(2));
    assert!(!session.has_piece(0));
    assert_eq!(session.received_pieces(), 2);
}

#[test]
fn complete_exactly_when_all_distinct_pieces_arrived() {
    let mut session = receiving(1_200_000);
    for index in [0u64, 1, 1, 0, 0, 1] {
        let len = 512_000;
        assert!(offset_of(&session.receive(&delivery(index, len))).is_some());
        assert_eq!(session.state(), DownloadState::Receiving);
    }
    assert_eq!(session.received_pieces(), 2);
    assert!(offset_of(&session.receive(&delivery(2, 176_000))).is_some());
    assert_eq!(session.state(), DownloadState::Complete);
    assert_eq!(session.received_pieces(), 3);
}

#[test]
fn a_repeated_piece_does_not_complete_early() {
    let mut session = receiving(2 * 512_000);
    session.receive(&delivery(0, 512_000));
    session.receive(&delivery(0, 512_000));
    assert_eq!(session.received_pieces(), 1);
    assert_eq!(session.state(), DownloadState::Receiving);
    session.receive(&delivery(1, 512_000));
    assert_eq!(session.state(), DownloadState::Complete);
}

#[test]
fn pieces_may_arrive_in_any_order() {
    let mut session = receiving(1_200_000);
    session.receive(&delivery(2, 176_000));
    session.receive(&delivery(0, 512_000));
    assert!(!session.is_complete());
    session.receive(&delivery(1, 512_000));
    assert!(session.is_complete());
}

#[test]
fn packets_of_other_types_are_ignored() {
    let mut session = receiving(1_200_000);
    for kind in [
        PacketType::Unset,
        PacketType::FileCheck,
        PacketType::FileConfirm,
        PacketType::FileDeny,
        PacketType::PieceRequest,
        PacketType::RequestDone,
        PacketType::DownloadComplete,
    ] {
        let action = session.receive(&packet(kind, encode_delivery(0, &[1, 2, 3])));
        assert_eq!(offset_of(&action), None);
    }
    assert_eq!(session.received_pieces(), 0);
    assert_eq!(session.state(), DownloadState::Receiving);
}

#[test]
fn a_malformed_delivery_is_ignored() {
    let mut session = receiving(1_200_000);
    let short = packet(PacketType::PieceDelivery, vec![0, 0, 0]);
    assert_eq!(offset_of(&session.receive(&short)), None);
    let empty = packet(PacketType::PieceDelivery, Vec::new());
    assert_eq!(offset_of(&session.receive(&empty)), None);
    assert_eq!(session.received_pieces(), 0);
}

#[test]
fn a_delivery_that_does_not_fit_the_file_is_ignored() {
    let mut session = receiving(1_200_000);
    assert_eq!(offset_of(&session.receive(&delivery(3, 1))), None);
    assert_eq!(offset_of(&session.receive(&delivery(u64::MAX, 1))), None);
    assert_eq!(offset_of(&session.receive(&delivery(2, 176_001))), None);
    assert_eq!(offset_of(&session.receive(&delivery(0, 512_001))), None);
    assert_eq!(session.received_pieces(), 0);
    assert_eq!(session.state(), DownloadState::Receiving);
    assert_eq!(offset_of(&session.receive(&delivery(2, 176_000))), Some(1_024_000));
}

#[test]
fn nothing_is_taken_in_after_completion() {
    let mut session = receiving(512_000);
    assert_eq!(offset_of(&session.receive(&delivery(0, 512_000))), Some(0));
    assert!(session.is_complete());
    assert_eq!(offset_of(&session.receive(&delivery(0, 512_000))), None);
    assert!(session.is_complete());
    assert_eq!(session.received_pieces(), 1);
}

#[test]
fn a_disk_failure_fails_the_session() {
    let mut session = receiving(1_200_000);
    session.receive(&delivery(0, 512_000));
    session.fail();
    assert_eq!(session.state(), DownloadState::Failed);
    assert_eq!(offset_of(&session.receive(&delivery(1, 512_000))), None);
    assert_eq!(session.state(), DownloadState::Failed);
}

#[test]
fn the_sentinel_is_the_last_byte_of_the_file() {
    assert_eq!(sentinel_offset(1_200_000), Some(1_199_999));
    assert_eq!(sentinel_offset(1), Some(0));
    assert_eq!(sentinel_offset(u64::MAX), Some(u64::MAX - 1));
}

fn names(list: &[&str]) -> Vec<String> {
    list.iter().map(|name| name.to_string()).collect()
}

fn requested(schedule: &p2p_transfer::schedule::Schedule) -> Vec<(String, u64)> {
    schedule
        .packets
        .iter()
        .filter(|packet| packet.packet_type == PacketType::PieceRequest)
        .map(|packet| {
            (packet.dest_ip.clone(), decode_request(&packet.content).unwrap().location)
        })
        .collect()
}

#[test]
fn a_further_round_asks_for_the_lowest_missing_pieces() {
    let mut session = receiving(6 * 512_000);
    session.receive(&delivery(0, 512_000));
    session.receive(&delivery(3, 512_000));
    let round = session.request_missing(&names(&["a", "b"]), "me:8081");
    assert_eq!(requested(&round), vec![("a:8080".to_string(), 1), ("b:8080".to_string(), 2)]);
    assert_eq!(round.assigned, 2);
    assert_eq!(round.unassigned, 2);
    assert_eq!(round.packets.len(), 4);
    assert_eq!(round.packets[2].packet_type, PacketType::DownloadComplete);
    assert_eq!(round.packets[2].dest_ip, "a:8080");
    assert_eq!(round.packets[3].packet_type, PacketType::DownloadComplete);
    assert_eq!(round.packets[3].dest_ip, "b:8080");
    assert_eq!(session.state(), DownloadState::Receiving);
    let request = decode_request(&round.packets[0].content).unwrap();
    assert_eq!(request.dest_ip, "me:8081");
    assert_eq!(request.filename, "shared.bin");
    assert_eq!(round.packets[0].thread_id, 3);
}

#[test]
fn a_further_round_asks_again_for_a_lost_piece() {
    let mut session = receiving(2 * 512_000);
    session.receive(&delivery(1, 512_000));
    let round = session.request_missing(&names(&["a", "b", "c"]), "me:8081");
    assert_eq!(requested(&round), vec![("a:8080".to_string(), 0)]);
    assert_eq!(round.assigned, 1);
    assert_eq!(round.unassigned, 0);
    assert_eq!(round.packets.len(), 4);
}

#[test]
fn rounds_with_one_peer_finish_the_download() {
    let mut session = receiving(1_200_000);
    let peers = names(&["a"]);
    let mut rounds = 0;
    while session.state() == DownloadState::Receiving {
        let round = session.request_missing(&peers, "me:8081");
        assert_eq!(round.assigned, 1);
        assert_eq!(round.unassigned, 2 - rounds);
        for (_, piece) in requested(&round) {
            let len = if piece == 2 { 176_000 } else { 512_000 };
            session.receive(&delivery(piece, len));
        }
        rounds += 1;
    }
    assert_eq!(rounds, 3);
    assert_eq!(session.state(), DownloadState::Complete);
}

#[test]
fn a_further_round_without_peers_fails_the_session() {
    let mut session = receiving(1_200_000);
    let round = session.request_missing(&Vec::new(), "me:8081");
    assert!(round.packets.is_empty());
    assert_eq!(round.assigned, 0);
    assert_eq!(round.unassigned, 3);
    assert_eq!(session.state(), DownloadState::Failed);
}

#[test]
fn a_further_round_out_of_turn_changes_nothing() {
    let mut fresh = DownloadThread::new(3, manifest(1_200_000, &["a"]));
    let round = fresh.request_missing(&names(&["a"]), "me:8081");
    assert!(round.packets.is_empty());
    assert_eq!(round.assigned, 0);
    assert_eq!(round.unassigned, 0);
    assert_eq!(fresh.state(), DownloadState::Init);

    let mut done = receiving(512_000);
    done.receive(&delivery(0, 512_000));
    let round = done.request_missing(&Vec::new(), "me:8081");
    assert!(round.packets.is_empty());
    assert_eq!(done.state(), DownloadState::Complete);
}
