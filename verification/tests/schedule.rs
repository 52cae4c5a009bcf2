use p2p_transfer::packet::{PacketType, TorrentInfo};
use p2p_transfer::schedule::{round_packets, schedule_pieces};
use p2p_transfer::wire::decode_request;

fn manifest(size: u64) -> TorrentInfo {
    TorrentInfo {
        filename: "shared.bin".to_string(),
        created_on: "2024-01-01".to_string(),
        size,
        peers: vec!["A".to_string(), "B".to_string(), "C".to_string(), "D".to_string()],
    }
}

fn names(list: &[&str]) -> Vec<String> {
    list.iter().map(|name| name.to_string()).collect()
}

#[test]
fn three_peers_five_pieces() {
    let info = manifest(5 * 512_000);
    let schedule = schedule_pieces(9, &info, &names(&["A", "B", "C"]), "me:8081");
    assert_eq!(schedule.assigned, 3);
    assert_eq!(schedule.unassigned, 2);
    assert_eq!(schedule.packets.len(), 6);
    let expected = ["A:8080", "B:8080", "C:8080"];
    for piece in 0..3 {
        let packet = &schedule.packets[piece];
        assert_eq!(packet.packet_type, PacketType::PieceRequest);
        assert_eq!(packet.thread_id, 9);
        assert_eq!(packet.dest_ip, expected[piece]);
        assert_eq!(packet.from_ip, "");
        let request = decode_request(&packet.content).unwrap();
        assert_eq!(request.location, piece as u64);
        assert_eq!(request.filename, "shared.bin");
        assert_eq!(request.dest_ip, "me:8081");
    }
    for at in 0..3 {
        let packet = &schedule.packets[3 + at];
        assert_eq!(packet.packet_type, PacketType::DownloadComplete);
        assert_eq!(packet.thread_id, 9);
        assert_eq!(packet.dest_ip, expected[at]);
        assert_eq!(packet.from_ip, "");
        assert!(packet.content.is_empty());
    }
}

#[test]
fn more_peers_than_pieces_asks_for_every_piece() {
    let info = manifest(1_200_000);
    let schedule = schedule_pieces(1, &info, &names(&["A", "B", "C", "D"]), "me:8081");
    assert_eq!(schedule.assigned, 3);
    assert_eq!(schedule.unassigned, 0);
    assert_eq!(schedule.packets.len(), 7);
    let requests: Vec<u64> = schedule.packets[..3]
        .iter()
        .map(|packet| decode_request(&packet.content).unwrap().location)
        .collect();
    assert_eq!(requests, vec![0, 1, 2]);
    let notified: Vec<&str> =
        schedule.packets[3..].iter().map(|packet| packet.dest_ip.as_str()).collect();
    assert_eq!(notified, vec!["A:8080", "B:8080", "C:8080", "D:8080"]);
}

#[test]
fn as_many_peers_as_pieces() {
    let info = manifest(2 * 512_000);
    let schedule = schedule_pieces(1, &info, &names(&["A", "B"]), "me:8081");
    assert_eq!(schedule.assigned, 2);
    assert_eq!(schedule.unassigned, 0);
    assert_eq!(schedule.packets.len(), 4);
}

#[test]
fn one_peer_gets_the_first_piece_only() {
    let info = manifest(10 * 512_000 + 1);
    let schedule = schedule_pieces(1, &info, &names(&["A"]), "me:8081");
    assert_eq!(schedule.assigned, 1);
    assert_eq!(schedule.unassigned, 10);
    assert_eq!(schedule.packets.len(), 2);
    assert_eq!(schedule.packets[0].packet_type, PacketType::PieceRequest);
    assert_eq!(decode_request(&schedule.packets[0].content).unwrap().location, 0);
    assert_eq!(schedule.packets[1].packet_type, PacketType::DownloadComplete);
}

#[test]
fn no_peer_leaves_every_piece_unassigned() {
    let info = manifest(1_200_000);
    let schedule = schedule_pieces(1, &info, &Vec::new(), "me:8081");
    assert!(schedule.packets.is_empty());
    assert_eq!(schedule.assigned, 0);
    assert_eq!(schedule.unassigned, 3);
}

#[test]
fn an_empty_file_needs_no_request() {
    let info = manifest(0);
    let schedule = schedule_pieces(1, &info, &names(&["A", "B"]), "me:8081");
    assert_eq!(schedule.assigned, 0);
    assert_eq!(schedule.unassigned, 0);
    assert_eq!(schedule.packets.len(), 2);
    assert_eq!(schedule.packets[0].packet_type, PacketType::DownloadComplete);
    assert_eq!(schedule.packets[1].packet_type, PacketType::DownloadComplete);
}

#[test]
fn the_schedule_is_the_same_every_time() {
    let info = manifest(5 * 512_000);
    let first = schedule_pieces(9, &info, &names(&["A", "B", "C"]), "me:8081");
    let second = schedule_pieces(9, &info, &names(&["A", "B", "C"]), "me:8081");
    assert_eq!(first.packets.len(), second.packets.len());
    for (left, right) in first.packets.iter().zip(second.packets.iter()) {
        assert_eq!(left.packet_type, right.packet_type);
        assert_eq!(left.dest_ip, right.dest_ip);
        assert_eq!(left.content, right.content);
    }
}

#[test]
fn a_round_asks_for_the_wanted_pieces_in_turn() {
    let packets = round_packets(4, "f.bin", &names(&["A", "B"]), "me:8081", &vec![7, 9, 11]);
    assert_eq!(packets.len(), 5);
    let expected = [("A:8080", 7u64), ("B:8080", 9), ("A:8080", 11)];
    for (at, (peer, piece)) in expected.iter().enumerate() {
        assert_eq!(packets[at].packet_type, PacketType::PieceRequest);
        assert_eq!(packets[at].thread_id, 4);
        assert_eq!(packets[at].dest_ip, *peer);
        let request = decode_request(&packets[at].content).unwrap();
        assert_eq!(request.location, *piece);
        assert_eq!(request.filename, "f.bin");
        assert_eq!(request.dest_ip, "me:8081");
    }
    assert_eq!(packets[3].packet_type, PacketType::DownloadComplete);
    assert_eq!(packets[3].dest_ip, "A:8080");
    assert_eq!(packets[4].packet_type, PacketType::DownloadComplete);
    assert_eq!(packets[4].dest_ip, "B:8080");
}

#[test]
fn a_round_without_peers_sends_nothing() {
    assert!(round_packets(4, "f.bin", &Vec::new(), "me:8081", &vec![1, 2]).is_empty());
}

#[test]
fn a_round_without_wanted_pieces_only_ends_the_round() {
    let packets = round_packets(4, "f.bin", &names(&["A", "B"]), "me:8081", &Vec::new());
    assert_eq!(packets.len(), 2);
    assert_eq!(packets[0].packet_type, PacketType::DownloadComplete);
    assert_eq!(packets[1].packet_type, PacketType::DownloadComplete);
}
