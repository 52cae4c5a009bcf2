use p2p_transfer::packet::{Packet, PacketType};
use p2p_transfer::router::{classify, Delivery, Route, Router, SessionKind};

fn packet(kind: PacketType, id: u64) -> Packet {
    Packet {
        packet_type: kind,
        thread_id: id,
        dest_ip: String::new(),
        from_ip: String::new(),
        content: Vec::new(),
    }
}

/// Downloads under the even ids 0 to 14, seeds under the odd ids 1 to 15.
fn eight_of_each() -> Router<String> {
    let mut router: Router<String> = Router::new();
    for pair in 0..8u64 {
        let download = router.register(SessionKind::Download, format!("download-{}", 2 * pair));
        assert_eq!(download, Ok(2 * pair));
        let seed = router.register(SessionKind::Seed, format!("seed-{}", 2 * pair + 1));
        assert_eq!(seed, Ok(2 * pair + 1));
    }
    router
}

#[test]
fn deliveries_are_for_downloads_everything_else_for_seeds() {
    assert_eq!(classify(PacketType::PieceDelivery), SessionKind::Download);
    for kind in [
        PacketType::Unset,
        PacketType::FileCheck,
        PacketType::FileConfirm,
        PacketType::FileDeny,
        PacketType::PieceRequest,
        PacketType::RequestDone,
        PacketType::DownloadComplete,
    ] {
        assert_eq!(classify(kind), SessionKind::Seed);
    }
}

#[test]
fn ids_come_from_one_counter_for_both_kinds() {
    let mut router: Router<u8> = Router::new();
    assert_eq!(router.register(SessionKind::Download, 10), Ok(0));
    assert_eq!(router.register(SessionKind::Download, 11), Ok(1));
    assert_eq!(router.register(SessionKind::Seed, 20), Ok(2));
    assert_eq!(router.register(SessionKind::Download, 12), Ok(3));
    assert_eq!(router.register(SessionKind::Seed, 21), Ok(4));
    assert_eq!(router.session_count(SessionKind::Download), 3);
    assert_eq!(router.session_count(SessionKind::Seed), 2);
}

#[test]
fn a_download_and_a_seed_never_share_an_id() {
    let router = eight_of_each();
    for id in 0..16u64 {
        let as_download = router.inbox(Route::Download(id)).is_some();
        let as_seed = router.inbox(Route::Seed(id)).is_some();
        assert!(as_download != as_seed);
    }
    assert!(router.inbox(Route::Download(16)).is_none());
    assert!(router.inbox(Route::Seed(16)).is_none());
}

#[test]
fn a_delivery_for_session_seven_reaches_the_download_only() {
    let mut router: Router<String> = Router::new();
    for id in 0..7u64 {
        assert_eq!(router.register(SessionKind::Seed, format!("seed-{}", id)), Ok(id));
    }
    assert_eq!(router.register(SessionKind::Download, "download-7".to_string()), Ok(7));
    assert_eq!(router.register(SessionKind::Seed, "seed-8".to_string()), Ok(8));
    let route = router.route(&packet(PacketType::PieceDelivery, 7));
    assert_eq!(route, Route::Download(7));
    assert_eq!(router.inbox(route), Some(&"download-7".to_string()));
    assert_eq!(router.inbox(Route::Seed(7)), None);
    assert_eq!(router.dropped(), 0);
}

#[test]
fn a_control_packet_reaches_the_seed_of_its_id_only() {
    let mut router = eight_of_each();
    for kind in [PacketType::FileCheck, PacketType::PieceRequest, PacketType::RequestDone] {
        let route = router.route(&packet(kind, 7));
        assert_eq!(route, Route::Seed(7));
        assert_eq!(router.inbox(route), Some(&"seed-7".to_string()));
    }
    assert_eq!(router.dropped(), 0);
}

#[test]
fn a_delivery_under_the_id_of_a_seed_is_not_handed_to_the_seed() {
    let mut router = eight_of_each();
    assert_eq!(router.route(&packet(PacketType::PieceDelivery, 7)), Route::Dropped);
    assert_eq!(router.route(&packet(PacketType::PieceDelivery, 6)), Route::Download(6));
    assert_eq!(router.dropped(), 1);
}

#[test]
fn a_control_packet_under_the_id_of_a_download_is_not_handed_to_the_download() {
    let mut router = eight_of_each();
    assert_eq!(router.route(&packet(PacketType::PieceRequest, 6)), Route::Dropped);
    assert_eq!(router.route(&packet(PacketType::FileCheck, 6)), Route::Dropped);
    assert_eq!(router.route(&packet(PacketType::PieceRequest, 7)), Route::Seed(7));
    assert_eq!(router.dropped(), 2);
}

#[test]
fn an_unregistered_session_is_dropped_and_counted() {
    let mut router = eight_of_each();
    assert_eq!(router.route(&packet(PacketType::PieceDelivery, 16)), Route::Dropped);
    assert_eq!(router.route(&packet(PacketType::PieceRequest, 99)), Route::Dropped);
    assert_eq!(router.dropped(), 2);
    assert_eq!(router.inbox(Route::Dropped), None);
}

#[test]
fn a_dropped_packet_does_not_block_the_batch() {
    let mut router = eight_of_each();
    let batch = vec![
        packet(PacketType::PieceDelivery, 99),
        packet(PacketType::PieceDelivery, 0),
        packet(PacketType::FileCheck, 1234),
        packet(PacketType::PieceRequest, 3),
        packet(PacketType::PieceDelivery, 14),
    ];
    let routes = router.route_batch(&batch);
    assert_eq!(
        routes,
        vec![
            Route::Dropped,
            Route::Download(0),
            Route::Dropped,
            Route::Seed(3),
            Route::Download(14),
        ]
    );
    assert_eq!(router.dropped(), 2);
}

#[test]
fn a_batch_without_its_dropped_packets_routes_the_same() {
    let mut router = eight_of_each();
    let kept = vec![packet(PacketType::PieceDelivery, 0), packet(PacketType::PieceRequest, 3)];
    assert_eq!(router.route_batch(&kept), vec![Route::Download(0), Route::Seed(3)]);
    assert_eq!(router.dropped(), 0);
    assert!(router.route_batch(&Vec::new()).is_empty());
}

#[test]
fn lookup_counts_nothing() {
    let router = eight_of_each();
    assert_eq!(router.lookup(&packet(PacketType::PieceDelivery, 99)), Route::Dropped);
    assert_eq!(router.lookup(&packet(PacketType::PieceDelivery, 2)), Route::Download(2));
    assert_eq!(router.dropped(), 0);
}

#[test]
fn a_removed_session_gets_nothing_more() {
    let mut router = eight_of_each();
    assert_eq!(router.unregister(SessionKind::Download, 6), Some("download-6".to_string()));
    assert_eq!(router.route(&packet(PacketType::PieceDelivery, 6)), Route::Dropped);
    assert_eq!(router.route(&packet(PacketType::FileCheck, 7)), Route::Seed(7));
    assert_eq!(router.inbox(Route::Download(6)), None);
    assert_eq!(router.unregister(SessionKind::Download, 6), None);
    assert_eq!(router.unregister(SessionKind::Download, 7), None);
    assert_eq!(router.unregister(SessionKind::Seed, 50), None);
    assert_eq!(router.session_count(SessionKind::Download), 7);
    assert_eq!(router.session_count(SessionKind::Seed), 8);
}

#[test]
fn the_id_of_a_removed_session_is_not_given_again() {
    let mut router: Router<u8> = Router::new();
    assert_eq!(router.register(SessionKind::Download, 1), Ok(0));
    assert_eq!(router.unregister(SessionKind::Download, 0), Some(1));
    assert_eq!(router.register(SessionKind::Download, 2), Ok(1));
    assert_eq!(router.register(SessionKind::Seed, 3), Ok(2));
    assert_eq!(router.route(&packet(PacketType::PieceDelivery, 0)), Route::Dropped);
    assert_eq!(router.inbox(Route::Download(1)), Some(&2));
    assert_eq!(router.inbox(Route::Seed(2)), Some(&3));
}

#[test]
fn a_closed_inbox_takes_its_session_out() {
    let mut router = eight_of_each();
    let route = router.route(&packet(PacketType::PieceDelivery, 2));
    assert_eq!(router.settle(route, Delivery::Closed), Some("download-2".to_string()));
    assert_eq!(router.route(&packet(PacketType::PieceDelivery, 2)), Route::Dropped);
    assert_eq!(router.route(&packet(PacketType::PieceRequest, 3)), Route::Seed(3));
    assert_eq!(router.session_count(SessionKind::Download), 7);
    assert_eq!(router.settle(Route::Seed(3), Delivery::Closed), Some("seed-3".to_string()));
    assert_eq!(router.route(&packet(PacketType::PieceRequest, 3)), Route::Dropped);
    assert_eq!(router.settle(Route::Seed(3), Delivery::Closed), None);
    assert_eq!(router.settle(Route::Dropped, Delivery::Closed), None);
}

#[test]
fn an_accepted_or_rejected_packet_leaves_the_registry_alone() {
    let mut router = eight_of_each();
    assert_eq!(router.settle(Route::Download(2), Delivery::Accepted), None);
    assert_eq!(router.settle(Route::Download(2), Delivery::Full), None);
    assert_eq!(router.settle(Route::Seed(5), Delivery::Full), None);
    assert_eq!(router.route(&packet(PacketType::PieceDelivery, 2)), Route::Download(2));
    assert_eq!(router.route(&packet(PacketType::FileCheck, 5)), Route::Seed(5));
    assert_eq!(router.session_count(SessionKind::Download), 8);
    assert_eq!(router.session_count(SessionKind::Seed), 8);
    assert_eq!(router.dropped(), 0);
}
