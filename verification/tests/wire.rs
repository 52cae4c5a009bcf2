use p2p_transfer::packet::PieceRequest;
use p2p_transfer::wire::{
    decode_delivery, decode_request, encode_delivery, encode_request, text_from_bytes,
};

fn request(dest: &str, name: &str, location: u64) -> PieceRequest {
    PieceRequest { dest_ip: dest.to_string(), filename: name.to_string(), location }
}

#[test]
fn delivery_payload_is_index_then_raw_bytes() {
    let payload = encode_delivery(0x0102_0304_0506_0708, &[0xFF, 0x00, 0x80]);
    assert_eq!(payload, vec![8, 7, 6, 5, 4, 3, 2, 1, 0xFF, 0x00, 0x80]);
}

#[test]
fn delivery_round_trip_keeps_arbitrary_bytes() {
    let mut data = Vec::new();
    for value in 0..=255u8 {
        data.push(value);
    }
    let payload = encode_delivery(41, &data);
    assert_eq!(decode_delivery(&payload), Some((41, data)));
}

#[test]
fn delivery_of_an_empty_piece_round_trips() {
    let payload = encode_delivery(u64::MAX, &[]);
    assert_eq!(payload.len(), 8);
    assert_eq!(decode_delivery(&payload), Some((u64::MAX, Vec::new())));
}

#[test]
fn delivery_too_short_for_an_index_is_malformed() {
    assert_eq!(decode_delivery(&[]), None);
    assert_eq!(decode_delivery(&[1, 2, 3, 4, 5, 6, 7]), None);
}

#[test]
fn request_payload_layout() {
    let payload = encode_request(&request("ab", "c", 3));
    assert_eq!(
        payload,
        vec![3, 0, 0, 0, 0, 0, 0, 0, 2, 0, 0, 0, 0, 0, 0, 0, b'a', b'b', b'c']
    );
}

#[test]
fn request_round_trip() {
    let sent = request("10.0.0.7:8081", "movie.iso", 123_456_789_012);
    let decoded = decode_request(&encode_request(&sent)).unwrap();
    assert_eq!(decoded.dest_ip, "10.0.0.7:8081");
    assert_eq!(decoded.filename, "movie.iso");
    assert_eq!(decoded.location, 123_456_789_012);
}

#[test]
fn request_round_trip_with_text_outside_ascii() {
    let sent = request("hôte.example:8081", "Ünïcödé—文件.bin", 0);
    let decoded = decode_request(&encode_request(&sent)).unwrap();
    assert_eq!(decoded.dest_ip, "hôte.example:8081");
    assert_eq!(decoded.filename, "Ünïcödé—文件.bin");
    assert_eq!(decoded.location, 0);
}

#[test]
fn request_round_trip_with_empty_texts() {
    let decoded = decode_request(&encode_request(&request("", "", 9))).unwrap();
    assert_eq!(decoded.dest_ip, "");
    assert_eq!(decoded.filename, "");
    assert_eq!(decoded.location, 9);
}

#[test]
fn request_too_short_is_malformed() {
    assert!(decode_request(&[]).is_none());
    assert!(decode_request(&[0u8; 15]).is_none());
    assert!(decode_request(&[0u8; 16]).is_some());
}

#[test]
fn request_whose_address_runs_past_the_payload_is_malformed() {
    let mut payload = encode_request(&request("ab", "c", 3));
    payload[8] = 4;
    assert!(decode_request(&payload).is_none());
    payload[8] = 3;
    let decoded = decode_request(&payload).unwrap();
    assert_eq!(decoded.dest_ip, "abc");
    assert_eq!(decoded.filename, "");
    payload[15] = 0xFF;
    assert!(decode_request(&payload).is_none());
}

#[test]
fn request_with_invalid_utf8_is_malformed() {
    let mut in_address = encode_request(&request("ab", "c", 3));
    in_address[16] = 0xFF;
    assert!(decode_request(&in_address).is_none());
    let mut in_name = encode_request(&request("ab", "c", 3));
    in_name[18] = 0x80;
    assert!(decode_request(&in_name).is_none());
}

#[test]
fn request_is_not_split_inside_a_character() {
    let mut payload = encode_request(&request("é", "x", 1));
    assert_eq!(payload[8], 2);
    payload[8] = 1;
    assert!(decode_request(&payload).is_none());
}

#[test]
fn text_from_bytes_decodes_utf8() {
    assert_eq!(text_from_bytes(b"plain"), Some("plain".to_string()));
    assert_eq!(text_from_bytes(&[0xE6, 0x96, 0x87]), Some("文".to_string()));
    assert_eq!(text_from_bytes(&[]), Some(String::new()));
}

#[test]
fn text_from_bytes_refuses_what_is_not_utf8() {
    assert_eq!(text_from_bytes(&[0xFF]), None);
    assert_eq!(text_from_bytes(&[0xC0, 0x80]), None);
    assert_eq!(text_from_bytes(&[0xED, 0xA0, 0x80]), None);
    assert_eq!(text_from_bytes(&[0xE6, 0x96]), None);
    assert_eq!(text_from_bytes(&[0xF4, 0x90, 0x80, 0x80]), None);
}
