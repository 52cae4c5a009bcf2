//! The byte layout of packet payloads.
//!
//! A piece delivery is the piece's index, as 8 little-endian bytes, followed by
//! the raw bytes of the piece. A piece request is the piece's index (8 bytes),
//! the byte length of the delivery address (8 bytes), the address and then the
//! file name, both as UTF-8. Arbitrary piece bytes pass through unchanged.

use crate::packet::{PieceRequest, PieceRequestView};
use vstd::bytes::{
    lemma_auto_spec_u64_to_from_le_bytes, spec_u64_from_le_bytes, spec_u64_to_le_bytes,
    u64_from_le_bytes, u64_to_le_bytes,
};
use vstd::prelude::*;
use vstd::slice::{slice_subrange, slice_to_vec};
use vstd::utf8::{
    decode_utf8, decode_utf8_encode_utf8, encode_utf8, encode_utf8_decode_utf8,
    encode_utf8_valid_utf8, valid_utf8,
};

verus! {

/// Number of bytes that an encoded index or length takes.
pub const WORD: usize = 8;

/// The payload of a delivery of `data` as piece `index`.
pub open spec fn spec_encode_delivery(index: u64, data: Seq<u8>) -> Seq<u8> {
    spec_u64_to_le_bytes(index) + data
}

/// The index and the piece bytes that a delivery payload holds, if it is long
/// enough to hold an index.
pub open spec fn spec_decode_delivery(payload: Seq<u8>) -> Option<(u64, Seq<u8>)> {
    if payload.len() < WORD {
        None
    } else {
        Some(
            (
                spec_u64_from_le_bytes(payload.subrange(0, WORD as int)),
                payload.subrange(WORD as int, payload.len() as int),
            ),
        )
    }
}

/// The payload of a piece request.
pub open spec fn spec_encode_request(request: PieceRequestView) -> Seq<u8> {
    spec_u64_to_le_bytes(request.location) + spec_u64_to_le_bytes(
        encode_utf8(request.dest_ip).len() as u64,
    ) + encode_utf8(request.dest_ip) + encode_utf8(request.filename)
}

/// The request that a payload holds, if it is well formed: long enough for the
/// two numbers, the address inside the payload, address and name valid UTF-8.
pub open spec fn spec_decode_request(payload: Seq<u8>) -> Option<PieceRequestView> {
    if payload.len() < 2 * WORD {
        None
    } else {
        let location = spec_u64_from_le_bytes(payload.subrange(0, WORD as int));
        let dest_len = spec_u64_from_le_bytes(payload.subrange(WORD as int, 2 * WORD));
        if dest_len > payload.len() - 2 * WORD {
            None
        } else {
            let dest = payload.subrange(2 * WORD, 2 * WORD + dest_len);
            let name = payload.subrange(2 * WORD + dest_len, payload.len() as int);
            if valid_utf8(dest) && valid_utf8(name) {
                Some(
                    PieceRequestView {
                        dest_ip: decode_utf8(dest),
                        filename: decode_utf8(name),
                        location,
                    },
                )
            } else {
                None
            }
        }
    }
}

/// `String::from_utf8` of std: the string whose UTF-8 encoding is `bytes`, or
/// nothing where `bytes` is not valid UTF-8.
#[verifier::external_body]
fn string_from_utf8(bytes: Vec<u8>) -> (text: Option<String>)
    ensures
        match text {
            Some(string) => valid_utf8(bytes@) && encode_utf8(string@) == bytes@,
            None => !valid_utf8(bytes@),
        },
{
    match String::from_utf8(bytes) {
        Ok(string) => Some(string),
        Err(_) => None,
    }
}

/// The text that `bytes` encode in UTF-8, if they encode any.
pub fn text_from_bytes(bytes: &[u8]) -> (text: Option<String>)
    ensures
        match text {
            Some(string) => valid_utf8(bytes@) && string@ == decode_utf8(bytes@),
            None => !valid_utf8(bytes@),
        },
{
    let text = string_from_utf8(slice_to_vec(bytes));
    proof {
        if text is Some {
            encode_utf8_decode_utf8(text->0@);
        }
    }
    text
}

/// Builds the payload of a delivery: the index, then the piece bytes as they are.
///
/// Decoding the payload gives back the index and the bytes.
pub fn encode_delivery(index: u64, data: &[u8]) -> (payload: Vec<u8>)
    ensures
        payload@ == spec_encode_delivery(index, data@),
        spec_decode_delivery(payload@) == Some((index, data@)),
{
    let mut payload = u64_to_le_bytes(index);
    payload.extend_from_slice(data);
    proof {
        assert(payload@ =~= spec_encode_delivery(index, data@));
        lemma_delivery_round_trip(index, data@);
    }
    payload
}

/// Reads a delivery payload: the index and the piece bytes. A payload too short
/// to hold an index holds nothing.
pub fn decode_delivery(payload: &[u8]) -> (delivery: Option<(u64, Vec<u8>)>)
    ensures
        match delivery {
            Some((index, data)) => spec_decode_delivery(payload@) == Some((index, data@)),
            None => spec_decode_delivery(payload@) is None,
        },
{
    if payload.len() < WORD {
        return None;
    }
    let index = u64_from_le_bytes(slice_subrange(payload, 0, WORD));
    let data = slice_to_vec(slice_subrange(payload, WORD, payload.len()));
    Some((index, data))
}

/// Builds the payload of a piece request.
///
/// Decoding the payload gives back the request.
pub fn encode_request(request: &PieceRequest) -> (payload: Vec<u8>)
    ensures
        payload@ == spec_encode_request(request@),
        spec_decode_request(payload@) == Some(request@),
{
    let dest = request.dest_ip.as_str().as_bytes();
    let name = request.filename.as_str().as_bytes();
    let mut payload = u64_to_le_bytes(request.location);
    let mut dest_len = u64_to_le_bytes(dest.len() as u64);
    payload.append(&mut dest_len);
    payload.extend_from_slice(dest);
    payload.extend_from_slice(name);
    proof {
        assert(payload@ =~= spec_encode_request(request@));
        lemma_request_round_trip(request@);
    }
    payload
}

/// Reads the payload of a piece request. A malformed payload holds nothing.
pub fn decode_request(payload: &[u8]) -> (request: Option<PieceRequest>)
    ensures
        match request {
            Some(found) => spec_decode_request(payload@) == Some(found@),
            None => spec_decode_request(payload@) is None,
        },
{
    if payload.len() < 2 * WORD {
        return None;
    }
    let location = u64_from_le_bytes(slice_subrange(payload, 0, WORD));
    let dest_len = u64_from_le_bytes(slice_subrange(payload, WORD, 2 * WORD));
    if dest_len > (payload.len() - 2 * WORD) as u64 {
        return None;
    }
    let name_start: usize = 2 * WORD + dest_len as usize;
    let dest = text_from_bytes(slice_subrange(payload, 2 * WORD, name_start));
    let name = text_from_bytes(slice_subrange(payload, name_start, payload.len()));
    match (dest, name) {
        (Some(dest_ip), Some(filename)) => Some(PieceRequest { dest_ip, filename, location }),
        _ => None,
    }
}

/// A delivery payload decodes to the index and bytes it was built from.
pub proof fn lemma_delivery_round_trip(index: u64, data: Seq<u8>)
    ensures
        spec_decode_delivery(spec_encode_delivery(index, data)) == Some((index, data)),
{
    lemma_auto_spec_u64_to_from_le_bytes();
    let payload = spec_encode_delivery(index, data);
    assert(payload.subrange(0, WORD as int) =~= spec_u64_to_le_bytes(index));
    assert(payload.subrange(WORD as int, payload.len() as int) =~= data);
}

/// Two deliveries with the same payload are the same delivery: a payload that
/// decodes is the encoding of what it decodes to.
pub proof fn lemma_delivery_payload_unique(payload: Seq<u8>)
    requires
        spec_decode_delivery(payload) is Some,
    ensures
        ({
            let found = spec_decode_delivery(payload)->0;
            spec_encode_delivery(found.0, found.1) == payload
        }),
{
    lemma_auto_spec_u64_to_from_le_bytes();
    let head = payload.subrange(0, WORD as int);
    assert(spec_u64_to_le_bytes(spec_u64_from_le_bytes(head)) == head);
    assert(head + payload.subrange(WORD as int, payload.len() as int) =~= payload);
}

/// A request payload decodes to the request it was built from, for every
/// request whose address is short enough for its length to be written down.
pub proof fn lemma_request_round_trip(request: PieceRequestView)
    requires
        encode_utf8(request.dest_ip).len() <= u64::MAX,
    ensures
        spec_decode_request(spec_encode_request(request)) == Some(request),
{
    lemma_auto_spec_u64_to_from_le_bytes();
    let dest = encode_utf8(request.dest_ip);
    let name = encode_utf8(request.filename);
    let payload = spec_encode_request(request);
    assert(payload.subrange(0, WORD as int) =~= spec_u64_to_le_bytes(request.location));
    assert(payload.subrange(WORD as int, 2 * WORD) =~= spec_u64_to_le_bytes(dest.len() as u64));
    assert(payload.subrange(2 * WORD, 2 * WORD + dest.len()) =~= dest);
    assert(payload.subrange(2 * WORD + dest.len(), payload.len() as int) =~= name);
    encode_utf8_valid_utf8(request.dest_ip);
    encode_utf8_valid_utf8(request.filename);
    encode_utf8_decode_utf8(request.dest_ip);
    encode_utf8_decode_utf8(request.filename);
}

/// A payload that decodes to a request is the encoding of that request.
pub proof fn lemma_request_payload_unique(payload: Seq<u8>)
    requires
        spec_decode_request(payload) is Some,
    ensures
        spec_encode_request(spec_decode_request(payload)->0) == payload,
{
    lemma_auto_spec_u64_to_from_le_bytes();
    let head = payload.subrange(0, WORD as int);
    let second = payload.subrange(WORD as int, 2 * WORD);
    let dest_len = spec_u64_from_le_bytes(second);
    let dest = payload.subrange(2 * WORD, 2 * WORD + dest_len);
    let name = payload.subrange(2 * WORD + dest_len, payload.len() as int);
    decode_utf8_encode_utf8(dest);
    decode_utf8_encode_utf8(name);
    assert(spec_u64_to_le_bytes(spec_u64_from_le_bytes(head)) == head);
    assert(spec_u64_to_le_bytes(dest_len) == second);
    assert(head + second + dest + name =~= payload);
}

} // verus!
