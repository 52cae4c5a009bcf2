//! The hash by which a manifest identifies the contents of a file: the SHA-1
//! digest of the bytes, written as 40 lower-case hexadecimal digits.

use sha1::{Digest, Sha1};
use vstd::prelude::*;
use vstd::string::StringExecFns;

verus! {

/// The SHA-1 digest of `bytes`.
pub uninterp spec fn spec_sha1(bytes: Seq<u8>) -> Seq<u8>;

/// The lower-case hexadecimal digit of a value below 16.
pub open spec fn spec_hex_digit(value: nat) -> char {
    if value == 0 {
        '0'
    } else if value == 1 {
        '1'
    } else if value == 2 {
        '2'
    } else if value == 3 {
        '3'
    } else if value == 4 {
        '4'
    } else if value == 5 {
        '5'
    } else if value == 6 {
        '6'
    } else if value == 7 {
        '7'
    } else if value == 8 {
        '8'
    } else if value == 9 {
        '9'
    } else if value == 10 {
        'a'
    } else if value == 11 {
        'b'
    } else if value == 12 {
        'c'
    } else if value == 13 {
        'd'
    } else if value == 14 {
        'e'
    } else {
        'f'
    }
}

/// `bytes` in hexadecimal: two lower-case digits for each byte, the high one first.
pub open spec fn spec_hex(bytes: Seq<u8>) -> Seq<char>
    decreases bytes.len(),
{
    if bytes.len() == 0 {
        Seq::empty()
    } else {
        spec_hex(bytes.drop_last()).push(spec_hex_digit((bytes.last() / 16) as nat)).push(
            spec_hex_digit((bytes.last() % 16) as nat),
        )
    }
}

/// The hash of a file with the contents `bytes`.
pub open spec fn spec_file_hash(bytes: Seq<u8>) -> Seq<char> {
    spec_hex(spec_sha1(bytes))
}

/// `Sha1::digest` of the crate sha1: the SHA-1 digest of `bytes`, a value
/// that depends on the bytes alone.
#[verifier::external_body]
fn sha1_digest(bytes: &[u8]) -> (digest: Vec<u8>)
    ensures
        digest@ == spec_sha1(bytes@),
{
    Sha1::digest(bytes).to_vec()
}

fn hex_digit_text(value: u8) -> (text: &'static str)
    requires
        value < 16,
    ensures
        text@ == seq![spec_hex_digit(value as nat)],
{
    proof {
        reveal_strlit("0");
        reveal_strlit("1");
        reveal_strlit("2");
        reveal_strlit("3");
        reveal_strlit("4");
        reveal_strlit("5");
        reveal_strlit("6");
        reveal_strlit("7");
        reveal_strlit("8");
        reveal_strlit("9");
        reveal_strlit("a");
        reveal_strlit("b");
        reveal_strlit("c");
        reveal_strlit("d");
        reveal_strlit("e");
        reveal_strlit("f");
    }
    let text = if value == 0 {
        "0"
    } else if value == 1 {
        "1"
    } else if value == 2 {
        "2"
    } else if value == 3 {
        "3"
    } else if value == 4 {
        "4"
    } else if value == 5 {
        "5"
    } else if value == 6 {
        "6"
    } else if value == 7 {
        "7"
    } else if value == 8 {
        "8"
    } else if value == 9 {
        "9"
    } else if value == 10 {
        "a"
    } else if value == 11 {
        "b"
    } else if value == 12 {
        "c"
    } else if value == 13 {
        "d"
    } else if value == 14 {
        "e"
    } else {
        "f"
    };
    assert(text@ =~= seq![spec_hex_digit(value as nat)]);
    text
}

/// Writes `bytes` in lower-case hexadecimal.
pub fn hex(bytes: &[u8]) -> (text: String)
    ensures
        text@ == spec_hex(bytes@),
        text@.len() == 2 * bytes@.len(),
{
    let mut text = String::new();
    let mut at: usize = 0;
    while at < bytes.len()
        invariant
            at <= bytes@.len(),
            text@ == spec_hex(bytes@.subrange(0, at as int)),
            text@.len() == 2 * at,
        decreases bytes@.len() - at,
    {
        let byte = bytes[at];
        text.append(hex_digit_text(byte / 16));
        text.append(hex_digit_text(byte % 16));
        at += 1;
        proof {
            let done = bytes@.subrange(0, at as int);
            assert(done.drop_last() =~= bytes@.subrange(0, at - 1));
            assert(text@ =~= spec_hex(done));
        }
    }
    assert(bytes@.subrange(0, at as int) =~= bytes@);
    text
}

/// The hash of a file with the contents `contents`: its SHA-1 digest in
/// lower-case hexadecimal.
pub fn file_hash(contents: &[u8]) -> (hash: String)
    ensures
        hash@ == spec_file_hash(contents@),
{
    let digest = sha1_digest(contents);
    hex(digest.as_slice())
}

} // verus!
