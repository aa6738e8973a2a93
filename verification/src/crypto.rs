//! DES, hex and SHA-256, as the outside crates compute them.
use cipher::{BlockDecrypt, KeyInit};
use sha2::Digest;
use vstd::prelude::*;

verus! {

/// One 8-byte DES block decrypted with an 8-byte key.
pub uninterp spec fn des_block_spec(key: Seq<u8>, block: Seq<u8>) -> Seq<u8>;

/// The SHA-256 digest of `data`.
pub uninterp spec fn sha256_spec(data: Seq<u8>) -> Seq<u8>;

/// The text `hex::FromHexError` displays for a rejected input.
pub uninterp spec fn hex_error_text(data: Seq<u8>) -> Seq<char>;

/// `des::Des::decrypt_block` with the cipher keyed by `key`: one block.
#[verifier::external_body]
pub(crate) fn des_decrypt_block(key: &[u8], block: &[u8]) -> (r: Vec<u8>)
    requires
        key@.len() == 8,
        block@.len() == 8,
    ensures
        r@ == des_block_spec(key@, block@),
        r@.len() == 8,
{
    let des = des::Des::new(cipher::generic_array::GenericArray::from_slice(key));
    let mut b = cipher::generic_array::GenericArray::clone_from_slice(block);
    des.decrypt_block(&mut b);
    b.to_vec()
}

/// `sha2::Sha256::digest`.
#[verifier::external_body]
pub(crate) fn sha256(data: &[u8]) -> (r: Vec<u8>)
    ensures
        r@ == sha256_spec(data@),
        r@.len() == 32,
{
    sha2::Sha256::digest(data).to_vec()
}

/// The value of one hex digit byte (either case).
pub open spec fn hex_value(b: u8) -> Option<u8> {
    if 48 <= b && b <= 57 {
        Some((b - 48) as u8)
    } else if 97 <= b && b <= 102 {
        Some((b - 87) as u8)
    } else if 65 <= b && b <= 70 {
        Some((b - 55) as u8)
    } else {
        None
    }
}

/// Every byte of `data` is a hex digit.
pub open spec fn all_hex(data: Seq<u8>) -> bool {
    forall|i: int| 0 <= i < data.len() ==> (#[trigger] hex_value(data[i])) is Some
}

/// The bytes a well-formed hex text stands for: each pair of digits, high first.
pub open spec fn hex_bytes(data: Seq<u8>) -> Seq<u8> {
    Seq::new(
        data.len() / 2,
        |i: int| (hex_value(data[2 * i]).unwrap() * 16 + hex_value(data[2 * i + 1]).unwrap()) as u8,
    )
}

/// `hex::decode`: an even number of hex digits, in either case, becomes the
/// bytes they spell; anything else is refused with the error's text.
#[verifier::external_body]
pub(crate) fn hex_decode(data: &[u8]) -> (r: Result<Vec<u8>, String>)
    ensures
        r is Ok <==> (data@.len() % 2 == 0 && all_hex(data@)),
        r is Ok ==> r->Ok_0@ == hex_bytes(data@),
        r is Err ==> r->Err_0@ == hex_error_text(data@),
        r is Err && data@.len() % 2 != 0 ==> r->Err_0@ == "Odd number of digits"@,
{
    hex::decode(data).map_err(|e| e.to_string())
}

} // verus!
