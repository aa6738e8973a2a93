//! Keys for hidden features: only a salted SHA-256 digest of each key is
//! ever compared against.
use crate::crypto::{sha256, sha256_spec};
use crate::text::{concat, push_char, str_eq, str_trim, trim};
use vstd::prelude::*;
use vstd::utf8::encode_utf8;

verus! {

/// Salt put before the key. Not a secret: it keeps the digest off public
/// rainbow tables.
pub const HIDDEN_SALT: &'static str = "kz-login/hidden/v1";

/// A lower-case hex digit.
pub open spec fn hex_lower(d: nat) -> char {
    if d < 10 {
        (d + 48) as char
    } else {
        (d + 87) as char
    }
}

/// Bytes written as lower-case hex, two digits each (`{:02x}`).
pub open spec fn hex_text(bytes: Seq<u8>) -> Seq<char>
    decreases bytes.len(),
{
    if bytes.len() == 0 {
        Seq::empty()
    } else {
        hex_text(bytes.drop_last()) + seq![hex_lower((bytes.last() / 16) as nat), hex_lower((bytes.last() % 16) as nat)]
    }
}

fn hex_lower_of(d: u8) -> (r: char)
    requires
        d < 16,
    ensures
        r == hex_lower(d as nat),
{
    if d < 10 {
        (d + 48) as char
    } else {
        (d + 87) as char
    }
}

/// `bytes` as lower-case hex.
pub fn to_hex(bytes: &[u8]) -> (r: String)
    ensures
        r@ == hex_text(bytes@),
{
    let mut out = String::new();
    let mut i: usize = 0;
    while i < bytes.len()
        invariant
            i <= bytes@.len(),
            out@ == hex_text(bytes@.take(i as int)),
        decreases bytes@.len() - i,
    {
        assert(bytes@.take(i + 1).drop_last() =~= bytes@.take(i as int));
        push_char(&mut out, hex_lower_of(bytes[i] / 16));
        push_char(&mut out, hex_lower_of(bytes[i] % 16));
        i = i + 1;
        assert(out@ =~= hex_text(bytes@.take(i as int)));
    }
    assert(bytes@.take(bytes@.len() as int) =~= bytes@);
    out
}

/// The digest a typed key is compared by: SHA-256 of the salt followed by
/// the trimmed key, in lower-case hex.
pub open spec fn key_digest(input: Seq<char>) -> Seq<char> {
    hex_text(sha256_spec(encode_utf8(HIDDEN_SALT@ + trim(input))))
}

/// The feature of the first `(digest, feature)` pair whose digest matches.
pub open spec fn unlocked(keys: Seq<(Seq<char>, Seq<char>)>, digest: Seq<char>) -> Option<Seq<char>>
    decreases keys.len(),
{
    if keys.len() == 0 {
        None
    } else if keys[0].0 == digest {
        Some(keys[0].1)
    } else {
        unlocked(keys.drop_first(), digest)
    }
}

/// The feature a key unlocks among `keys` (`(digest, feature)` pairs), or
/// `None` when nothing matches.
pub fn verify(input: &str, keys: &[(String, String)]) -> (r: Option<String>)
    ensures
        r.deep_view() == unlocked(keys.deep_view(), key_digest(input@)),
{
    let salted = concat(HIDDEN_SALT, str_trim(input).as_str());
    let digest = sha256(salted.as_str().as_bytes());
    let hex = to_hex(digest.as_slice());
    let ghost all = keys.deep_view();
    let mut i: usize = 0;
    assert(all.skip(0) =~= all);
    while i < keys.len()
        invariant
            i <= keys@.len(),
            all == keys.deep_view(),
            hex@ == key_digest(input@),
            unlocked(all, hex@) == unlocked(all.skip(i as int), hex@),
        decreases keys@.len() - i,
    {
        assert(all.skip(i as int)[0] == all[i as int]);
        assert(all[i as int] == (keys@[i as int].0@, keys@[i as int].1@));
        assert(all.skip(i as int).drop_first() =~= all.skip(i + 1));
        if str_eq(keys[i].0.as_str(), hex.as_str()) {
            return Some(keys[i].1.clone());
        }
        i = i + 1;
    }
    None
}

} // verus!
