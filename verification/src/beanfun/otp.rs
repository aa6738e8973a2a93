//! The game manager's launch blob and the game password envelope.
//!
//! The blob on `game_start_step2.aspx` is decoded the way the local game
//! manager decodes it: its first hex digit `v` picks alphabet `v % 4`; every
//! other character is replaced by its index in that alphabet, written as a
//! hex digit; the 8 characters at `v + 1` are a DES key, and the rest is
//! DES-ECB ciphertext without padding. The plaintext is read as UTF-8, with
//! trailing NULs trimmed.
use vstd::prelude::*;
use crate::beanfun::types::{parse_error, BeanfunError};
use crate::crypto::{des_block_spec, des_decrypt_block, hex_bytes, hex_decode, hex_error_text, all_hex};
use crate::json::{get_str, json_error, json_error_spec, str_field};
use crate::text::{
    chars_at, chars_of, digit16, digit16_of, clip, clip_spec, concat, dec, decimal, find_split_field, first_occ,
    first_occurrence, push_char, push_str, split_field, string_of, utf8_lossy, utf8_lossy_spec,
};
use vstd::utf8::encode_utf8;

verus! {

/// `char::from_digit(d, 16)`: a lower-case hex digit.
pub open spec fn hex_char(d: nat) -> char {
    if d < 10 {
        (d + 48) as char
    } else {
        (d + 87) as char
    }
}

/// The game manager's nibble-substitution alphabets. Only the first four are
/// reachable (`v % 4`), all eight are kept.
pub open spec fn alphabet(n: nat) -> Seq<char> {
    if n == 0 {
        "bac987d65e432f10"@
    } else if n == 1 {
        "3bc4d5e6f2a79108"@
    } else if n == 2 {
        "cdbeaf9012456378"@
    } else if n == 3 {
        "4e6fb81a3c5d7092"@
    } else if n == 4 {
        "bdef1246789ac530"@
    } else if n == 5 {
        "5f82cb4093e71d6a"@
    } else if n == 6 {
        "df1468ace0357b92"@
    } else {
        "b50c61a4f93e82d7"@
    }
}

fn alphabet_of(n: usize) -> (r: &'static str)
    requires
        n < 8,
    ensures
        r@ == alphabet(n as nat),
        r@.len() == 16,
{
    proof {
        reveal_strlit("bac987d65e432f10");
        reveal_strlit("3bc4d5e6f2a79108");
        reveal_strlit("cdbeaf9012456378");
        reveal_strlit("4e6fb81a3c5d7092");
        reveal_strlit("bdef1246789ac530");
        reveal_strlit("5f82cb4093e71d6a");
        reveal_strlit("df1468ace0357b92");
        reveal_strlit("b50c61a4f93e82d7");
    }
    if n == 0 {
        "bac987d65e432f10"
    } else if n == 1 {
        "3bc4d5e6f2a79108"
    } else if n == 2 {
        "cdbeaf9012456378"
    } else if n == 3 {
        "4e6fb81a3c5d7092"
    } else if n == 4 {
        "bdef1246789ac530"
    } else if n == 5 {
        "5f82cb4093e71d6a"
    } else if n == 6 {
        "df1468ace0357b92"
    } else {
        "b50c61a4f93e82d7"
    }
}

/// Index of the first `c` in `s`.
pub open spec fn index_of(s: Seq<char>, c: char) -> Option<nat>
    decreases s.len(),
{
    if s.len() == 0 {
        None
    } else if s[0] == c {
        Some(0)
    } else {
        match index_of(s.drop_first(), c) {
            Some(j) => Some(j + 1),
            None => None,
        }
    }
}

pub proof fn lemma_index_of(s: Seq<char>, c: char)
    ensures
        index_of(s, c) matches Some(j) ==> j < s.len() && s[j as int] == c && forall|k: int|
            0 <= k < j ==> s[k] != c,
        index_of(s, c) is None ==> forall|k: int| 0 <= k < s.len() ==> s[k] != c,
    decreases s.len(),
{
    if s.len() > 0 && s[0] != c {
        lemma_index_of(s.drop_first(), c);
        assert forall|k: int| 0 < k < s.len() implies s[k] == s.drop_first()[k - 1] by {}
    }
}

/// `str::find` of one character in a short slice.
fn position(s: &[char], c: char) -> (r: Option<usize>)
    ensures
        match r {
            Some(i) => index_of(s@, c) == Some(i as nat),
            None => index_of(s@, c) is None,
        },
{
    proof { lemma_index_of(s@, c); }
    let mut i: usize = 0;
    while i < s.len()
        invariant
            i <= s@.len(),
            forall|k: int| 0 <= k < i ==> s@[k] != c,
            index_of(s@, c) matches Some(j) ==> j < s@.len() && s@[j as int] == c && forall|k: int|
                0 <= k < j ==> s@[k] != c,
            index_of(s@, c) is None ==> forall|k: int| 0 <= k < s@.len() ==> s@[k] != c,
        decreases s@.len() - i,
    {
        if s[i] == c {
            proof {
                if let Some(j) = index_of(s@, c) {
                    if j < i {
                        assert(s@[j as int] != c);
                    }
                    if j > i {
                        assert(s@[i as int] != c);
                    }
                }
            }
            return Some(i);
        }
        i = i + 1;
    }
    proof {
        if let Some(j) = index_of(s@, c) {
            assert(s@[j as int] != c);
        }
    }
    None
}

/// How many leading characters of `s` occur in `alpha`.
pub open spec fn known_prefix(alpha: Seq<char>, s: Seq<char>) -> nat
    decreases s.len(),
{
    if s.len() > 0 && index_of(alpha, s[0]) is Some {
        1 + known_prefix(alpha, s.drop_first())
    } else {
        0
    }
}

pub proof fn lemma_known_prefix(alpha: Seq<char>, s: Seq<char>, i: int)
    requires
        0 <= i <= s.len(),
        forall|k: int| 0 <= k < i ==> (#[trigger] index_of(alpha, s[k])) is Some,
        i == s.len() || index_of(alpha, s[i]) is None,
    ensures
        known_prefix(alpha, s) == i,
    decreases s.len(),
{
    if i > 0 {
        assert(index_of(alpha, s[0]) is Some);
        lemma_known_prefix(alpha, s.drop_first(), i - 1);
    } else if s.len() > 0 {
        assert(index_of(alpha, s[0]) is None);
    }
}

/// `rest` with every character replaced by the hex digit of its index in `alpha`.
pub open spec fn substitute(alpha: Seq<char>, rest: Seq<char>) -> Seq<char> {
    Seq::new(rest.len(), |i: int| hex_char(index_of(alpha, rest[i]).unwrap()))
}

/// Each of the four reachable alphabets lists sixteen different characters:
/// the character at `x` is found at `x`.
proof fn lemma_alphabet_inverse(n: nat, x: nat)
    requires
        n < 4,
        x < 16,
    ensures
        alphabet(n).len() == 16,
        index_of(alphabet(n), alphabet(n)[x as int]) == Some(x),
{
    if n == 0 {
        lemma_alphabet0_inverse(x);
    } else if n == 1 {
        lemma_alphabet1_inverse(x);
    } else if n == 2 {
        lemma_alphabet2_inverse(x);
    } else if n == 3 {
        lemma_alphabet3_inverse(x);
    }
}

proof fn lemma_alphabet0_inverse(x: nat)
    requires
        x < 16,
    ensures
        "bac987d65e432f10"@.len() == 16,
        index_of("bac987d65e432f10"@, "bac987d65e432f10"@[x as int]) == Some(x),
{
    reveal_strlit("bac987d65e432f10");
    let s = "bac987d65e432f10"@;
    if x == 0 {
        assert(index_of(s, s[0]) == Some(0nat)) by { reveal_with_fuel(index_of, 2); }
    } else if x == 1 {
        assert(index_of(s, s[1]) == Some(1nat)) by { reveal_with_fuel(index_of, 3); }
    } else if x == 2 {
        assert(index_of(s, s[2]) == Some(2nat)) by { reveal_with_fuel(index_of, 4); }
    } else if x == 3 {
        assert(index_of(s, s[3]) == Some(3nat)) by { reveal_with_fuel(index_of, 5); }
    } else if x == 4 {
        assert(index_of(s, s[4]) == Some(4nat)) by { reveal_with_fuel(index_of, 6); }
    } else if x == 5 {
        assert(index_of(s, s[5]) == Some(5nat)) by { reveal_with_fuel(index_of, 7); }
    } else if x == 6 {
        assert(index_of(s, s[6]) == Some(6nat)) by { reveal_with_fuel(index_of, 8); }
    } else if x == 7 {
        assert(index_of(s, s[7]) == Some(7nat)) by { reveal_with_fuel(index_of, 9); }
    } else if x == 8 {
        assert(index_of(s, s[8]) == Some(8nat)) by { reveal_with_fuel(index_of, 10); }
    } else if x == 9 {
        assert(index_of(s, s[9]) == Some(9nat)) by { reveal_with_fuel(index_of, 11); }
    } else if x == 10 {
        assert(index_of(s, s[10]) == Some(10nat)) by { reveal_with_fuel(index_of, 12); }
    } else if x == 11 {
        assert(index_of(s, s[11]) == Some(11nat)) by { reveal_with_fuel(index_of, 13); }
    } else if x == 12 {
        assert(index_of(s, s[12]) == Some(12nat)) by { reveal_with_fuel(index_of, 14); }
    } else if x == 13 {
        assert(index_of(s, s[13]) == Some(13nat)) by { reveal_with_fuel(index_of, 15); }
    } else if x == 14 {
        assert(index_of(s, s[14]) == Some(14nat)) by { reveal_with_fuel(index_of, 16); }
    } else if x == 15 {
        assert(index_of(s, s[15]) == Some(15nat)) by { reveal_with_fuel(index_of, 17); }
    }
}

proof fn lemma_alphabet1_inverse(x: nat)
    requires
        x < 16,
    ensures
        "3bc4d5e6f2a79108"@.len() == 16,
        index_of("3bc4d5e6f2a79108"@, "3bc4d5e6f2a79108"@[x as int]) == Some(x),
{
    reveal_strlit("3bc4d5e6f2a79108");
    let s = "3bc4d5e6f2a79108"@;
    if x == 0 {
        assert(index_of(s, s[0]) == Some(0nat)) by { reveal_with_fuel(index_of, 2); }
    } else if x == 1 {
        assert(index_of(s, s[1]) == Some(1nat)) by { reveal_with_fuel(index_of, 3); }
    } else if x == 2 {
        assert(index_of(s, s[2]) == Some(2nat)) by { reveal_with_fuel(index_of, 4); }
    } else if x == 3 {
        assert(index_of(s, s[3]) == Some(3nat)) by { reveal_with_fuel(index_of, 5); }
    } else if x == 4 {
        assert(index_of(s, s[4]) == Some(4nat)) by { reveal_with_fuel(index_of, 6); }
    } else if x == 5 {
        assert(index_of(s, s[5]) == Some(5nat)) by { reveal_with_fuel(index_of, 7); }
    } else if x == 6 {
        assert(index_of(s, s[6]) == Some(6nat)) by { reveal_with_fuel(index_of, 8); }
    } else if x == 7 {
        assert(index_of(s, s[7]) == Some(7nat)) by { reveal_with_fuel(index_of, 9); }
    } else if x == 8 {
        assert(index_of(s, s[8]) == Some(8nat)) by { reveal_with_fuel(index_of, 10); }
    } else if x == 9 {
        assert(index_of(s, s[9]) == Some(9nat)) by { reveal_with_fuel(index_of, 11); }
    } else if x == 10 {
        assert(index_of(s, s[10]) == Some(10nat)) by { reveal_with_fuel(index_of, 12); }
    } else if x == 11 {
        assert(index_of(s, s[11]) == Some(11nat)) by { reveal_with_fuel(index_of, 13); }
    } else if x == 12 {
        assert(index_of(s, s[12]) == Some(12nat)) by { reveal_with_fuel(index_of, 14); }
    } else if x == 13 {
        assert(index_of(s, s[13]) == Some(13nat)) by { reveal_with_fuel(index_of, 15); }
    } else if x == 14 {
        assert(index_of(s, s[14]) == Some(14nat)) by { reveal_with_fuel(index_of, 16); }
    } else if x == 15 {
        assert(index_of(s, s[15]) == Some(15nat)) by { reveal_with_fuel(index_of, 17); }
    }
}

proof fn lemma_alphabet2_inverse(x: nat)
    requires
        x < 16,
    ensures
        "cdbeaf9012456378"@.len() == 16,
        index_of("cdbeaf9012456378"@, "cdbeaf9012456378"@[x as int]) == Some(x),
{
    reveal_strlit("cdbeaf9012456378");
    let s = "cdbeaf9012456378"@;
    if x == 0 {
        assert(index_of(s, s[0]) == Some(0nat)) by { reveal_with_fuel(index_of, 2); }
    } else if x == 1 {
        assert(index_of(s, s[1]) == Some(1nat)) by { reveal_with_fuel(index_of, 3); }
    } else if x == 2 {
        assert(index_of(s, s[2]) == Some(2nat)) by { reveal_with_fuel(index_of, 4); }
    } else if x == 3 {
        assert(index_of(s, s[3]) == Some(3nat)) by { reveal_with_fuel(index_of, 5); }
    } else if x == 4 {
        assert(index_of(s, s[4]) == Some(4nat)) by { reveal_with_fuel(index_of, 6); }
    } else if x == 5 {
        assert(index_of(s, s[5]) == Some(5nat)) by { reveal_with_fuel(index_of, 7); }
    } else if x == 6 {
        assert(index_of(s, s[6]) == Some(6nat)) by { reveal_with_fuel(index_of, 8); }
    } else if x == 7 {
        assert(index_of(s, s[7]) == Some(7nat)) by { reveal_with_fuel(index_of, 9); }
    } else if x == 8 {
        assert(index_of(s, s[8]) == Some(8nat)) by { reveal_with_fuel(index_of, 10); }
    } else if x == 9 {
        assert(index_of(s, s[9]) == Some(9nat)) by { reveal_with_fuel(index_of, 11); }
    } else if x == 10 {
        assert(index_of(s, s[10]) == Some(10nat)) by { reveal_with_fuel(index_of, 12); }
    } else if x == 11 {
        assert(index_of(s, s[11]) == Some(11nat)) by { reveal_with_fuel(index_of, 13); }
    } else if x == 12 {
        assert(index_of(s, s[12]) == Some(12nat)) by { reveal_with_fuel(index_of, 14); }
    } else if x == 13 {
        assert(index_of(s, s[13]) == Some(13nat)) by { reveal_with_fuel(index_of, 15); }
    } else if x == 14 {
        assert(index_of(s, s[14]) == Some(14nat)) by { reveal_with_fuel(index_of, 16); }
    } else if x == 15 {
        assert(index_of(s, s[15]) == Some(15nat)) by { reveal_with_fuel(index_of, 17); }
    }
}

proof fn lemma_alphabet3_inverse(x: nat)
    requires
        x < 16,
    ensures
        "4e6fb81a3c5d7092"@.len() == 16,
        index_of("4e6fb81a3c5d7092"@, "4e6fb81a3c5d7092"@[x as int]) == Some(x),
{
    reveal_strlit("4e6fb81a3c5d7092");
    let s = "4e6fb81a3c5d7092"@;
    if x == 0 {
        assert(index_of(s, s[0]) == Some(0nat)) by { reveal_with_fuel(index_of, 2); }
    } else if x == 1 {
        assert(index_of(s, s[1]) == Some(1nat)) by { reveal_with_fuel(index_of, 3); }
    } else if x == 2 {
        assert(index_of(s, s[2]) == Some(2nat)) by { reveal_with_fuel(index_of, 4); }
    } else if x == 3 {
        assert(index_of(s, s[3]) == Some(3nat)) by { reveal_with_fuel(index_of, 5); }
    } else if x == 4 {
        assert(index_of(s, s[4]) == Some(4nat)) by { reveal_with_fuel(index_of, 6); }
    } else if x == 5 {
        assert(index_of(s, s[5]) == Some(5nat)) by { reveal_with_fuel(index_of, 7); }
    } else if x == 6 {
        assert(index_of(s, s[6]) == Some(6nat)) by { reveal_with_fuel(index_of, 8); }
    } else if x == 7 {
        assert(index_of(s, s[7]) == Some(7nat)) by { reveal_with_fuel(index_of, 9); }
    } else if x == 8 {
        assert(index_of(s, s[8]) == Some(8nat)) by { reveal_with_fuel(index_of, 10); }
    } else if x == 9 {
        assert(index_of(s, s[9]) == Some(9nat)) by { reveal_with_fuel(index_of, 11); }
    } else if x == 10 {
        assert(index_of(s, s[10]) == Some(10nat)) by { reveal_with_fuel(index_of, 12); }
    } else if x == 11 {
        assert(index_of(s, s[11]) == Some(11nat)) by { reveal_with_fuel(index_of, 13); }
    } else if x == 12 {
        assert(index_of(s, s[12]) == Some(12nat)) by { reveal_with_fuel(index_of, 14); }
    } else if x == 13 {
        assert(index_of(s, s[13]) == Some(13nat)) by { reveal_with_fuel(index_of, 15); }
    } else if x == 14 {
        assert(index_of(s, s[14]) == Some(14nat)) by { reveal_with_fuel(index_of, 16); }
    } else if x == 15 {
        assert(index_of(s, s[15]) == Some(15nat)) by { reveal_with_fuel(index_of, 17); }
    }
}

/// Bytes `0x00..=0x7F` read as ASCII; every other byte as `?`.
pub open spec fn ascii_char(b: u8) -> char {
    if b <= 0x7f {
        b as char
    } else {
        '?'
    }
}

pub open spec fn ascii_text(bytes: Seq<u8>) -> Seq<char> {
    Seq::new(bytes.len(), |i: int| ascii_char(bytes[i]))
}

/// The bytes of an all-ASCII text.
pub open spec fn ascii_bytes(s: Seq<char>) -> Seq<u8> {
    Seq::new(s.len(), |i: int| s[i] as u8)
}

/// DES-ECB without padding: each 8-byte block on its own.
pub open spec fn des_ecb(key: Seq<u8>, data: Seq<u8>) -> Seq<u8>
    decreases data.len(),
{
    if data.len() < 8 {
        Seq::empty()
    } else {
        des_block_spec(key, data.take(8)) + des_ecb(key, data.skip(8))
    }
}

/// Number of leading NUL characters.
pub open spec fn lead_nul(s: Seq<char>) -> nat
    decreases s.len(),
{
    if s.len() > 0 && s[0] == '\0' { 1 + lead_nul(s.drop_first()) } else { 0 }
}

/// Number of trailing NUL characters.
pub open spec fn trail_nul(s: Seq<char>) -> nat
    decreases s.len(),
{
    if s.len() > 0 && s.last() == '\0' { 1 + trail_nul(s.drop_last()) } else { 0 }
}

/// `str::trim_matches('\0')`.
pub open spec fn trim_nul(s: Seq<char>) -> Seq<char> {
    let t = s.skip(lead_nul(s) as int);
    t.take(t.len() - trail_nul(t))
}

/// `str::trim_end_matches('\0')`.
pub open spec fn trim_end_nul(s: Seq<char>) -> Seq<char> {
    s.take(s.len() - trail_nul(s))
}

/// The blob's plaintext under `key`: decoded as UTF-8, trailing NULs trimmed.
pub open spec fn blob_plaintext(key: Seq<u8>, cipher: Seq<u8>) -> Seq<char> {
    trim_end_nul(utf8_lossy_spec(des_ecb(key, cipher)))
}

/// The plaintext of `cipher` under `key`, read as ASCII with NULs trimmed.
pub open spec fn des_plaintext(key: Seq<u8>, cipher: Seq<u8>) -> Seq<char> {
    trim_nul(ascii_text(des_ecb(key, cipher)))
}

/// What decoding the launch blob `data` gives: the plaintext, or the message
/// of the step that refused it.
pub open spec fn blob_spec(data: Seq<char>) -> Result<Seq<char>, Seq<char>> {
    if data.len() == 0 {
        Err("blob 為空"@)
    } else if digit16(data[0]) is None {
        Err("blob 首字非十六進位"@)
    } else {
        let v = digit16(data[0]).unwrap();
        let alpha = alphabet(v % 4);
        let rest = data.drop_first();
        let k = known_prefix(alpha, rest);
        if k < rest.len() {
            Err("blob 字元 '"@ + seq![rest[k as int]] + "' 不在 alphabet["@ + seq![hex_char(v % 4)]
                + "]"@)
        } else {
            let decoded = substitute(alpha, rest);
            let off = v + 1;
            if decoded.len() < off + 8 {
                Err("blob 解碼結果過短"@)
            } else {
                let key = decoded.subrange(off as int, (off + 8) as int);
                let cipher_hex = decoded.take(off as int) + decoded.skip((off + 8) as int);
                let bytes = ascii_bytes(cipher_hex);
                if bytes.len() % 2 != 0 {
                    Err("blob 密文非 hex："@ + hex_error_text(bytes))
                } else if hex_bytes(bytes).len() % 8 != 0 {
                    Err("blob 密文非 8 bytes 倍數"@)
                } else {
                    Ok(blob_plaintext(ascii_bytes(key), hex_bytes(bytes)))
                }
            }
        }
    }
}

/// `char::from_digit(d, 16)`.
fn hex_char_of(d: usize) -> (r: char)
    requires
        d < 16,
    ensures
        r == hex_char(d as nat),
{
    if d < 10 {
        ((d as u8) + 48) as char
    } else {
        ((d as u8) + 87) as char
    }
}

/// DES-ECB decryption of whole blocks.
pub fn des_ecb_decrypt(key: &[u8], data: &[u8]) -> (r: Vec<u8>)
    requires
        key@.len() == 8,
        data@.len() % 8 == 0,
    ensures
        r@ == des_ecb(key@, data@),
{
    let mut out: Vec<u8> = Vec::new();
    let mut i: usize = 0;
    assert(data@.skip(0) =~= data@);
    assert(out@ + des_ecb(key@, data@) =~= des_ecb(key@, data@));
    while i < data.len()
        invariant
            key@.len() == 8,
            data@.len() % 8 == 0,
            i <= data@.len(),
            i % 8 == 0,
            des_ecb(key@, data@) == out@ + des_ecb(key@, data@.skip(i as int)),
        decreases data@.len() - i,
    {
        let mut block: Vec<u8> = Vec::new();
        let mut j: usize = 0;
        while j < 8
            invariant
                i + 8 <= data.len(),
                j <= 8,
                block@ == data@.subrange(i as int, i + j),
            decreases 8 - j,
        {
            block.push(data[i + j]);
            j = j + 1;
            assert(block@ =~= data@.subrange(i as int, i + j));
        }
        let plain = des_decrypt_block(key, block.as_slice());
        let ghost rest = data@.skip(i as int);
        assert(rest.take(8) =~= block@);
        assert(rest.skip(8) =~= data@.skip(i + 8));
        let ghost before = out@;
        out.extend_from_slice(plain.as_slice());
        i = i + 8;
        assert(out@ =~= before + plain@);
    }
    assert(des_ecb(key@, data@.skip(i as int)) =~= Seq::<u8>::empty());
    assert(out@ + Seq::<u8>::empty() =~= out@);
    out
}

pub proof fn lemma_lead_nul(s: Seq<char>)
    ensures
        lead_nul(s) <= s.len(),
        forall|i: int| 0 <= i < lead_nul(s) ==> #[trigger] s[i] == '\0',
        lead_nul(s) < s.len() ==> s[lead_nul(s) as int] != '\0',
    decreases s.len(),
{
    if s.len() > 0 && s[0] == '\0' {
        lemma_lead_nul(s.drop_first());
        assert forall|i: int| 0 <= i < lead_nul(s) implies #[trigger] s[i] == '\0' by {
            if i > 0 {
                assert(s[i] == s.drop_first()[i - 1]);
            }
        }
    }
}

pub proof fn lemma_trail_nul(s: Seq<char>)
    ensures
        trail_nul(s) <= s.len(),
        forall|i: int| s.len() - trail_nul(s) <= i < s.len() ==> #[trigger] s[i] == '\0',
        trail_nul(s) < s.len() ==> s[s.len() - trail_nul(s) - 1] != '\0',
    decreases s.len(),
{
    if s.len() > 0 && s.last() == '\0' {
        lemma_trail_nul(s.drop_last());
        assert forall|i: int| s.len() - trail_nul(s) <= i < s.len() implies #[trigger] s[i] == '\0' by {
            if i < s.len() - 1 {
                assert(s[i] == s.drop_last()[i]);
            }
        }
    }
}

/// The bytes read as ASCII (`?` above 0x7F), with NULs trimmed at both ends.
pub fn ascii_trimmed(bytes: &[u8]) -> (r: String)
    ensures
        r@ == trim_nul(ascii_text(bytes@)),
{
    let ghost s = ascii_text(bytes@);
    let mut chars: Vec<char> = Vec::new();
    let mut i: usize = 0;
    while i < bytes.len()
        invariant
            i <= bytes@.len(),
            s == ascii_text(bytes@),
            chars@ == s.take(i as int),
        decreases bytes@.len() - i,
    {
        let b = bytes[i];
        let c = if b <= 0x7f { b as char } else { '?' };
        chars.push(c);
        i = i + 1;
        assert(chars@ =~= s.take(i as int));
    }
    assert(chars@ =~= s);
    proof { lemma_lead_nul(s); }
    let mut a: usize = 0;
    while a < chars.len() && chars[a] == '\0'
        invariant
            chars@ == s,
            a <= lead_nul(s),
            lead_nul(s) <= s.len(),
            forall|k: int| 0 <= k < lead_nul(s) ==> #[trigger] s[k] == '\0',
            lead_nul(s) < s.len() ==> s[lead_nul(s) as int] != '\0',
        decreases s.len() - a,
    {
        a = a + 1;
    }
    proof {
        if a < lead_nul(s) {
            assert(s[a as int] == '\0');
        }
    }
    let ghost t = s.skip(a as int);
    proof { lemma_trail_nul(t); }
    let mut n: usize = 0;
    while n < chars.len() - a && chars[chars.len() - 1 - n] == '\0'
        invariant
            chars@ == s,
            a <= s.len(),
            t == s.skip(a as int),
            n <= t.len(),
            n <= trail_nul(t),
            trail_nul(t) <= t.len(),
            forall|k: int| t.len() - trail_nul(t) <= k < t.len() ==> #[trigger] t[k] == '\0',
            trail_nul(t) < t.len() ==> t[t.len() - trail_nul(t) - 1] != '\0',
        decreases t.len() - n,
    {
        assert(chars@[chars@.len() - 1 - n] == t[t.len() - 1 - n]);
        n = n + 1;
    }
    proof {
        if n < trail_nul(t) {
            assert(chars@[chars@.len() - 1 - n] == t[t.len() - 1 - n]);
            assert(t[t.len() - 1 - n] == '\0');
        }
    }
    let mut out = String::new();
    let mut k: usize = a;
    while k < chars.len() - n
        invariant
            chars@ == s,
            a <= k <= chars@.len() - n,
            n <= chars@.len() - a,
            t == s.skip(a as int),
            out@ == s.subrange(a as int, k as int),
        decreases chars@.len() - n - k,
    {
        push_char(&mut out, chars[k]);
        k = k + 1;
        assert(out@ =~= s.subrange(a as int, k as int));
    }
    assert(out@ =~= t.take(t.len() - n));
    out
}

/// The bytes read as UTF-8 (U+FFFD for an invalid sequence), with trailing
/// NULs trimmed.
pub fn utf8_trimmed_end(bytes: &[u8]) -> (r: String)
    ensures
        r@ == trim_end_nul(utf8_lossy_spec(bytes@)),
{
    let text = utf8_lossy(bytes);
    let ghost t = text@;
    let chars = chars_of(text.as_str());
    proof { lemma_trail_nul(t); }
    let mut n: usize = 0;
    while n < chars.len() && chars[chars.len() - 1 - n] == '\0'
        invariant
            chars@ == t,
            n <= t.len(),
            n <= trail_nul(t),
            trail_nul(t) <= t.len(),
            forall|k: int| t.len() - trail_nul(t) <= k < t.len() ==> #[trigger] t[k] == '\0',
            trail_nul(t) < t.len() ==> t[t.len() - trail_nul(t) - 1] != '\0',
        decreases t.len() - n,
    {
        n = n + 1;
    }
    proof {
        if n < trail_nul(t) {
            assert(t[t.len() - 1 - n] == '\0');
        }
    }
    let mut out = String::new();
    let mut k: usize = 0;
    while k < chars.len() - n
        invariant
            chars@ == t,
            n <= t.len(),
            k <= t.len() - n,
            out@ == t.take(k as int),
        decreases t.len() - n - k,
    {
        push_char(&mut out, chars[k]);
        k = k + 1;
        assert(out@ =~= t.take(k as int));
    }
    out
}

/// Decode the launch blob `m_objData.data` into its plaintext.
pub fn decrypt_blob(data: &str) -> (r: Result<String, BeanfunError>)
    ensures
        match (r, blob_spec(data@)) {
            (Ok(p), Ok(s)) => p@ == s,
            (Err(e), Err(m)) => parse_error(e, m),
            _ => false,
        },
{
    let cs = chars_of(data);
    if cs.len() == 0 {
        return Err(BeanfunError::Parse("blob 為空".to_owned()));
    }
    let v = match digit16_of(cs[0]) {
        Some(d) => d as usize,
        None => {
            return Err(BeanfunError::Parse("blob 首字非十六進位".to_owned()));
        },
    };
    let alpha_str = alphabet_of(v % 4);
    let alpha = chars_of(alpha_str);
    let ghost rest = data@.drop_first();
    let ghost av = alphabet((v % 4) as nat);
    let mut decoded: Vec<char> = Vec::new();
    let mut i: usize = 1;
    while i < cs.len()
        invariant
            1 <= i <= cs@.len(),
            cs@ == data@,
            rest == data@.drop_first(),
            alpha@ == av,
            av.len() == 16,
            v < 16,
            digit16(data@[0]) == Some(v as nat),
            av == alphabet((v % 4) as nat),
            forall|k: int| 0 <= k < i - 1 ==> (#[trigger] index_of(av, rest[k])) is Some
                && index_of(av, rest[k]).unwrap() < 16,
            decoded@ == substitute(av, rest).take(i - 1),
        decreases cs@.len() - i,
    {
        let c = cs[i];
        match position(alpha.as_slice(), c) {
            Some(j) => {
                proof { lemma_index_of(av, c); }
                assert(j < 16);
                decoded.push(hex_char_of(j));
                assert(rest[i - 1] == c);
                i = i + 1;
                assert(decoded@ =~= substitute(av, rest).take(i - 1));
            },
            None => {
                proof {
                    assert(rest[i - 1] == c);
                    lemma_known_prefix(av, rest, i - 1);
                }
                let mut m = "blob 字元 '".to_owned();
                push_char(&mut m, c);
                push_str(&mut m, "' 不在 alphabet[");
                push_char(&mut m, hex_char_of(v % 4));
                push_str(&mut m, "]");
                assert(m@ =~= "blob 字元 '"@ + seq![c] + "' 不在 alphabet["@ + seq![
                    hex_char((v % 4) as nat),
                ] + "]"@);
                return Err(BeanfunError::Parse(m));
            },
        }
    }
    proof {
        lemma_known_prefix(av, rest, rest.len() as int);
        assert(decoded@ =~= substitute(av, rest));
    }
    let off = v + 1;
    if decoded.len() < off + 8 {
        return Err(BeanfunError::Parse("blob 解碼結果過短".to_owned()));
    }
    let mut key: Vec<u8> = Vec::new();
    let mut hexed: Vec<u8> = Vec::new();
    let mut k: usize = 0;
    while k < decoded.len()
        invariant
            off + 8 <= decoded@.len(),
            k <= decoded@.len(),
            key@ == ascii_bytes(decoded@.subrange(off as int, off + 8)).take(
                if k < off { 0 } else if k < off + 8 { k - off } else { 8 },
            ),
            hexed@ == ascii_bytes(decoded@.take(off as int) + decoded@.skip(off + 8)).take(
                if k < off { k as int } else if k < off + 8 { off as int } else { k - 8 },
            ),
        decreases decoded@.len() - k,
    {
        let b = decoded[k] as u8;
        if k < off || k >= off + 8 {
            hexed.push(b);
        } else {
            key.push(b);
        }
        k = k + 1;
        assert(key@ =~= ascii_bytes(decoded@.subrange(off as int, off + 8)).take(
            if k < off { 0 } else if k < off + 8 { k - off } else { 8 },
        ));
        assert(hexed@ =~= ascii_bytes(decoded@.take(off as int) + decoded@.skip(off + 8)).take(
            if k < off { k as int } else if k < off + 8 { off as int } else { k - 8 },
        ));
    }
    assert(key@ =~= ascii_bytes(decoded@.subrange(off as int, off + 8)));
    assert(hexed@ =~= ascii_bytes(decoded@.take(off as int) + decoded@.skip(off + 8)));
    let cipher = match hex_decode(hexed.as_slice()) {
        Ok(c) => c,
        Err(e) => {
            proof { hex_digits_are_hex(av, rest, off as int); }
            return Err(BeanfunError::Parse(concat("blob 密文非 hex：", e.as_str())));
        },
    };
    if cipher.len() % 8 != 0 {
        return Err(BeanfunError::Parse("blob 密文非 8 bytes 倍數".to_owned()));
    }
    let plain = des_ecb_decrypt(key.as_slice(), cipher.as_slice());
    Ok(utf8_trimmed_end(plain.as_slice()))
}

/// A lower-case hex digit, as the portal writes the ciphertext and the key.
pub open spec fn lower_hex(c: char) -> bool {
    ('0' <= c && c <= '9') || ('a' <= c && c <= 'f')
}

/// The launch blob as the portal builds it: the hex text `h` of the
/// ciphertext with the 8-digit `key` put in at offset `v + 1`, each digit
/// then written as the character at its value in alphabet `v % 4`, all
/// behind the digit `v` itself.
pub open spec fn portal_blob(v: nat, key: Seq<char>, h: Seq<char>) -> Seq<char> {
    let spliced = h.take(v + 1 as int) + key + h.skip(v + 1 as int);
    seq![hex_char(v)] + Seq::new(spliced.len(), |i: int| alphabet(v % 4)[digit16(spliced[i]).unwrap() as int])
}

/// Decoding undoes the portal's encoding for every first digit: whatever
/// `v` is, the key is the one put in at `v + 1`, the rest is the ciphertext,
/// and the blob decrypts to that ciphertext's plaintext under that key.
pub proof fn law_blob_round_trip(v: nat, key: Seq<char>, h: Seq<char>)
    requires
        v < 16,
        key.len() == 8,
        forall|i: int| 0 <= i < key.len() ==> lower_hex(#[trigger] key[i]),
        forall|i: int| 0 <= i < h.len() ==> lower_hex(#[trigger] h[i]),
        h.len() >= v + 1,
        h.len() % 16 == 0,
    ensures
        blob_spec(portal_blob(v, key, h)) == Ok::<Seq<char>, Seq<char>>(
            blob_plaintext(ascii_bytes(key), hex_bytes(ascii_bytes(h))),
        ),
{
    let alpha = alphabet(v % 4);
    let spliced = h.take(v + 1 as int) + key + h.skip(v + 1 as int);
    let data = portal_blob(v, key, h);
    lemma_alphabet_inverse(v % 4, 0);
    assert(digit16(data[0]) == Some(v));
    let rest = data.drop_first();
    assert forall|k: int| 0 <= k < spliced.len() implies lower_hex(#[trigger] spliced[k]) by {
        if k < v + 1 {
            assert(spliced[k] == h[k]);
        } else if k < v + 9 {
            assert(spliced[k] == key[k - v - 1]);
        } else {
            assert(spliced[k] == h[k - 8]);
        }
    }
    assert forall|k: int| 0 <= k < rest.len() implies (#[trigger] index_of(alpha, rest[k])) == Some(
        digit16(spliced[k]).unwrap(),
    ) by {
        assert(lower_hex(spliced[k]));
        lemma_alphabet_inverse(v % 4, digit16(spliced[k]).unwrap());
    }
    lemma_known_prefix(alpha, rest, rest.len() as int);
    assert forall|k: int| 0 <= k < rest.len() implies #[trigger] substitute(alpha, rest)[k] == spliced[k] by {
        assert(lower_hex(spliced[k]));
        assert(index_of(alpha, rest[k]) == Some(digit16(spliced[k]).unwrap()));
    }
    let decoded = substitute(alpha, rest);
    assert(decoded =~= spliced);
    assert(decoded.subrange(v + 1 as int, v + 9 as int) =~= key);
    assert(decoded.take(v + 1 as int) + decoded.skip(v + 9 as int) =~= h);
    assert((h.len() / 2) % 8 == 0);
}

/// The substituted text is made of hex digits, so hex decoding can only
/// refuse it for its length.
proof fn hex_digits_are_hex(av: Seq<char>, rest: Seq<char>, off: int)
    requires
        forall|k: int| 0 <= k < rest.len() ==> (#[trigger] index_of(av, rest[k])) is Some,
        forall|k: int| 0 <= k < rest.len() ==> index_of(av, rest[k]).unwrap() < 16,
        0 < off,
        off + 8 <= rest.len(),
    ensures
        all_hex(ascii_bytes(substitute(av, rest).take(off) + substitute(av, rest).skip(off + 8))),
{
    let d = substitute(av, rest);
    let h = d.take(off) + d.skip(off + 8);
    assert forall|i: int| 0 <= i < ascii_bytes(h).len() implies (#[trigger] crate::crypto::hex_value(
        ascii_bytes(h)[i],
    )) is Some by {
        let j = if i < off { i } else { i + 8 };
        assert(h[i] == d[j]);
        let x = index_of(av, rest[j]).unwrap();
        assert(x < 16);
    }
}


/// The part of `s` before its first `;` (all of it when there is none).
pub open spec fn before_semicolon(s: Seq<char>) -> Seq<char> {
    match first_occ(s, seq![';'], 0) {
        Some(i) => s.take(i),
        None => s,
    }
}

/// One `Key=Value` field of a `&&&&`-joined blob plaintext (only the part
/// before the first `;` is read).
pub open spec fn blob_field_spec(plain: Seq<char>, key: Seq<char>) -> Option<Seq<char>> {
    split_field(before_semicolon(plain), "&&&&"@, key + seq!['='], 0)
}

fn before_semicolon_of(s: &[char]) -> (r: Vec<char>)
    ensures
        r@ == before_semicolon(s@),
{
    let semi = [';'];
    assert(semi@ =~= seq![';']);
    let end = match first_occurrence(s, &semi, 0) {
        Some(i) => i,
        None => s.len(),
    };
    let mut out: Vec<char> = Vec::new();
    let mut k: usize = 0;
    while k < end
        invariant
            end <= s@.len(),
            k <= end,
            out@ == s@.take(k as int),
        decreases end - k,
    {
        out.push(s[k]);
        k = k + 1;
        assert(out@ =~= s@.take(k as int));
    }
    if end == s.len() {
        assert(out@ =~= s@);
    }
    out
}

/// Pull one `Key=Value` field out of a `&&&&`-joined blob plaintext.
pub fn blob_field(plain: &str, key: &str) -> (r: Option<String>)
    ensures
        r.deep_view() == blob_field_spec(plain@, key@),
{
    let cs = chars_of(plain);
    let head = before_semicolon_of(cs.as_slice());
    let sep = chars_of("&&&&");
    let mut prefix = chars_of(key);
    prefix.push('=');
    assert(prefix@ =~= key@ + seq!['=']);
    proof { reveal_strlit("&&&&"); }
    match find_split_field(head.as_slice(), sep.as_slice(), prefix.as_slice()) {
        Some(v) => Some(string_of(v.as_slice())),
        None => None,
    }
}

/// The request body of the v2 game-password exchange.
#[derive(Debug, Clone, PartialEq, Eq)]
pub struct V2Request {
    pub sn: String,
    pub launch_ticket: String,
    pub cv: String,
    pub hash: String,
    pub arch: String,
}

/// The local half of the v2 password call: the blob's own fields plus the
/// game manager's integrity trio `(CV, Hash, arch)`. Returns
/// `(service_account, request)`. A blob that does not decode is reported
/// before any trouble reading the game manager.
pub fn v2_request(
    sn: &str,
    data: &str,
    integrity: Result<(String, String, String), BeanfunError>,
) -> (r: Result<(String, V2Request), BeanfunError>)
    ensures
        match blob_spec(data@) {
            Err(m) => r matches Err(e) && parse_error(e, m),
            Ok(plain) => match blob_field_spec(plain, "LaunchTicket"@) {
                None => r matches Err(e) && parse_error(e, "blob 內找不到 LaunchTicket"@),
                Some(ticket) => match integrity {
                    Err(ie) => r == Err::<(String, V2Request), BeanfunError>(ie),
                    Ok((cv, hash, arch)) => r matches Ok((account, req)) && req.sn@ == sn@
                        && req.launch_ticket@ == ticket && req.cv == cv && req.hash == hash
                        && req.arch == arch && account@ == match blob_field_spec(
                        plain,
                        "ServiceAccount"@,
                    ) {
                        Some(a) => a,
                        None => Seq::<char>::empty(),
                    },
                },
            },
        },
{
    let plain = decrypt_blob(data)?;
    let ticket = match blob_field(plain.as_str(), "LaunchTicket") {
        Some(t) => t,
        None => {
            return Err(BeanfunError::Parse("blob 內找不到 LaunchTicket".to_owned()));
        },
    };
    let account = match blob_field(plain.as_str(), "ServiceAccount") {
        Some(a) => a,
        None => String::new(),
    };
    let (cv, hash, arch) = integrity?;
    Ok((account, V2Request { sn: sn.to_owned(), launch_ticket: ticket, cv, hash, arch }))
}

/// The `;`-separated fields of an envelope `1;{key8}{cipher_hex}`: the
/// payload after a leading `1`, or `None` when the envelope is not one.
pub open spec fn envelope_payload(env: Seq<char>) -> Option<Seq<char>> {
    match first_occ(env, seq![';'], 0) {
        None => None,
        Some(i) => if env.take(i) == seq!['1'] {
            Some(before_semicolon(env.skip(i + 1)))
        } else {
            None
        },
    }
}

/// A key character as a key byte, ASCII style: itself when it is ASCII,
/// `?` otherwise.
pub open spec fn key_byte(c: char) -> u8 {
    if (c as u32) <= 0x7f {
        c as u8
    } else {
        63u8
    }
}

/// The key bytes of the key characters.
pub open spec fn key_bytes(s: Seq<char>) -> Seq<u8> {
    Seq::new(s.len(), |i: int| key_byte(s[i]))
}

/// What the envelope decrypts to, or the message of the step that refused it.
pub open spec fn envelope_spec(env: Seq<char>) -> Result<Seq<char>, Seq<char>> {
    match envelope_payload(env) {
        None => Err("OTP envelope rejected: "@ + clip_spec(env, 100)),
        Some(payload) => if payload.len() < 8 {
            Err("OTP payload too short"@)
        } else {
            let bytes = encode_utf8(payload.skip(8));
            if !(bytes.len() % 2 == 0 && crate::crypto::all_hex(bytes)) {
                Err("Invalid hex: "@ + hex_error_text(bytes))
            } else if hex_bytes(bytes).len() % 8 != 0 {
                Err("Ciphertext not multiple of 8 bytes"@)
            } else {
                Ok(des_plaintext(key_bytes(payload.take(8)), hex_bytes(bytes)))
            }
        },
    }
}

/// Take apart and decrypt a `1;{key8}{cipher_hex}` envelope:
/// DES-ECB/NoPadding with the first eight characters of the payload as the
/// key, each one that is not ASCII taken as `?`; the plaintext is read as
/// ASCII (`?` above 0x7F) with NULs trimmed at both ends.
pub fn decrypt_envelope(envelope: &str) -> (r: Result<String, BeanfunError>)
    ensures
        match (r, envelope_spec(envelope@)) {
            (Ok(p), Ok(s)) => p@ == s,
            (Err(e), Err(m)) => parse_error(e, m),
            _ => false,
        },
{
    let cs = chars_of(envelope);
    let semi = [';'];
    assert(semi@ =~= seq![';']);
    let rejected = concat("OTP envelope rejected: ", clip(envelope, 100).as_str());
    let i = match first_occurrence(cs.as_slice(), &semi, 0) {
        Some(i) => i,
        None => {
            return Err(BeanfunError::Parse(rejected));
        },
    };
    if !(i == 1 && cs[0] == '1') {
        proof {
            if envelope@.take(i as int) == seq!['1'] {
                assert(envelope@.take(i as int).len() == 1);
                assert(envelope@.take(i as int)[0] == '1');
            }
        }
        return Err(BeanfunError::Parse(rejected));
    }
    assert(envelope@.take(i as int) =~= seq!['1']);
    let mut rest: Vec<char> = Vec::new();
    let mut k: usize = i + 1;
    while k < cs.len()
        invariant
            i + 1 <= k <= cs@.len(),
            rest@ == cs@.subrange(i + 1, k as int),
        decreases cs@.len() - k,
    {
        rest.push(cs[k]);
        k = k + 1;
        assert(rest@ =~= cs@.subrange(i + 1, k as int));
    }
    assert(rest@ =~= envelope@.skip(i + 1));
    let payload = before_semicolon_of(rest.as_slice());
    assert(envelope_payload(envelope@) == Some(payload@));
    if payload.len() < 8 {
        return Err(BeanfunError::Parse("OTP payload too short".to_owned()));
    }
    let mut key: Vec<u8> = Vec::new();
    let mut j: usize = 0;
    while j < 8
        invariant
            payload@.len() >= 8,
            j <= 8,
            key@ == key_bytes(payload@.take(8)).take(j as int),
        decreases 8 - j,
    {
        let c = payload[j];
        let b: u8 = if (c as u32) <= 0x7f {
            c as u8
        } else {
            63u8
        };
        key.push(b);
        j = j + 1;
        assert(key@ =~= key_bytes(payload@.take(8)).take(j as int));
    }
    assert(key@ =~= key_bytes(payload@.take(8)));
    let mut tail: Vec<char> = Vec::new();
    let mut m: usize = 8;
    while m < payload.len()
        invariant
            8 <= m <= payload@.len(),
            tail@ == payload@.subrange(8, m as int),
        decreases payload@.len() - m,
    {
        tail.push(payload[m]);
        m = m + 1;
        assert(tail@ =~= payload@.subrange(8, m as int));
    }
    assert(tail@ =~= payload@.skip(8));
    let tail_str = string_of(tail.as_slice());
    let cipher = match hex_decode(tail_str.as_str().as_bytes()) {
        Ok(c) => c,
        Err(e) => {
            return Err(BeanfunError::Parse(concat("Invalid hex: ", e.as_str())));
        },
    };
    if cipher.len() % 8 != 0 {
        return Err(BeanfunError::Parse("Ciphertext not multiple of 8 bytes".to_owned()));
    }
    let plain = des_ecb_decrypt(key.as_slice(), cipher.as_slice());
    Ok(ascii_trimmed(plain.as_slice()))
}

/// A real game password is exactly this long.
pub const OTP_LEN: usize = 10;

/// `char::is_ascii_alphanumeric`.
pub open spec fn is_alnum(c: char) -> bool {
    ('0' <= c && c <= '9') || ('a' <= c && c <= 'z') || ('A' <= c && c <= 'Z')
}

/// The `data` of a v2 reply, when the reply is JSON and it is a non-empty string.
pub open spec fn v2_data(resp: Seq<char>) -> Option<Seq<char>> {
    match str_field(resp, "data"@) {
        Some(d) => if d.len() > 0 { Some(d) } else { None },
        None => None,
    }
}

/// What a v2 reply yields: the password, or the message that refuses it.
/// A refusal decrypts as cleanly as a password, so only an exactly
/// ten-character alphanumeric result is taken.
pub open spec fn v2_reply_spec(resp: Seq<char>) -> Result<Seq<char>, Seq<char>> {
    match json_error_spec(resp) {
        Some(e) => Err("v2 回應非 JSON："@ + e + " — "@ + clip_spec(resp, 200)),
        None => match v2_data(resp) {
            None => Err("v2 回應無 data 欄位："@ + clip_spec(resp, 200)),
            Some(d) => match envelope_spec("1;"@ + d) {
                Err(m) => Err(m),
                Ok(otp) => if otp.len() == OTP_LEN && forall|i: int|
                    0 <= i < otp.len() ==> is_alnum(#[trigger] otp[i]) {
                    Ok(otp)
                } else {
                    Err("OTP 內容異常（"@ + dec(otp.len()) + " 字："@ + clip_spec(otp, 16)
                        + "）beanfun 回應："@ + clip_spec(resp, 200))
                },
            },
        },
    }
}

/// Read the game password out of a `get_webstart_otp_v2.ashx` reply.
pub fn read_v2_reply(resp: &str) -> (r: Result<String, BeanfunError>)
    ensures
        match (r, v2_reply_spec(resp@)) {
            (Ok(p), Ok(s)) => p@ == s,
            (Err(e), Err(m)) => parse_error(e, m),
            _ => false,
        },
{
    if let Some(e) = json_error(resp) {
        let mut m = concat("v2 回應非 JSON：", e.as_str());
        push_str(&mut m, " — ");
        push_str(&mut m, clip(resp, 200).as_str());
        return Err(BeanfunError::Parse(m));
    }
    let enc = match get_str(resp, "data") {
        Some(d) => if d.as_str().is_empty() {
            None
        } else {
            Some(d)
        },
        None => None,
    };
    let enc = match enc {
        Some(d) => d,
        None => {
            return Err(BeanfunError::Parse(concat("v2 回應無 data 欄位：", clip(resp, 200).as_str())));
        },
    };
    let envelope = concat("1;", enc.as_str());
    let otp = decrypt_envelope(envelope.as_str())?;
    let oc = chars_of(otp.as_str());
    let mut ok = oc.len() == OTP_LEN;
    let mut i: usize = 0;
    while i < oc.len()
        invariant
            i <= oc@.len(),
            ok == (oc@.len() == OTP_LEN && forall|k: int| 0 <= k < i ==> is_alnum(#[trigger] oc@[k])),
        decreases oc@.len() - i,
    {
        let c = oc[i];
        let alnum = ('0' <= c && c <= '9') || ('a' <= c && c <= 'z') || ('A' <= c && c <= 'Z');
        ok = ok && alnum;
        i = i + 1;
    }
    if ok {
        Ok(otp)
    } else {
        let mut m = concat("OTP 內容異常（", decimal(oc.len() as u64).as_str());
        push_str(&mut m, " 字：");
        push_str(&mut m, clip(otp.as_str(), 16).as_str());
        push_str(&mut m, "）beanfun 回應：");
        push_str(&mut m, clip(resp, 200).as_str());
        Err(BeanfunError::Parse(m))
    }
}


/// The `SN` and `Data` fields of a shared `gamaniagames://` launch link.
pub open spec fn uri_fields_spec(uri: Seq<char>) -> Result<(Seq<char>, Seq<char>), Seq<char>> {
    match split_field(uri, "&&&&"@, "SN="@, 0) {
        None => Err("連結缺少 SN"@),
        Some(sn) => match split_field(uri, "&&&&"@, "Data="@, 0) {
            None => Err("連結缺少 Data"@),
            Some(data) => Ok((sn, data)),
        },
    }
}

/// Take `(SN, Data)` out of a shared launch link; no session is needed.
pub fn launch_uri_fields(uri: &str) -> (r: Result<(String, String), BeanfunError>)
    ensures
        match (r, uri_fields_spec(uri@)) {
            (Ok((sn, data)), Ok((s, d))) => sn@ == s && data@ == d,
            (Err(e), Err(m)) => parse_error(e, m),
            _ => false,
        },
{
    let cs = chars_of(uri);
    let sep = chars_of("&&&&");
    let sn_key = chars_of("SN=");
    let data_key = chars_of("Data=");
    proof { reveal_strlit("&&&&"); }
    let sn = match find_split_field(cs.as_slice(), sep.as_slice(), sn_key.as_slice()) {
        Some(v) => string_of(v.as_slice()),
        None => {
            return Err(BeanfunError::Parse("連結缺少 SN".to_owned()));
        },
    };
    let data = match find_split_field(cs.as_slice(), sep.as_slice(), data_key.as_slice()) {
        Some(v) => string_of(v.as_slice()),
        None => {
            return Err(BeanfunError::Parse("連結缺少 Data".to_owned()));
        },
    };
    Ok((sn, data))
}

/// The launch link handed to the game manager.
pub open spec fn launch_uri_spec(region: Seq<char>, sn: Seq<char>, data: Seq<char>) -> Seq<char> {
    "gamaniagames://Region="@ + region + "&&&&SN="@ + sn + "&&&&Cmd=06004&&&&Data="@ + data
}

/// `gamaniagames://Region={region}&&&&SN={sn}&&&&Cmd=06004&&&&Data={data}`.
pub fn launch_uri(region: &str, sn: &str, data: &str) -> (r: String)
    ensures
        r@ == launch_uri_spec(region@, sn@, data@),
{
    let mut r = concat("gamaniagames://Region=", region);
    push_str(&mut r, "&&&&SN=");
    push_str(&mut r, sn);
    push_str(&mut r, "&&&&Cmd=06004&&&&Data=");
    push_str(&mut r, data);
    r
}

} // verus!
