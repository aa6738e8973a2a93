//! Character-level helpers shared by the parsers.
use vstd::prelude::*;
use vstd::utf8::{decode_utf8, valid_utf8};

verus! {

/// What `String::from_utf8_lossy` makes of `bytes`: the text they encode,
/// with U+FFFD in place of each invalid sequence.
pub uninterp spec fn utf8_lossy_spec(bytes: Seq<u8>) -> Seq<char>;

/// `String::from_utf8_lossy`: bytes read as UTF-8, an invalid sequence
/// becoming U+FFFD. Of valid UTF-8 it is the decoded text; where the
/// replacements go is left to the name.
#[verifier::external_body]
pub(crate) fn utf8_lossy(bytes: &[u8]) -> (r: String)
    ensures
        r@ == utf8_lossy_spec(bytes@),
        valid_utf8(bytes@) ==> r@ == decode_utf8(bytes@),
{
    String::from_utf8_lossy(bytes).into_owned()
}

/// `String::push`: appends one character.
#[verifier::external_body]
pub(crate) fn push_char(s: &mut String, c: char)
    ensures
        final(s)@ == old(s)@.push(c),
{
    s.push(c);
}

/// `String::push_str`: appends a string slice.
#[verifier::external_body]
pub(crate) fn push_str(s: &mut String, t: &str)
    ensures
        final(s)@ == old(s)@ + t@,
{
    s.push_str(t);
}

/// The characters of `s`, in order.
pub fn chars_of(s: &str) -> (r: Vec<char>)
    ensures
        r@ == s@,
{
    let mut r: Vec<char> = Vec::new();
    for c in it: s.chars()
        invariant
            r@ == it.seq().take(it.index() as int),
            it.seq() == s@,
    {
        r.push(c);
    }
    r
}

/// A string holding exactly `cs`.
pub fn string_of(cs: &[char]) -> (r: String)
    ensures
        r@ == cs@,
{
    let mut r = String::new();
    let mut i: usize = 0;
    while i < cs.len()
        invariant
            i <= cs@.len(),
            r@ == cs@.take(i as int),
        decreases cs@.len() - i,
    {
        push_char(&mut r, cs[i]);
        i = i + 1;
        assert(r@ =~= cs@.take(i as int));
    }
    assert(cs@.take(cs@.len() as int) =~= cs@);
    r
}

/// Whether two character sequences are equal.
pub fn chars_eq(a: &[char], b: &[char]) -> (r: bool)
    ensures
        r == (a@ == b@),
{
    if a.len() != b.len() {
        return false;
    }
    let mut i: usize = 0;
    while i < a.len()
        invariant
            i <= a@.len(),
            a@.len() == b@.len(),
            forall|j: int| 0 <= j < i ==> a@[j] == b@[j],
        decreases a@.len() - i,
    {
        if a[i] != b[i] {
            return false;
        }
        i = i + 1;
    }
    assert(a@ =~= b@);
    true
}

/// Whether two string slices hold the same characters.
pub fn str_eq(a: &str, b: &str) -> (r: bool)
    ensures
        r == (a@ == b@),
{
    let x = chars_of(a);
    let y = chars_of(b);
    chars_eq(x.as_slice(), y.as_slice())
}

pub open spec fn ascii_lower(c: char) -> char {
    if 'A' <= c && c <= 'Z' { ((c as u32) + 32) as char } else { c }
}

/// ASCII lower-casing of one character.
pub fn to_ascii_lower(c: char) -> (r: char)
    ensures
        r == ascii_lower(c),
{
    if 'A' <= c && c <= 'Z' {
        ((c as u8) + 32) as char
    } else {
        c
    }
}


/// `p` occurs in `s` starting at index `i`.
pub open spec fn occurs_at(s: Seq<char>, p: Seq<char>, i: int) -> bool {
    0 <= i && i + p.len() <= s.len() && s.subrange(i, i + p.len()) == p
}

/// `p` occurs somewhere in `s`.
pub open spec fn contains(s: Seq<char>, p: Seq<char>) -> bool {
    exists|i: int| occurs_at(s, p, i)
}

pub open spec fn starts_with(s: Seq<char>, p: Seq<char>) -> bool {
    p.len() <= s.len() && s.take(p.len() as int) == p
}

pub open spec fn ends_with(s: Seq<char>, p: Seq<char>) -> bool {
    p.len() <= s.len() && s.skip(s.len() - p.len()) == p
}

/// Whether `needle` occurs in `hay` at index `at`.
pub fn chars_at(hay: &[char], needle: &[char], at: usize) -> (r: bool)
    ensures
        r == occurs_at(hay@, needle@, at as int),
{
    if at > hay.len() || needle.len() > hay.len() - at {
        return false;
    }
    let mut j: usize = 0;
    while j < needle.len()
        invariant
            j <= needle@.len(),
            at <= hay.len(),
            at + needle.len() <= hay.len(),
            forall|k: int| 0 <= k < j ==> hay@[at + k] == needle@[k],
        decreases needle@.len() - j,
    {
        if hay[at + j] != needle[j] {
            assert(hay@.subrange(at as int, at + needle@.len())[j as int] != needle@[j as int]);
            return false;
        }
        j = j + 1;
    }
    assert(hay@.subrange(at as int, at + needle@.len()) =~= needle@);
    true
}

/// The first index at or after `from` where `needle` occurs in `hay`.
pub fn find_from(hay: &[char], needle: &[char], from: usize) -> (r: Option<usize>)
    ensures
        match r {
            Some(i) => from <= i && occurs_at(hay@, needle@, i as int) && forall|j: int|
                from <= j < i ==> !occurs_at(hay@, needle@, j),
            None => forall|j: int| from <= j ==> !occurs_at(hay@, needle@, j),
        },
{
    if from > hay.len() {
        return None;
    }
    let mut i: usize = from;
    while i < hay.len()
        invariant
            from <= i <= hay@.len(),
            forall|j: int| from <= j < i ==> !occurs_at(hay@, needle@, j),
        decreases hay@.len() - i,
    {
        if chars_at(hay, needle, i) {
            return Some(i);
        }
        i = i + 1;
    }
    if chars_at(hay, needle, i) {
        return Some(i);
    }
    None
}

/// Whether `needle` occurs in `hay`.
pub fn str_contains(hay: &str, needle: &str) -> (r: bool)
    ensures
        r == contains(hay@, needle@),
{
    let h = chars_of(hay);
    let n = chars_of(needle);
    match find_from(h.as_slice(), n.as_slice(), 0) {
        Some(i) => true,
        None => false,
    }
}

/// `str::starts_with` on two slices.
pub fn str_starts_with(s: &str, p: &str) -> (r: bool)
    ensures
        r == starts_with(s@, p@),
{
    let a = chars_of(s);
    let b = chars_of(p);
    let r = chars_at(a.as_slice(), b.as_slice(), 0);
    assert(r == occurs_at(s@, p@, 0));
    assert(starts_with(s@, p@) ==> s@.subrange(0, p@.len() as int) =~= s@.take(p@.len() as int));
    r
}

/// `str::ends_with` on two slices.
pub fn str_ends_with(s: &str, p: &str) -> (r: bool)
    ensures
        r == ends_with(s@, p@),
{
    let a = chars_of(s);
    let b = chars_of(p);
    if b.len() > a.len() {
        return false;
    }
    let r = chars_at(a.as_slice(), b.as_slice(), a.len() - b.len());
    assert(s@.subrange(s@.len() - p@.len(), s@.len() as int) =~= s@.skip(s@.len() - p@.len()));
    r
}

/// `char::is_whitespace`: the Unicode White_Space property.
pub open spec fn is_ws(c: char) -> bool {
    ||| ('\u{9}' <= c && c <= '\u{d}')
    ||| c == ' '
    ||| c == '\u{85}'
    ||| c == '\u{a0}'
    ||| c == '\u{1680}'
    ||| ('\u{2000}' <= c && c <= '\u{200a}')
    ||| c == '\u{2028}'
    ||| c == '\u{2029}'
    ||| c == '\u{202f}'
    ||| c == '\u{205f}'
    ||| c == '\u{3000}'
}

/// `char::is_whitespace`.
pub fn is_whitespace(c: char) -> (r: bool)
    ensures
        r == is_ws(c),
{
    ('\u{9}' <= c && c <= '\u{d}') || c == ' ' || c == '\u{85}' || c == '\u{a0}' || c
        == '\u{1680}' || ('\u{2000}' <= c && c <= '\u{200a}') || c == '\u{2028}' || c
        == '\u{2029}' || c == '\u{202f}' || c == '\u{205f}' || c == '\u{3000}'
}

/// Number of leading whitespace characters of `s`.
pub open spec fn lead_ws(s: Seq<char>) -> nat
    decreases s.len(),
{
    if s.len() > 0 && is_ws(s[0]) { 1 + lead_ws(s.drop_first()) } else { 0 }
}

/// Number of trailing whitespace characters of `s`.
pub open spec fn trail_ws(s: Seq<char>) -> nat
    decreases s.len(),
{
    if s.len() > 0 && is_ws(s.last()) { 1 + trail_ws(s.drop_last()) } else { 0 }
}

/// `str::trim_start`.
pub open spec fn trim_start(s: Seq<char>) -> Seq<char> {
    s.skip(lead_ws(s) as int)
}

/// `str::trim_end`.
pub open spec fn trim_end(s: Seq<char>) -> Seq<char> {
    s.take(s.len() - trail_ws(s))
}

/// `str::trim`.
pub open spec fn trim(s: Seq<char>) -> Seq<char> {
    trim_end(trim_start(s))
}

pub proof fn lemma_lead_ws(s: Seq<char>)
    ensures
        lead_ws(s) <= s.len(),
        forall|i: int| 0 <= i < lead_ws(s) ==> is_ws(#[trigger] s[i]),
        lead_ws(s) < s.len() ==> !is_ws(s[lead_ws(s) as int]),
    decreases s.len(),
{
    if s.len() > 0 && is_ws(s[0]) {
        lemma_lead_ws(s.drop_first());
        assert forall|i: int| 0 <= i < lead_ws(s) implies is_ws(#[trigger] s[i]) by {
            if i > 0 {
                assert(s[i] == s.drop_first()[i - 1]);
            }
        }
    }
}

pub proof fn lemma_trail_ws(s: Seq<char>)
    ensures
        trail_ws(s) <= s.len(),
        forall|i: int| s.len() - trail_ws(s) <= i < s.len() ==> is_ws(#[trigger] s[i]),
        trail_ws(s) < s.len() ==> !is_ws(s[s.len() - trail_ws(s) - 1]),
    decreases s.len(),
{
    if s.len() > 0 && is_ws(s.last()) {
        lemma_trail_ws(s.drop_last());
        assert forall|i: int| s.len() - trail_ws(s) <= i < s.len() implies is_ws(#[trigger] s[i]) by {
            if i < s.len() - 1 {
                assert(s[i] == s.drop_last()[i]);
            }
        }
    }
}

/// Index of the first non-whitespace character (or the length).
fn count_lead_ws(cs: &[char]) -> (r: usize)
    ensures
        r == lead_ws(cs@),
{
    proof { lemma_lead_ws(cs@); }
    let mut i: usize = 0;
    while i < cs.len() && is_whitespace(cs[i])
        invariant
            i <= cs@.len(),
            i <= lead_ws(cs@),
            lead_ws(cs@) <= cs@.len(),
            forall|j: int| 0 <= j < lead_ws(cs@) ==> is_ws(#[trigger] cs@[j]),
            lead_ws(cs@) < cs@.len() ==> !is_ws(cs@[lead_ws(cs@) as int]),
        decreases cs@.len() - i,
    {
        i = i + 1;
    }
    proof { r_lead(cs@, i as int); }
    i
}

proof fn r_lead(s: Seq<char>, i: int)
    requires
        0 <= i <= lead_ws(s),
        lead_ws(s) <= s.len(),
        i == s.len() || !is_ws(s[i]),
        forall|j: int| 0 <= j < lead_ws(s) ==> is_ws(#[trigger] s[j]),
    ensures
        i == lead_ws(s),
{
    if i < lead_ws(s) {
        assert(is_ws(s[i]));
    }
}

/// Number of trailing whitespace characters.
fn count_trail_ws(cs: &[char]) -> (r: usize)
    ensures
        r == trail_ws(cs@),
{
    proof { lemma_trail_ws(cs@); }
    let mut n: usize = 0;
    while n < cs.len() && is_whitespace(cs[cs.len() - 1 - n])
        invariant
            n <= cs@.len(),
            n <= trail_ws(cs@),
            trail_ws(cs@) <= cs@.len(),
            forall|j: int| cs@.len() - trail_ws(cs@) <= j < cs@.len() ==> is_ws(#[trigger] cs@[j]),
            trail_ws(cs@) < cs@.len() ==> !is_ws(cs@[cs@.len() - trail_ws(cs@) - 1]),
        decreases cs@.len() - n,
    {
        n = n + 1;
    }
    proof {
        if n < trail_ws(cs@) {
            assert(is_ws(cs@[cs@.len() - 1 - n]));
        }
    }
    n
}

/// `str::trim` on a character slice.
pub fn trim_chars(cs: &[char]) -> (r: Vec<char>)
    ensures
        r@ == trim(cs@),
{
    let a = count_lead_ws(cs);
    proof { lemma_lead_ws(cs@); }
    let mut inner: Vec<char> = Vec::new();
    let mut i: usize = a;
    while i < cs.len()
        invariant
            a == lead_ws(cs@),
            a <= i <= cs@.len(),
            inner@ == cs@.subrange(a as int, i as int),
        decreases cs@.len() - i,
    {
        inner.push(cs[i]);
        i = i + 1;
        assert(inner@ =~= cs@.subrange(a as int, i as int));
    }
    assert(inner@ =~= trim_start(cs@));
    let b = count_trail_ws(inner.as_slice());
    proof { lemma_trail_ws(inner@); }
    let mut out: Vec<char> = Vec::new();
    let mut k: usize = 0;
    while k < inner.len() - b
        invariant
            b == trail_ws(inner@),
            b <= inner@.len(),
            k <= inner@.len() - b,
            out@ == inner@.take(k as int),
        decreases inner@.len() - b - k,
    {
        out.push(inner[k]);
        k = k + 1;
        assert(out@ =~= inner@.take(k as int));
    }
    out
}

/// `str::trim`.
pub fn str_trim(s: &str) -> (r: String)
    ensures
        r@ == trim(s@),
{
    let cs = chars_of(s);
    let t = trim_chars(cs.as_slice());
    string_of(t.as_slice())
}

/// The first `n` characters of `s` (all of them when it is shorter).
pub open spec fn clip_spec(s: Seq<char>, n: nat) -> Seq<char> {
    if n <= s.len() { s.take(n as int) } else { s }
}

/// Truncate a server reply for an error message, by characters so that a
/// multi-byte character is never split.
pub fn clip(s: &str, chars: usize) -> (r: String)
    ensures
        r@ == clip_spec(s@, chars as nat),
{
    let cs = chars_of(s);
    let mut out = String::new();
    let mut i: usize = 0;
    while i < cs.len() && i < chars
        invariant
            i <= cs@.len(),
            i <= chars,
            out@ == cs@.take(i as int),
        decreases cs@.len() - i,
    {
        push_char(&mut out, cs[i]);
        i = i + 1;
        assert(out@ =~= cs@.take(i as int));
    }
    if i == cs.len() {
        assert(cs@.take(i as int) =~= cs@);
    }
    out
}

/// `a` followed by `b`, as a new string.
pub fn concat(a: &str, b: &str) -> (r: String)
    ensures
        r@ == a@ + b@,
{
    let mut r = String::new();
    push_str(&mut r, a);
    push_str(&mut r, b);
    assert(r@ =~= a@ + b@);
    r
}


/// The first index at or after `from` where `p` occurs in `s`.
pub open spec fn first_occ(s: Seq<char>, p: Seq<char>, from: int) -> Option<int>
    decreases s.len() + 1 - from,
{
    if from < 0 || from + p.len() > s.len() {
        None
    } else if occurs_at(s, p, from) {
        Some(from)
    } else {
        first_occ(s, p, from + 1)
    }
}

pub proof fn lemma_first_occ(s: Seq<char>, p: Seq<char>, from: int, i: Option<int>)
    requires
        0 <= from,
        match i {
            Some(k) => from <= k && occurs_at(s, p, k) && forall|j: int|
                from <= j < k ==> !occurs_at(s, p, j),
            None => forall|j: int| from <= j ==> !occurs_at(s, p, j),
        },
    ensures
        first_occ(s, p, from) == i,
    decreases s.len() + 1 - from,
{
    if from + p.len() > s.len() {
        if let Some(k) = i {
            assert(occurs_at(s, p, k));
        }
    } else if occurs_at(s, p, from) {
        if let Some(k) = i {
            if k > from {
                assert(!occurs_at(s, p, from));
            }
        } else {
            assert(!occurs_at(s, p, from));
        }
    } else {
        if let Some(k) = i {
            if k == from {
                assert(occurs_at(s, p, from));
            }
        }
        lemma_first_occ(s, p, from + 1, i);
    }
}

/// `first_occ`, computed.
pub fn first_occurrence(hay: &[char], needle: &[char], from: usize) -> (r: Option<usize>)
    ensures
        match r {
            Some(i) => first_occ(hay@, needle@, from as int) == Some(i as int) && i + needle@.len()
                <= hay@.len(),
            None => first_occ(hay@, needle@, from as int) is None,
        },
{
    let r = find_from(hay, needle, from);
    proof {
        match r {
            Some(i) => lemma_first_occ(hay@, needle@, from as int, Some(i as int)),
            None => lemma_first_occ(hay@, needle@, from as int, None),
        }
    }
    r
}

/// The text after `prefix` in the first `sep`-separated piece of `s[start..]`
/// that starts with `prefix`: `split(sep).find_map(|x| x.strip_prefix(prefix))`.
pub open spec fn split_field(s: Seq<char>, sep: Seq<char>, prefix: Seq<char>, start: int) -> Option<
    Seq<char>,
>
    decreases s.len() - start,
{
    if start < 0 || start > s.len() || sep.len() == 0 {
        None
    } else {
        let end = match first_occ(s, sep, start) {
            Some(i) => i,
            None => s.len() as int,
        };
        let piece = s.subrange(start, end);
        if starts_with(piece, prefix) {
            Some(piece.skip(prefix.len() as int))
        } else {
            match first_occ(s, sep, start) {
                Some(i) => if i + sep.len() > start && i + sep.len() <= s.len() {
                    split_field(s, sep, prefix, i + sep.len())
                } else {
                    None
                },
                None => None,
            }
        }
    }
}

pub proof fn lemma_first_occ_bounds(s: Seq<char>, p: Seq<char>, from: int)
    ensures
        first_occ(s, p, from) matches Some(i) ==> from <= i && i + p.len() <= s.len() && occurs_at(
            s,
            p,
            i,
        ),
    decreases s.len() + 1 - from,
{
    if from < 0 || from + p.len() > s.len() {
    } else if occurs_at(s, p, from) {
    } else {
        lemma_first_occ_bounds(s, p, from + 1);
    }
}

/// `split(sep).find_map(|piece| piece.strip_prefix(prefix))` over `s`.
pub fn find_split_field(s: &[char], sep: &[char], prefix: &[char]) -> (r: Option<Vec<char>>)
    requires
        sep@.len() > 0,
    ensures
        match r {
            Some(v) => split_field(s@, sep@, prefix@, 0) == Some(v@),
            None => split_field(s@, sep@, prefix@, 0) is None,
        },
{
    let mut start: usize = 0;
    while start <= s.len()
        invariant
            sep@.len() > 0,
            split_field(s@, sep@, prefix@, 0) == split_field(s@, sep@, prefix@, start as int),
        decreases s@.len() + 1 - start,
    {
        let occ = first_occurrence(s, sep, start);
        proof { lemma_first_occ_bounds(s@, sep@, start as int); }
        let end = match occ {
            Some(i) => i,
            None => s.len(),
        };
        let ghost piece = s@.subrange(start as int, end as int);
        let mut matched = prefix.len() <= end - start;
        if matched {
            matched = chars_at(s, prefix, start);
            proof {
                if matched {
                    assert(piece.take(prefix@.len() as int) =~= s@.subrange(start as int, start + prefix@.len()));
                } else {
                    if starts_with(piece, prefix@) {
                        assert(piece.take(prefix@.len() as int) =~= s@.subrange(start as int, start + prefix@.len()));
                    }
                }
            }
        } else {
            assert(!starts_with(piece, prefix@));
        }
        if matched {
            let mut out: Vec<char> = Vec::new();
            let mut k: usize = start + prefix.len();
            while k < end
                invariant
                    start + prefix@.len() <= k <= end,
                    end <= s@.len(),
                    out@ == s@.subrange(start + prefix@.len(), k as int),
                decreases end - k,
            {
                out.push(s[k]);
                k = k + 1;
                assert(out@ =~= s@.subrange(start + prefix@.len(), k as int));
            }
            assert(out@ =~= piece.skip(prefix@.len() as int));
            return Some(out);
        }
        match occ {
            Some(i) => {
                start = i + sep.len();
            },
            None => {
                return None;
            },
        }
    }
    None
}



/// A Unicode scalar value: what `char::from_u32` accepts.
pub open spec fn scalar(code: u32) -> bool {
    code <= 0x10FFFF && !(0xD800 <= code && code <= 0xDFFF)
}

/// `char::from_u32`: the character with code `code`, when it is a scalar value.
#[verifier::external_body]
pub(crate) fn char_from_u32(code: u32) -> (r: Option<char>)
    ensures
        r is Some <==> scalar(code),
        r matches Some(c) ==> c == code as char,
{
    char::from_u32(code)
}

/// Appends `cs[from..to]` to `out`.
pub fn push_slice(out: &mut String, cs: &[char], from: usize, to: usize)
    requires
        from <= to <= cs@.len(),
    ensures
        final(out)@ == old(out)@ + cs@.subrange(from as int, to as int),
{
    let ghost start = out@;
    let mut i: usize = from;
    while i < to
        invariant
            from <= i <= to,
            to <= cs@.len(),
            out@ == start + cs@.subrange(from as int, i as int),
        decreases to - i,
    {
        push_char(out, cs[i]);
        i = i + 1;
        assert(out@ =~= start + cs@.subrange(from as int, i as int));
    }
}

/// `cs[from..to]` as a new string.
pub fn substring(cs: &[char], from: usize, to: usize) -> (r: String)
    requires
        from <= to <= cs@.len(),
    ensures
        r@ == cs@.subrange(from as int, to as int),
{
    let mut r = String::new();
    push_slice(&mut r, cs, from, to);
    assert(r@ =~= cs@.subrange(from as int, to as int));
    r
}

/// `str::eq_ignore_ascii_case`: equal once ASCII letters are lower-cased.
pub open spec fn eq_ignore_case(a: Seq<char>, b: Seq<char>) -> bool {
    a.len() == b.len() && forall|i: int| 0 <= i < a.len() ==> ascii_lower(#[trigger] a[i]) == ascii_lower(b[i])
}

/// `str::eq_ignore_ascii_case`.
pub fn eq_ignore_ascii_case(a: &str, b: &str) -> (r: bool)
    ensures
        r == eq_ignore_case(a@, b@),
{
    let x = chars_of(a);
    let y = chars_of(b);
    if x.len() != y.len() {
        return false;
    }
    let mut i: usize = 0;
    while i < x.len()
        invariant
            i <= x@.len(),
            x@ == a@,
            y@ == b@,
            x@.len() == y@.len(),
            forall|k: int| 0 <= k < i ==> ascii_lower(#[trigger] x@[k]) == ascii_lower(y@[k]),
        decreases x@.len() - i,
    {
        if to_ascii_lower(x[i]) != to_ascii_lower(y[i]) {
            return false;
        }
        i = i + 1;
    }
    true
}

/// The pieces of `s` between occurrences of `c`, as `str::split(c)` yields
/// them: always at least one, empty pieces kept.
pub open spec fn split_on(s: Seq<char>, c: char) -> Seq<Seq<char>>
    decreases s.len(),
{
    if s.len() == 0 {
        seq![Seq::empty()]
    } else {
        let prev = split_on(s.drop_last(), c);
        if s.last() == c {
            prev.push(Seq::empty())
        } else {
            prev.update(prev.len() - 1, prev.last().push(s.last()))
        }
    }
}

pub proof fn lemma_split_on_len(s: Seq<char>, c: char)
    ensures
        split_on(s, c).len() >= 1,
    decreases s.len(),
{
    if s.len() > 0 {
        lemma_split_on_len(s.drop_last(), c);
    }
}

/// `s.split(c)`, collected.
pub fn split_char(s: &str, c: char) -> (r: Vec<String>)
    ensures
        r.deep_view() == split_on(s@, c),
{
    let cs = chars_of(s);
    let mut done: Vec<String> = Vec::new();
    let mut cur = String::new();
    let mut i: usize = 0;
    assert(cs@.take(0) =~= Seq::<char>::empty());
    while i < cs.len()
        invariant
            i <= cs@.len(),
            cs@ == s@,
            done.deep_view().push(cur@) == split_on(cs@.take(i as int), c),
        decreases cs@.len() - i,
    {
        let ghost before = cs@.take(i as int);
        assert(cs@.take(i + 1).drop_last() =~= before);
        assert(cs@.take(i + 1).last() == cs@[i as int]);
        proof { lemma_split_on_len(before, c); }
        if cs[i] == c {
            let piece = cur;
            done.push(piece);
            cur = String::new();
            assert(done.deep_view().push(cur@) =~= split_on(before, c).push(Seq::empty()));
        } else {
            push_char(&mut cur, cs[i]);
            assert(done.deep_view().push(cur@) =~= split_on(before, c).update(
                split_on(before, c).len() - 1,
                split_on(before, c).last().push(cs@[i as int]),
            ));
        }
        i = i + 1;
    }
    assert(cs@.take(cs@.len() as int) =~= cs@);
    done.push(cur);
    done
}

/// `s` without any leading `c`s (`trim_start_matches(c)`).
pub open spec fn lead_count(s: Seq<char>, c: char) -> nat
    decreases s.len(),
{
    if s.len() > 0 && s[0] == c { 1 + lead_count(s.drop_first(), c) } else { 0 }
}

pub proof fn lemma_lead_count(s: Seq<char>, c: char)
    ensures
        lead_count(s, c) <= s.len(),
        forall|i: int| 0 <= i < lead_count(s, c) ==> s[i] == c,
        lead_count(s, c) < s.len() ==> s[lead_count(s, c) as int] != c,
    decreases s.len(),
{
    if s.len() > 0 && s[0] == c {
        lemma_lead_count(s.drop_first(), c);
        assert forall|i: int| 0 <= i < lead_count(s, c) implies s[i] == c by {
            if i > 0 {
                assert(s.drop_first()[i - 1] == s[i]);
            }
        }
    }
}

/// `str::trim_start_matches(c)`.
pub fn trim_start_char(s: &str, c: char) -> (r: String)
    ensures
        r@ == s@.skip(lead_count(s@, c) as int),
{
    let cs = chars_of(s);
    let mut i: usize = 0;
    assert(cs@.skip(0) =~= cs@);
    while i < cs.len() && cs[i] == c
        invariant
            i <= cs@.len(),
            cs@ == s@,
            lead_count(cs@, c) == i + lead_count(cs@.skip(i as int), c),
        decreases cs@.len() - i,
    {
        assert(cs@.skip(i as int).drop_first() =~= cs@.skip(i + 1));
        i = i + 1;
    }
    proof {
        if i < cs@.len() {
            assert(cs@.skip(i as int)[0] == cs@[i as int]);
        }
    }
    substring(cs.as_slice(), i, cs.len())
}


/// The pieces of `s[from..]` between the occurrences of `p`, as
/// `str::split(p)` yields them (`p` is not empty).
pub open spec fn split_pat(s: Seq<char>, p: Seq<char>, from: int) -> Seq<Seq<char>>
    decreases s.len() - from,
{
    if p.len() == 0 || from < 0 || from > s.len() {
        seq![s.subrange(from, s.len() as int)]
    } else {
        match first_occ(s, p, from) {
            None => seq![s.subrange(from, s.len() as int)],
            Some(i) => if i + p.len() <= s.len() && i >= from {
                seq![s.subrange(from, i)] + split_pat(s, p, i + p.len())
            } else {
                seq![s.subrange(from, s.len() as int)]
            },
        }
    }
}

/// The pieces joined with `sep` between them (`[..].join(sep)`).
pub open spec fn join(parts: Seq<Seq<char>>, sep: Seq<char>) -> Seq<char>
    decreases parts.len(),
{
    if parts.len() == 0 {
        Seq::empty()
    } else if parts.len() == 1 {
        parts[0]
    } else {
        parts[0] + sep + join(parts.drop_first(), sep)
    }
}

/// `str::replace(from, to)`: every non-overlapping occurrence of `from`,
/// left to right, replaced by `to`.
pub open spec fn replace_spec(s: Seq<char>, from: Seq<char>, to: Seq<char>) -> Seq<char> {
    join(split_pat(s, from, 0), to)
}

/// `str::replacen(from, to, 1)`: the first occurrence of `from` replaced by `to`.
pub open spec fn replace_first_spec(s: Seq<char>, from: Seq<char>, to: Seq<char>) -> Seq<char> {
    match first_occ(s, from, 0) {
        Some(i) => s.take(i) + to + s.skip(i + from.len()),
        None => s,
    }
}

/// `s.split(p)` collected, for a non-empty `p`.
pub fn split_str(s: &str, p: &str) -> (r: Vec<String>)
    requires
        p@.len() > 0,
    ensures
        r.deep_view() == split_pat(s@, p@, 0),
{
    let cs = chars_of(s);
    let pc = chars_of(p);
    let mut parts: Vec<String> = Vec::new();
    let mut from: usize = 0;
    assert(parts.deep_view() + split_pat(s@, p@, 0) =~= split_pat(s@, p@, 0));
    while from <= cs.len()
        invariant
            from <= cs@.len(),
            cs@ == s@,
            pc@ == p@,
            p@.len() > 0,
            parts.deep_view() + split_pat(s@, p@, from as int) == split_pat(s@, p@, 0),
        decreases cs@.len() + 1 - from,
    {
        let occ = first_occurrence(cs.as_slice(), pc.as_slice(), from);
        proof { lemma_first_occ_bounds(s@, p@, from as int); }
        match occ {
            Some(i) => {
                let piece = substring(cs.as_slice(), from, i);
                let ghost before = parts.deep_view();
                parts.push(piece);
                proof {
                    assert(parts.deep_view() =~= before.push(s@.subrange(from as int, i as int)));
                    assert(split_pat(s@, p@, from as int) =~= seq![s@.subrange(from as int, i as int)] + split_pat(s@, p@, i + p@.len()));
                    assert(parts.deep_view() + split_pat(s@, p@, i + p@.len()) =~= before + split_pat(s@, p@, from as int));
                }
                from = i + pc.len();
            },
            None => {
                let piece = substring(cs.as_slice(), from, cs.len());
                let ghost before = parts.deep_view();
                parts.push(piece);
                proof {
                    assert(parts.deep_view() =~= before + split_pat(s@, p@, from as int));
                }
                return parts;
            },
        }
    }
    parts
}

/// `parts.join(sep)`.
pub fn join_strs(parts: &[String], sep: &str) -> (r: String)
    ensures
        r@ == join(parts.deep_view(), sep@),
{
    let ghost ps = parts.deep_view();
    if parts.len() == 0 {
        return String::new();
    }
    let mut out = String::new();
    let mut i: usize = parts.len();
    assert(ps.skip(ps.len() as int) =~= Seq::<Seq<char>>::empty());
    while i > 0
        invariant
            i <= parts@.len(),
            parts@.len() > 0,
            ps == parts.deep_view(),
            i < parts@.len() ==> out@ == join(ps.skip(i as int), sep@),
            i == parts@.len() ==> out@ == Seq::<char>::empty(),
        decreases i,
    {
        i = i - 1;
        assert(ps[i as int] == parts@[i as int]@);
        assert(ps.skip(i as int).drop_first() =~= ps.skip(i + 1));
        let mut next = parts[i].clone();
        if i + 1 < parts.len() {
            push_str(&mut next, sep);
            push_str(&mut next, out.as_str());
        }
        out = next;
    }
    assert(ps.skip(0) =~= ps);
    out
}

/// `s.replace(from, to)` for a non-empty `from`.
pub fn replace_str(s: &str, from: &str, to: &str) -> (r: String)
    requires
        from@.len() > 0,
    ensures
        r@ == replace_spec(s@, from@, to@),
{
    let parts = split_str(s, from);
    join_strs(parts.as_slice(), to)
}

/// `s.replacen(from, to, 1)`.
pub fn replace_first(s: &str, from: &str, to: &str) -> (r: String)
    ensures
        r@ == replace_first_spec(s@, from@, to@),
{
    let cs = chars_of(s);
    let fc = chars_of(from);
    match first_occurrence(cs.as_slice(), fc.as_slice(), 0) {
        Some(i) => {
            let flen = fc.len();
            let total = cs.len();
            assert(i + flen <= total);
            let end: usize = i + flen;
            let mut r = substring(cs.as_slice(), 0, i);
            push_str(&mut r, to);
            let rest = substring(cs.as_slice(), end, cs.len());
            push_str(&mut r, rest.as_str());
            assert(s@.take(i as int) =~= cs@.subrange(0, i as int));
            assert(s@.skip(i + from@.len()) =~= cs@.subrange(i + fc@.len(), cs@.len() as int));
            r
        },
        None => s.to_owned(),
    }
}

/// The decimal digit character for `d < 10`.
pub open spec fn digit_char(d: nat) -> char {
    (d + 48) as char
}

/// `n` written in decimal, as `format!("{}")` writes an unsigned number.
pub open spec fn dec(n: nat) -> Seq<char>
    decreases n,
{
    if n < 10 {
        seq![digit_char(n)]
    } else {
        dec(n / 10) + seq![digit_char(n % 10)]
    }
}

/// Decimal writing is one to one: different numbers are written differently.
pub proof fn lemma_dec_injective(a: nat, b: nat)
    requires
        dec(a) == dec(b),
    ensures
        a == b,
    decreases a,
{
    lemma_dec_len(a);
    lemma_dec_len(b);
    if a < 10 && b < 10 {
        assert(dec(a)[0] == digit_char(a));
        assert(dec(b)[0] == digit_char(b));
    } else if a >= 10 && b >= 10 {
        let (da, db) = (dec(a / 10), dec(b / 10));
        assert(dec(a).last() == digit_char(a % 10));
        assert(dec(b).last() == digit_char(b % 10));
        assert(dec(a).drop_last() =~= da);
        assert(dec(b).drop_last() =~= db);
        lemma_dec_injective(a / 10, b / 10);
    } else {
        lemma_dec_len(a / 10);
        lemma_dec_len(b / 10);
    }
}

/// A number below ten takes one digit, any other at least two.
pub proof fn lemma_dec_len(n: nat)
    ensures
        n < 10 ==> dec(n).len() == 1,
        n >= 10 ==> dec(n).len() >= 2,
    decreases n,
{
    if n >= 10 {
        lemma_dec_len(n / 10);
    }
}

/// `n` padded with leading zeros to at least `width` characters (`{:0width$}`).
pub open spec fn zero_pad(s: Seq<char>, width: nat) -> Seq<char> {
    if s.len() < width {
        Seq::new((width - s.len()) as nat, |i: int| '0') + s
    } else {
        s
    }
}

/// `format!("{}", n)` for an unsigned number.
pub fn decimal(n: u64) -> (r: String)
    ensures
        r@ == dec(n as nat),
    decreases n,
{
    if n < 10 {
        let mut s = String::new();
        push_char(&mut s, ((n as u8) + 48) as char);
        assert(s@ =~= seq![digit_char(n as nat)]);
        s
    } else {
        let mut s = decimal(n / 10);
        push_char(&mut s, (((n % 10) as u8) + 48) as char);
        s
    }
}

/// `format!("{:0width$}", n)`.
pub fn decimal_padded(n: u64, width: usize) -> (r: String)
    ensures
        r@ == zero_pad(dec(n as nat), width as nat),
{
    let d = decimal(n);
    let digits = chars_of(d.as_str());
    if digits.len() >= width {
        return d;
    }
    let mut out = String::new();
    let mut i: usize = 0;
    while i < width - digits.len()
        invariant
            digits@ == dec(n as nat),
            digits@.len() < width,
            i <= width - digits@.len(),
            out@ == Seq::new(i as nat, |k: int| '0'),
        decreases width - digits@.len() - i,
    {
        push_char(&mut out, '0');
        i = i + 1;
        assert(out@ =~= Seq::new(i as nat, |k: int| '0'));
    }
    push_str(&mut out, d.as_str());
    out
}


/// `char::to_digit(16)`.
pub open spec fn digit16(c: char) -> Option<nat> {
    if '0' <= c && c <= '9' {
        Some((c as u32 - 48) as nat)
    } else if 'a' <= c && c <= 'f' {
        Some((c as u32 - 87) as nat)
    } else if 'A' <= c && c <= 'F' {
        Some((c as u32 - 55) as nat)
    } else {
        None
    }
}

/// `char::to_digit(16)`.
pub fn digit16_of(c: char) -> (r: Option<u32>)
    ensures
        match r {
            Some(d) => digit16(c) == Some(d as nat) && d < 16,
            None => digit16(c) is None,
        },
{
    if '0' <= c && c <= '9' {
        Some(c as u32 - 48)
    } else if 'a' <= c && c <= 'f' {
        Some(c as u32 - 87)
    } else if 'A' <= c && c <= 'F' {
        Some(c as u32 - 55)
    } else {
        None
    }
}

/// `char::to_digit(radix)` for a radix up to 16.
pub open spec fn digit_in(c: char, radix: nat) -> Option<nat> {
    match digit16(c) {
        Some(d) => if d < radix {
            Some(d)
        } else {
            None
        },
        None => None,
    }
}

/// The value of a digit string in `radix`, most significant first.
pub open spec fn digits_value(ds: Seq<char>, radix: nat) -> nat
    decreases ds.len(),
{
    if ds.len() == 0 {
        0
    } else {
        digits_value(ds.drop_last(), radix) * radix + match digit_in(ds.last(), radix) {
            Some(d) => d,
            None => 0,
        }
    }
}

/// The digits after an optional leading `+`.
pub open spec fn unsigned_digits(s: Seq<char>) -> Seq<char> {
    if s.len() > 0 && s[0] == '+' {
        s.drop_first()
    } else {
        s
    }
}

/// Every character of `ds` is a digit in `radix`.
pub open spec fn all_digits(ds: Seq<char>, radix: nat) -> bool {
    forall|i: int| 0 <= i < ds.len() ==> (#[trigger] digit_in(ds[i], radix)) is Some
}

/// `u32::from_str_radix(s, radix)` (and `s.parse::<u32>()` for radix 10):
/// an optional `+`, then at least one digit, and a value that fits.
pub open spec fn parse_u32_spec(s: Seq<char>, radix: nat) -> Option<u32> {
    let ds = unsigned_digits(s);
    if ds.len() == 0 || !all_digits(ds, radix) {
        None
    } else if digits_value(ds, radix) > u32::MAX {
        None
    } else {
        Some(digits_value(ds, radix) as u32)
    }
}

proof fn lemma_digits_value_prefix(ds: Seq<char>, radix: nat, i: int)
    requires
        1 <= radix,
        0 <= i <= ds.len(),
    ensures
        digits_value(ds.take(i), radix) <= digits_value(ds, radix),
    decreases ds.len() - i,
{
    if i < ds.len() {
        lemma_digits_value_prefix(ds, radix, i + 1);
        assert(ds.take(i + 1).drop_last() =~= ds.take(i));
        let v = digits_value(ds.take(i), radix);
        assert(v * radix >= v) by (nonlinear_arith)
            requires
                radix >= 1,
        ;
    } else {
        assert(ds.take(i) =~= ds);
    }
}

/// `u32::from_str_radix(s, radix)` for radix 10 or 16.
pub fn parse_u32(s: &[char], radix: u32) -> (r: Option<u32>)
    requires
        radix == 10 || radix == 16,
    ensures
        r == parse_u32_spec(s@, radix as nat),
{
    let start: usize = if s.len() > 0 && s[0] == '+' { 1 } else { 0 };
    let ghost ds = unsigned_digits(s@);
    if start == s.len() {
        return None;
    }
    let mut acc: u64 = 0;
    let mut i: usize = start;
    while i < s.len()
        invariant
            start <= i <= s@.len(),
            start == 0 || start == 1,
            ds == s@.skip(start as int),
            ds == unsigned_digits(s@),
            ds.len() == s@.len() - start,
            radix == 10 || radix == 16,
            acc == digits_value(ds.take(i - start), radix as nat),
            acc <= u32::MAX,
            forall|k: int| 0 <= k < i - start ==> (#[trigger] digit_in(ds[k], radix as nat)) is Some,
        decreases s@.len() - i,
    {
        let ghost k = i - start;
        assert(0 <= k < ds.len());
        assert(ds[k] == s@[i as int]);
        let d = match digit16_of(s[i]) {
            Some(d) => d,
            None => {
                assert(digit_in(ds[k], radix as nat) is None);
                assert(!all_digits(ds, radix as nat));
                return None;
            },
        };
        if d >= radix {
            assert(digit_in(ds[k], radix as nat) is None);
            assert(!all_digits(ds, radix as nat));
            return None;
        }
        assert(ds.take(k + 1).drop_last() =~= ds.take(k));
        assert(ds.take(k + 1).last() == ds[k]);
        assert(digit_in(ds[k], radix as nat) == Some(d as nat));
        assert(acc * (radix as u64) <= 0xffff_ffff * 16) by (nonlinear_arith)
            requires
                acc <= 0xffff_ffff,
                radix <= 16,
        ;
        let next: u64 = acc * (radix as u64) + (d as u64);
        assert(next == digits_value(ds.take(k + 1), radix as nat));
        i = i + 1;
        if next > 0xffff_ffff {
            proof {
                lemma_digits_value_prefix(ds, radix as nat, k + 1);
            }
            return None;
        }
        acc = next;
    }
    assert(ds.take(ds.len() as int) =~= ds);
    Some(acc as u32)
}

/// `u32::from_str_radix` on a string slice.
pub fn str_parse_u32(s: &str, radix: u32) -> (r: Option<u32>)
    requires
        radix == 10 || radix == 16,
    ensures
        r == parse_u32_spec(s@, radix as nat),
{
    let cs = chars_of(s);
    parse_u32(cs.as_slice(), radix)
}

} // verus!
