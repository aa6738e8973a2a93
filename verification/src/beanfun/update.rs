//! Version checks for the game manager and for this app, and the launch
//! pages' cache buster.
use crate::beanfun::types::{parse_error, AppUpdate, BeanfunError, GgmUpdate};
use crate::json::{field, get_field, get_str, json_array, json_array_spec, json_error, json_error_spec, str_field};
use crate::text::{
    concat, dec, decimal, decimal_padded, ends_with, lead_count, lemma_split_on_len, split_char,
    split_on, starts_with, str_ends_with, str_eq, str_parse_u32, str_starts_with, parse_u32_spec,
    trim_start_char, zero_pad,
};
use chrono::{Datelike, Timelike};
use vstd::prelude::*;

verus! {

/// The numbers of a dotted version; a piece that is not a number counts as 0.
pub open spec fn version_parts(s: Seq<char>) -> Seq<u32> {
    split_on(s, '.').map_values(
        |p: Seq<char>|
            match parse_u32_spec(p, 10) {
                Some(n) => n,
                None => 0u32,
            },
    )
}

/// Piece `i` of a version, 0 past its end.
pub open spec fn part(v: Seq<u32>, i: int) -> u32 {
    if 0 <= i < v.len() {
        v[i]
    } else {
        0
    }
}

/// `a` is newer than `b` from piece `i` on: the first piece where they
/// differ decides.
pub open spec fn newer_from(a: Seq<u32>, b: Seq<u32>, i: nat) -> bool
    decreases a.len() + b.len() - i,
{
    if i >= a.len() && i >= b.len() {
        false
    } else if part(a, i as int) != part(b, i as int) {
        part(a, i as int) > part(b, i as int)
    } else {
        newer_from(a, b, i + 1)
    }
}

/// Dotted version `a` is newer than `b`, compared piece by piece as numbers.
pub open spec fn version_newer_spec(a: Seq<char>, b: Seq<char>) -> bool {
    newer_from(version_parts(a), version_parts(b), 0)
}

/// The numbers of a dotted version.
fn parts_of(s: &str) -> (r: Vec<u32>)
    ensures
        r@ == version_parts(s@),
{
    let pieces = split_char(s, '.');
    let ghost ps = pieces.deep_view();
    let mut out: Vec<u32> = Vec::new();
    let mut i: usize = 0;
    while i < pieces.len()
        invariant
            i <= pieces@.len(),
            ps == pieces.deep_view(),
            ps == split_on(s@, '.'),
            out@ == version_parts(s@).take(i as int),
        decreases pieces@.len() - i,
    {
        assert(ps[i as int] == pieces@[i as int]@);
        let n = match str_parse_u32(pieces[i].as_str(), 10) {
            Some(n) => n,
            None => 0,
        };
        out.push(n);
        i = i + 1;
        assert(out@ =~= version_parts(s@).take(i as int));
    }
    assert(out@ =~= version_parts(s@));
    out
}

/// Whether dotted version `a` is newer than `b`.
pub fn version_newer(a: &str, b: &str) -> (r: bool)
    ensures
        r == version_newer_spec(a@, b@),
{
    let va = parts_of(a);
    let vb = parts_of(b);
    let n = if va.len() > vb.len() { va.len() } else { vb.len() };
    let mut i: usize = 0;
    while i < n
        invariant
            i <= n,
            n == va@.len() || n == vb@.len(),
            va@.len() <= n,
            vb@.len() <= n,
            va@ == version_parts(a@),
            vb@ == version_parts(b@),
            newer_from(va@, vb@, 0) == newer_from(va@, vb@, i as nat),
        decreases n - i,
    {
        let x = if i < va.len() { va[i] } else { 0 };
        let y = if i < vb.len() { vb[i] } else { 0 };
        if x != y {
            return x > y;
        }
        i = i + 1;
    }
    false
}

proof fn lemma_newer_irreflexive(v: Seq<u32>, i: nat)
    ensures
        !newer_from(v, v, i),
    decreases v.len() + v.len() - i,
{
    if i < v.len() {
        lemma_newer_irreflexive(v, i + 1);
    }
}

proof fn lemma_newer_asymmetric(a: Seq<u32>, b: Seq<u32>, i: nat)
    ensures
        newer_from(a, b, i) ==> !newer_from(b, a, i),
    decreases a.len() + b.len() - i,
{
    if !(i >= a.len() && i >= b.len()) && part(a, i as int) == part(b, i as int) {
        lemma_newer_asymmetric(a, b, i + 1);
    }
}

proof fn lemma_newer_transitive(a: Seq<u32>, b: Seq<u32>, c: Seq<u32>, i: nat)
    ensures
        newer_from(a, b, i) && newer_from(b, c, i) ==> newer_from(a, c, i),
    decreases a.len() + b.len() + c.len() - i,
{
    if i < a.len() || i < b.len() || i < c.len() {
        if part(a, i as int) == part(b, i as int) && part(b, i as int) == part(c, i as int) {
            lemma_newer_transitive(a, b, c, i + 1);
        }
    }
}

/// No version is newer than itself.
pub proof fn law_version_newer_irreflexive(a: Seq<char>)
    ensures
        !version_newer_spec(a, a),
{
    lemma_newer_irreflexive(version_parts(a), 0);
}

/// Of two versions at most one is newer than the other.
pub proof fn law_version_newer_asymmetric(a: Seq<char>, b: Seq<char>)
    ensures
        version_newer_spec(a, b) ==> !version_newer_spec(b, a),
{
    lemma_newer_asymmetric(version_parts(a), version_parts(b), 0);
}

/// Newer than a newer version is newer.
pub proof fn law_version_newer_transitive(a: Seq<char>, b: Seq<char>, c: Seq<char>)
    ensures
        version_newer_spec(a, b) && version_newer_spec(b, c) ==> version_newer_spec(a, c),
{
    lemma_newer_transitive(version_parts(a), version_parts(b), version_parts(c), 0);
}

/// The integrity hash the password exchange asks for: SHA-256 of the game
/// manager's `GGMWebStart.dll`, in lower-case hex.
pub fn integrity_hash(dll: &[u8]) -> (r: String)
    ensures
        r@ == crate::hidden::hex_text(crate::crypto::sha256_spec(dll@)),
{
    let digest = crate::crypto::sha256(dll);
    crate::hidden::to_hex(digest.as_slice())
}

/// A text member, empty when absent or not a string.
pub open spec fn text_or_empty(o: Option<Seq<char>>) -> Seq<char> {
    match o {
        Some(s) => s,
        None => Seq::empty(),
    }
}

fn or_empty(o: Option<String>) -> (r: String)
    ensures
        r@ == text_or_empty(o.deep_view()),
{
    match o {
        Some(s) => s,
        None => String::new(),
    }
}

/// Whether the game manager needs updating: the server offers a version and
/// none is installed, or the offered one is newer.
pub open spec fn ggm_has_update(server: Seq<char>, current: Seq<char>) -> bool {
    server.len() > 0 && (current.len() == 0 || version_newer_spec(server, current))
}

/// What `CheckVersion.ashx` says against the installed game manager
/// (`None` when it is not installed).
pub fn ggm_update_from(body: &str, installed: Option<String>) -> (r: Result<GgmUpdate, BeanfunError>)
    ensures
        match json_error_spec(body@) {
            Some(e) => r matches Err(x) && parse_error(x, "CheckVersion 非 JSON："@ + e),
            None => r matches Ok(u) && u.current@ == text_or_empty(installed.deep_view()) && u.server@
                == text_or_empty(str_field(body@, "version"@)) && u.url@ == text_or_empty(
                str_field(body@, "url"@),
            ) && u.has_update == ggm_has_update(u.server@, u.current@),
        },
{
    if let Some(e) = json_error(body) {
        return Err(BeanfunError::Parse(concat("CheckVersion 非 JSON：", e.as_str())));
    }
    let server = or_empty(get_str(body, "version"));
    let url = or_empty(get_str(body, "url"));
    let current = or_empty(installed);
    let has_update = !server.as_str().is_empty() && (current.as_str().is_empty() || version_newer(
        server.as_str(),
        current.as_str(),
    ));
    Ok(GgmUpdate { current, server, has_update, url })
}

/// The release asset that holds the bare executable.
pub const BARE_EXE_ASSET: &'static str = "kz-login.exe";

/// Whether an asset name is the one looked for: the installer, or the bare executable.
pub open spec fn wanted_asset(name: Seq<char>, installer: bool) -> bool {
    if installer {
        ends_with(name, "-setup.exe"@)
    } else {
        name == BARE_EXE_ASSET@
    }
}

/// The download address of the first asset (raw JSON texts) that has a
/// string name and address and is the one looked for; empty when none is.
pub open spec fn pick_asset(assets: Seq<Seq<char>>, installer: bool) -> Seq<char>
    decreases assets.len(),
{
    if assets.len() == 0 {
        Seq::empty()
    } else {
        match (str_field(assets[0], "name"@), str_field(assets[0], "browser_download_url"@)) {
            (Some(n), Some(u)) => if wanted_asset(n, installer) {
                u
            } else {
                pick_asset(assets.drop_first(), installer)
            },
            _ => pick_asset(assets.drop_first(), installer),
        }
    }
}

/// The release's assets, raw.
pub open spec fn release_assets(body: Seq<char>) -> Seq<Seq<char>> {
    match field(body, "assets"@) {
        Some(raw) => match json_array_spec(raw) {
            Some(items) => items,
            None => Seq::empty(),
        },
        None => Seq::empty(),
    }
}

fn pick(assets: &Vec<String>, installer: bool) -> (r: String)
    ensures
        r@ == pick_asset(assets.deep_view(), installer),
{
    let ghost all = assets.deep_view();
    let mut i: usize = 0;
    assert(all.skip(0) =~= all);
    while i < assets.len()
        invariant
            i <= assets@.len(),
            all == assets.deep_view(),
            pick_asset(all, installer) == pick_asset(all.skip(i as int), installer),
        decreases assets@.len() - i,
    {
        assert(all.skip(i as int)[0] == assets@[i as int]@);
        assert(all.skip(i as int).drop_first() =~= all.skip(i + 1));
        let item = assets[i].as_str();
        if let (Some(n), Some(u)) = (get_str(item, "name"), get_str(item, "browser_download_url")) {
            let wanted = if installer {
                str_ends_with(n.as_str(), "-setup.exe")
            } else {
                str_eq(n.as_str(), BARE_EXE_ASSET)
            };
            if wanted {
                return u;
            }
        }
        i = i + 1;
    }
    String::new()
}

/// What the latest GitHub release says against the running version `current`.
pub fn app_update_from(body: &str, current: &str) -> (r: Result<AppUpdate, BeanfunError>)
    ensures
        match json_error_spec(body@) {
            Some(e) => r matches Err(x) && parse_error(x, "GitHub 回應非 JSON："@ + e),
            None => r matches Ok(u) && u.current@ == current@ && ({
                let tag = text_or_empty(str_field(body@, "tag_name"@));
                u.latest@ == tag.skip(lead_count(tag, 'v') as int)
            }) && u.url@ == pick_asset(release_assets(body@), true) && u.exe_url@ == pick_asset(
                release_assets(body@),
                false,
            ) && u.notes@ == text_or_empty(str_field(body@, "body"@)) && u.has_update == (u.latest@.len() > 0
                && version_newer_spec(u.latest@, current@)),
        },
{
    if let Some(e) = json_error(body) {
        return Err(BeanfunError::Parse(concat("GitHub 回應非 JSON：", e.as_str())));
    }
    let tag = or_empty(get_str(body, "tag_name"));
    let latest = trim_start_char(tag.as_str(), 'v');
    let assets = match get_field(body, "assets") {
        Some(raw) => match json_array(raw.as_str()) {
            Some(items) => items,
            None => Vec::new(),
        },
        None => Vec::new(),
    };
    proof {
        if assets@.len() == 0 {
            assert(assets.deep_view() =~= release_assets(body@));
        }
    }
    let url = pick(&assets, true);
    let exe_url = pick(&assets, false);
    let notes = or_empty(get_str(body, "body"));
    let has_update = !latest.as_str().is_empty() && version_newer(latest.as_str(), current);
    Ok(AppUpdate { current: current.to_owned(), latest, has_update, url, exe_url, notes })
}

/// An update is only ever fetched over HTTPS.
pub fn require_https(url: &str) -> (r: Result<(), BeanfunError>)
    ensures
        r is Ok <==> starts_with(url@, "https://"@),
        r matches Err(x) ==> parse_error(x, "更新連結無效"@),
{
    if str_starts_with(url, "https://") {
        Ok(())
    } else {
        Err(BeanfunError::Parse("更新連結無效".to_owned()))
    }
}

/// The file name an installer is saved under: the address's last path
/// segment, `fallback` when that is empty.
pub open spec fn installer_name_spec(url: Seq<char>, fallback: Seq<char>) -> Seq<char> {
    let last = split_on(url, '/').last();
    if last.len() > 0 {
        last
    } else {
        fallback
    }
}

/// The file name an installer is saved under.
pub fn installer_name(url: &str, fallback: &str) -> (r: String)
    ensures
        r@ == installer_name_spec(url@, fallback@),
{
    let pieces = split_char(url, '/');
    proof { lemma_split_on_len(url@, '/'); }
    let last = pieces[pieces.len() - 1].clone();
    assert(last@ == split_on(url@, '/').last());
    if last.as_str().is_empty() {
        fallback.to_owned()
    } else {
        last
    }
}

/// A download that ended short of its announced length is refused; with no
/// length announced (`total` 0) any length stands.
pub fn download_complete(done: u64, total: u64) -> (r: Result<(), BeanfunError>)
    ensures
        r is Ok <==> (total == 0 || done == total),
        r matches Err(x) ==> parse_error(x, "更新檔下載不完整（"@ + dec(done as nat) + "/"@ + dec(total as nat) + " bytes）"@),
{
    if total > 0 && done != total {
        let mut m = concat("更新檔下載不完整（", decimal(done).as_str());
        crate::text::push_str(&mut m, "/");
        crate::text::push_str(&mut m, decimal(total).as_str());
        crate::text::push_str(&mut m, " bytes）");
        Err(BeanfunError::Parse(m))
    } else {
        Ok(())
    }
}

/// The local date and time, taken apart as `chrono` reports it.
#[derive(Debug, Clone, Copy, PartialEq, Eq)]
pub struct ClockReading {
    pub year: i32,
    /// Month, from 0.
    pub month0: u32,
    pub day: u32,
    pub hour: u32,
    pub minute: u32,
    pub second: u32,
    /// Past the second; 1e9 or more only during a leap second.
    pub nanosecond: u32,
}

/// What `chrono` promises of a reading's fields.
pub open spec fn clock_valid(t: ClockReading) -> bool {
    &&& t.month0 < 12
    &&& 1 <= t.day <= 31
    &&& t.hour < 24
    &&& t.minute < 60
    &&& t.second < 60
    &&& t.nanosecond < 2_000_000_000
}

/// `chrono::Local::now()`, taken apart. The reading depends on the clock;
/// only the ranges `chrono` documents for each field are stated.
#[verifier::external_body]
fn local_now() -> (r: ClockReading)
    ensures
        clock_valid(r),
{
    let now = chrono::Local::now();
    ClockReading {
        year: now.year(),
        month0: now.month0(),
        day: now.day(),
        hour: now.hour(),
        minute: now.minute(),
        second: now.second(),
        nanosecond: now.nanosecond(),
    }
}

/// `format!("{}", n)` for a signed number.
pub open spec fn int_text(n: int) -> Seq<char> {
    if n < 0 {
        "-"@ + dec((-n) as nat)
    } else {
        dec(n as nat)
    }
}

/// The cache buster the launch pages expect: `Y(M-1)DDhhmmssfff`.
pub open spec fn dt_compact_spec(t: ClockReading) -> Seq<char> {
    int_text(t.year as int) + dec(t.month0 as nat) + zero_pad(dec(t.day as nat), 2) + zero_pad(
        dec(t.hour as nat),
        2,
    ) + zero_pad(dec(t.minute as nat), 2) + zero_pad(dec(t.second as nat), 2) + zero_pad(
        dec((t.nanosecond / 1_000_000) as nat),
        3,
    )
}

/// The cache buster for reading `t`.
pub fn dt_compact_of(t: ClockReading) -> (r: String)
    ensures
        r@ == dt_compact_spec(t),
{
    let mut r = if t.year < 0 {
        let magnitude: i64 = -(t.year as i64);
        concat("-", decimal(magnitude as u64).as_str())
    } else {
        decimal(t.year as u64)
    };
    crate::text::push_str(&mut r, decimal(t.month0 as u64).as_str());
    crate::text::push_str(&mut r, decimal_padded(t.day as u64, 2).as_str());
    crate::text::push_str(&mut r, decimal_padded(t.hour as u64, 2).as_str());
    crate::text::push_str(&mut r, decimal_padded(t.minute as u64, 2).as_str());
    crate::text::push_str(&mut r, decimal_padded(t.second as u64, 2).as_str());
    crate::text::push_str(&mut r, decimal_padded((t.nanosecond / 1_000_000) as u64, 3).as_str());
    assert(r@ =~= dt_compact_spec(t));
    r
}

/// The cache buster for now.
pub fn dt_compact() -> (r: String)
    ensures
        exists|t: ClockReading| clock_valid(t) && r@ == dt_compact_spec(t),
{
    let t = local_now();
    let r = dt_compact_of(t);
    assert(clock_valid(t) && r@ == dt_compact_spec(t));
    r
}

} // verus!
