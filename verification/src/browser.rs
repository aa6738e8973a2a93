//! The account browser: which cookies it is seeded with, the tab strip, the
//! address bar and the guard that keeps one account's windows open at a time.
use crate::jar::{jar_contents, jar_session_cookies, unexpired_cookies, DomainModel, JarDomain, JarEntry};
use crate::text::{
    ascii_lower, chars_of, concat, contains, dec, decimal, ends_with, eq_ignore_case, is_ws,
    lead_count, occurs_at, push_char, push_str, str_contains, str_ends_with, str_eq, str_starts_with,
    starts_with, str_trim, to_ascii_lower, trim, trim_start_char,
};
use vstd::prelude::*;
use vstd::utf8::encode_utf8;

verus! {

/// Label prefix of a toolbar window; the window group's number follows.
pub const TOOLBAR_LABEL_PREFIX: &'static str = "browser-shell-";

/// Label prefix of a tab window; the tab's id follows.
pub const TAB_LABEL_PREFIX: &'static str = "browser-tab-";

/// The toolbar label of window group `generation`.
pub fn toolbar_label(generation: u64) -> (r: String)
    ensures
        r@ == TOOLBAR_LABEL_PREFIX@ + dec(generation as nat),
{
    concat(TOOLBAR_LABEL_PREFIX, decimal(generation).as_str())
}

/// Every window group gets a toolbar label of its own: different numbers
/// give different labels, each starting with the toolbar prefix.
pub proof fn law_toolbar_labels_distinct(g1: u64, g2: u64)
    ensures
        starts_with(TOOLBAR_LABEL_PREFIX@ + dec(g1 as nat), TOOLBAR_LABEL_PREFIX@),
        g1 != g2 ==> TOOLBAR_LABEL_PREFIX@ + dec(g1 as nat) != TOOLBAR_LABEL_PREFIX@ + dec(g2 as nat),
{
    let p = TOOLBAR_LABEL_PREFIX@;
    assert((p + dec(g1 as nat)).take(p.len() as int) =~= p);
    if g1 != g2 && p + dec(g1 as nat) == p + dec(g2 as nat) {
        assert((p + dec(g1 as nat)).skip(p.len() as int) =~= dec(g1 as nat));
        assert((p + dec(g2 as nat)).skip(p.len() as int) =~= dec(g2 as nat));
        crate::text::lemma_dec_injective(g1 as nat, g2 as nat);
    }
}

/// The label of tab `id`.
pub fn tab_label(id: u64) -> (r: String)
    ensures
        r@ == TAB_LABEL_PREFIX@ + dec(id as nat),
{
    concat(TAB_LABEL_PREFIX, decimal(id).as_str())
}

/// Whether a window label belongs to the account browser (any group's toolbar or tab).
pub fn is_browser_label(label: &str) -> (r: bool)
    ensures
        r == (starts_with(label@, TOOLBAR_LABEL_PREFIX@) || starts_with(label@, TAB_LABEL_PREFIX@)),
{
    str_starts_with(label, TOOLBAR_LABEL_PREFIX) || str_starts_with(label, TAB_LABEL_PREFIX)
}

/// `s` with its ASCII letters lower-cased.
pub open spec fn lower(s: Seq<char>) -> Seq<char> {
    s.map_values(|c: char| ascii_lower(c))
}

/// `str::to_ascii_lowercase`.
pub fn to_ascii_lowercase(s: &str) -> (r: String)
    ensures
        r@ == lower(s@),
{
    let cs = chars_of(s);
    let mut out = String::new();
    let mut i: usize = 0;
    while i < cs.len()
        invariant
            i <= cs@.len(),
            cs@ == s@,
            out@ == lower(s@).take(i as int),
        decreases cs@.len() - i,
    {
        push_char(&mut out, to_ascii_lower(cs[i]));
        i = i + 1;
        assert(out@ =~= lower(s@).take(i as int));
    }
    assert(lower(s@).take(cs@.len() as int) =~= lower(s@));
    out
}

/// A domain of beanfun's own sites: `beanfun.com` or one of its subdomains,
/// with or without the leading dot, in any case.
pub open spec fn is_beanfun_domain_spec(domain: Seq<char>) -> bool {
    let d = lower(domain.skip(lead_count(domain, '.') as int));
    d == "beanfun.com"@ || ends_with(d, ".beanfun.com"@)
}

/// Whether `domain` is one of beanfun's own.
pub fn is_beanfun_domain(domain: &str) -> (r: bool)
    ensures
        r == is_beanfun_domain_spec(domain@),
{
    let bare = trim_start_char(domain, '.');
    let d = to_ascii_lowercase(bare.as_str());
    str_eq(d.as_str(), "beanfun.com") || str_ends_with(d.as_str(), ".beanfun.com")
}

/// A cookie's reach: only the host that set it, or that domain and its subdomains.
#[derive(Debug, Clone, Copy, PartialEq, Eq)]
pub enum DomainKind {
    Host,
    Suffix,
}

/// A cookie read out of the login session's jar.
#[derive(Debug, Clone, PartialEq, Eq)]
pub struct JarCookie {
    pub name: String,
    pub value: String,
    pub domain: String,
    pub kind: DomainKind,
    pub path: String,
    pub secure: bool,
    pub http_only: bool,
}

impl View for JarCookie {
    type V = (Seq<char>, Seq<char>, Seq<char>, DomainKind, Seq<char>, bool, bool);

    open spec fn view(&self) -> (Seq<char>, Seq<char>, Seq<char>, DomainKind, Seq<char>, bool, bool) {
        (self.name@, self.value@, self.domain@, self.kind, self.path@, self.secure, self.http_only)
    }
}

/// A cookie ready to be written into a webview, its domain in WebView2's
/// form: a leading dot when it reaches subdomains, none when host-only.
#[derive(Debug, Clone, PartialEq, Eq)]
pub struct WebviewCookie {
    pub name: String,
    pub value: String,
    pub domain: String,
    pub path: String,
    pub secure: bool,
    pub http_only: bool,
}

impl View for WebviewCookie {
    type V = (Seq<char>, Seq<char>, Seq<char>, Seq<char>, bool, bool);

    open spec fn view(&self) -> (Seq<char>, Seq<char>, Seq<char>, Seq<char>, bool, bool) {
        (self.name@, self.value@, self.domain@, self.path@, self.secure, self.http_only)
    }
}

/// The cookie a page's script must be able to read (`document.cookie`): the
/// portal's single sign-on check reads the web token that way.
pub open spec fn js_readable_spec(name: Seq<char>) -> bool {
    eq_ignore_case(name, "bfWebToken"@)
}

/// Whether a cookie must stay readable by the page's script.
pub fn is_js_readable_cookie(name: &str) -> (r: bool)
    ensures
        r == js_readable_spec(name@),
{
    crate::text::eq_ignore_ascii_case(name, "bfWebToken")
}

/// The webview form of a jar cookie: domain re-dotted by its reach, and
/// HttpOnly dropped for the script-readable cookie.
pub open spec fn injected(c: (Seq<char>, Seq<char>, Seq<char>, DomainKind, Seq<char>, bool, bool)) -> (Seq<char>, Seq<char>, Seq<char>, Seq<char>, bool, bool) {
    let bare = c.2.skip(lead_count(c.2, '.') as int);
    (
        c.0,
        c.1,
        match c.3 {
            DomainKind::Host => bare,
            DomainKind::Suffix => seq!['.'] + bare,
        },
        c.4,
        c.5,
        c.6 && !js_readable_spec(c.0),
    )
}

/// Every cookie of the jar, each in webview form, in jar order. None is
/// left out by domain: pages opened from the portal go through other
/// domains' sign-on too.
pub fn select_for_injection(jar: &[JarCookie]) -> (r: Vec<WebviewCookie>)
    ensures
        r@.map_values(|c: WebviewCookie| c@) == jar@.map_values(|c: JarCookie| injected(c@)),
{
    let mut out: Vec<WebviewCookie> = Vec::new();
    let mut i: usize = 0;
    while i < jar.len()
        invariant
            i <= jar@.len(),
            out@.len() == i,
            out@.map_values(|c: WebviewCookie| c@) == jar@.map_values(|c: JarCookie| injected(c@)).take(i as int),
        decreases jar@.len() - i,
    {
        let c = &jar[i];
        proof { reveal_strlit("."); }
        let bare = trim_start_char(c.domain.as_str(), '.');
        let domain = match c.kind {
            DomainKind::Host => bare,
            DomainKind::Suffix => concat(".", bare.as_str()),
        };
        let cookie = WebviewCookie {
            name: c.name.clone(),
            value: c.value.clone(),
            domain,
            path: c.path.clone(),
            secure: c.secure,
            http_only: c.http_only && !is_js_readable_cookie(c.name.as_str()),
        };
        proof {
            assert("."@ =~= seq!['.']);
            assert(cookie@ == injected(jar@[i as int]@));
        }
        let ghost before = out@;
        out.push(cookie);
        proof {
            let f = |c: WebviewCookie| c@;
            let g = |c: JarCookie| injected(c@);
            assert(out@ == before.push(cookie));
            assert forall|k: int| 0 <= k < i + 1 implies #[trigger] out@.map_values(f)[k] == jar@.map_values(g).take(i + 1)[k] by {
                if k < i {
                    assert(out@[k] == before[k]);
                    assert(before.map_values(f)[k] == jar@.map_values(g).take(i as int)[k]);
                }
            }
        }
        i = i + 1;
        assert(out@.map_values(|c: WebviewCookie| c@) =~= jar@.map_values(|c: JarCookie| injected(c@)).take(i as int));
    }
    assert(jar@.map_values(|c: JarCookie| injected(c@)).take(jar@.len() as int) =~= jar@.map_values(|c: JarCookie| injected(c@)));
    out
}

/// Whether any of the cookies belongs to beanfun: a session without one is
/// no longer logged in.
pub fn any_beanfun_cookie(cookies: &[WebviewCookie]) -> (r: bool)
    ensures
        r == exists|i: int| 0 <= i < cookies@.len() && is_beanfun_domain_spec(#[trigger] cookies@[i].domain@),
{
    let mut i: usize = 0;
    while i < cookies.len()
        invariant
            i <= cookies@.len(),
            forall|k: int| 0 <= k < i ==> !is_beanfun_domain_spec(#[trigger] cookies@[k].domain@),
        decreases cookies@.len() - i,
    {
        if is_beanfun_domain(cookies[i].domain.as_str()) {
            return true;
        }
        i = i + 1;
    }
    false
}

/// The jar cookie a stored entry reads as; entries bound to no host yet are
/// passed over. Absent Secure and HttpOnly attributes read as false.
pub open spec fn jar_cookie_of(e: (Seq<char>, Seq<char>, DomainModel, Seq<char>, Option<bool>, Option<bool>)) -> Option<(Seq<char>, Seq<char>, Seq<char>, DomainKind, Seq<char>, bool, bool)> {
    let secure = match e.4 {
        Some(b) => b,
        None => false,
    };
    let http_only = match e.5 {
        Some(b) => b,
        None => false,
    };
    match e.2 {
        DomainModel::HostOnly(h) => Some((e.0, e.1, h, DomainKind::Host, e.3, secure, http_only)),
        DomainModel::Suffix(s) => Some((e.0, e.1, s, DomainKind::Suffix, e.3, secure, http_only)),
        _ => None,
    }
}

/// The jar cookies of the first `k` entries.
pub open spec fn jar_cookies_upto(es: Seq<JarEntry>, k: nat) -> Seq<(Seq<char>, Seq<char>, Seq<char>, DomainKind, Seq<char>, bool, bool)>
    decreases k,
{
    if k == 0 {
        Seq::empty()
    } else {
        let prev = jar_cookies_upto(es, (k - 1) as nat);
        match jar_cookie_of(es[k - 1]@) {
            Some(c) => prev.push(c),
            None => prev,
        }
    }
}

/// The cookies of a list of stored entries.
pub fn jar_cookies_of(entries: &[JarEntry]) -> (r: Vec<JarCookie>)
    ensures
        r@.map_values(|c: JarCookie| c@) == jar_cookies_upto(entries@, entries@.len()),
{
    let mut out: Vec<JarCookie> = Vec::new();
    let mut i: usize = 0;
    while i < entries.len()
        invariant
            i <= entries@.len(),
            out@.map_values(|c: JarCookie| c@) == jar_cookies_upto(entries@, i as nat),
        decreases entries@.len() - i,
    {
        let e = &entries[i];
        let secure = match e.secure {
            Some(b) => b,
            None => false,
        };
        let http_only = match e.http_only {
            Some(b) => b,
            None => false,
        };
        let found = match &e.domain {
            JarDomain::HostOnly(h) => Some((h.clone(), DomainKind::Host)),
            JarDomain::Suffix(s) => Some((s.clone(), DomainKind::Suffix)),
            _ => None,
        };
        if let Some((domain, kind)) = found {
            out.push(JarCookie { name: e.name.clone(), value: e.value.clone(), domain, kind, path: e.path.clone(), secure, http_only });
        }
        i = i + 1;
        assert(out@.map_values(|c: JarCookie| c@) =~= jar_cookies_upto(entries@, i as nat));
    }
    out
}

/// The unexpired cookies of the login session's jar: each one read is one
/// the jar holds, and every cookie without an expiry time is among them.
/// Whether a cookie with an expiry time is still unexpired rests on the
/// clock, and is not stated.
pub fn read_jar(store: &cookie_store::CookieStore) -> (r: Vec<JarCookie>)
    ensures
        exists|es: Seq<JarEntry>|
            es.map_values(|e: JarEntry| e@).to_multiset().subset_of(jar_contents(*store))
                && jar_session_cookies(*store).subset_of(es.map_values(|e: JarEntry| e@).to_multiset())
                && r@.map_values(|c: JarCookie| c@) == jar_cookies_upto(es, es.len()),
{
    let entries = unexpired_cookies(store);
    let r = jar_cookies_of(entries.as_slice());
    assert(entries@.map_values(|e: JarEntry| e@).to_multiset().subset_of(jar_contents(*store))
        && jar_session_cookies(*store).subset_of(entries@.map_values(|e: JarEntry| e@).to_multiset())
        && r@.map_values(|c: JarCookie| c@) == jar_cookies_upto(entries@, entries@.len()));
    r
}

/// Which tab becomes active when `closed` goes: the active one stays when a
/// background tab closes; closing the active one moves to its right-hand
/// neighbour, else its left. `None` only when it was the last tab.
pub open spec fn next_active_spec(ids: Seq<u64>, closed: u64, active: u64) -> Option<u64> {
    if closed != active {
        if exists|i: int| 0 <= i < ids.len() && ids[i] != closed {
            Some(active)
        } else {
            None
        }
    } else {
        match ids.index_of_first(closed) {
            None => None,
            Some(pos) => if pos + 1 < ids.len() {
                Some(ids[pos + 1])
            } else if pos >= 1 {
                Some(ids[pos - 1])
            } else {
                None
            },
        }
    }
}

/// Which tab becomes active after `closed` is closed.
pub fn next_active_after_close(ids: &[u64], closed: u64, active: u64) -> (r: Option<u64>)
    ensures
        r == next_active_spec(ids@, closed, active),
{
    if closed != active {
        let mut i: usize = 0;
        while i < ids.len()
            invariant
                i <= ids@.len(),
                closed != active,
                forall|k: int| 0 <= k < i ==> ids@[k] == closed,
            decreases ids@.len() - i,
        {
            if ids[i] != closed {
                assert(0 <= i < ids@.len() && ids@[i as int] != closed);
                assert(exists|k: int| 0 <= k < ids@.len() && ids@[k] != closed);
                return Some(active);
            }
            i = i + 1;
        }
        assert(!exists|i: int| 0 <= i < ids@.len() && ids@[i] != closed);
        return None;
    }
    let mut pos: usize = 0;
    while pos < ids.len() && ids[pos] != closed
        invariant
            pos <= ids@.len(),
            forall|k: int| 0 <= k < pos ==> ids@[k] != closed,
        decreases ids@.len() - pos,
    {
        pos = pos + 1;
    }
    proof {
        ids@.index_of_first_ensures(closed);
        if pos < ids@.len() {
            assert(ids@.index_of_first(closed) == Some(pos as int));
        } else {
            assert(!ids@.contains(closed));
            assert(ids@.index_of_first(closed) is None);
        }
    }
    if pos == ids.len() {
        return None;
    }
    if pos + 1 < ids.len() {
        Some(ids[pos + 1])
    } else if pos >= 1 {
        Some(ids[pos - 1])
    } else {
        None
    }
}

/// Closing a tab never loses the active tab while another is left: the next
/// active tab is one of the remaining tabs, and `None` comes only when the
/// closed tab was the only one.
pub proof fn law_next_active_stays_among_tabs(ids: Seq<u64>, closed: u64, active: u64)
    requires
        ids.no_duplicates(),
        ids.contains(closed),
        ids.contains(active),
    ensures
        match next_active_spec(ids, closed, active) {
            Some(n) => ids.contains(n) && n != closed,
            None => ids =~= seq![closed],
        },
{
    ids.index_of_first_ensures(closed);
    if closed != active {
        let j = choose|j: int| 0 <= j < ids.len() && ids[j] == active;
        assert(ids[j] != closed);
    } else {
        let pos = ids.index_of_first(closed)->0;
        if pos + 1 < ids.len() {
            assert(ids[pos + 1] != closed);
        } else if pos >= 1 {
            assert(ids[pos - 1] != closed);
        } else {
            assert(ids.len() == 1);
            assert(ids =~= seq![closed]);
        }
    }
}

/// Closing a tab moves the focus to a neighbour of it in the strip: closing
/// the active tab at position `p` activates the tab right after it, or the
/// one right before it when it was the last; closing a background tab
/// leaves the active tab where it is.
pub proof fn law_close_moves_to_a_neighbour(ids: Seq<u64>, p: int, active: u64)
    requires
        ids.no_duplicates(),
        0 <= p < ids.len(),
        ids.contains(active),
    ensures
        active != ids[p] ==> next_active_spec(ids, ids[p], active) == Some(active),
        p + 1 < ids.len() ==> next_active_spec(ids, ids[p], ids[p]) == Some(ids[p + 1]),
        p + 1 == ids.len() && p > 0 ==> next_active_spec(ids, ids[p], ids[p]) == Some(ids[p - 1]),
        ids.len() == 1 ==> next_active_spec(ids, ids[p], ids[p]) is None,
{
    let closed = ids[p];
    ids.index_of_first_ensures(closed);
    assert(ids.contains(closed));
    let pos = ids.index_of_first(closed)->0;
    assert(ids[pos] == closed);
    assert(pos == p);
    if active != closed {
        let j = choose|j: int| 0 <= j < ids.len() && ids[j] == active;
        assert(ids[j] != closed);
    }
}

/// What a request to open the browser gets.
#[derive(Debug, Clone, Copy, PartialEq, Eq)]
pub enum Decision {
    /// No window group is open (or the last one is gone): open one.
    Open,
    /// The same account asked again: bring its windows to the front.
    Focus,
    /// Another account's windows are open: refuse, and let the user close them.
    Refuse,
}

/// The guard's decision from the group's owner and whether its windows are alive.
pub open spec fn decide_spec(owner: Option<Seq<char>>, requested: Seq<char>, alive: bool) -> Decision {
    match owner {
        Some(o) => if !alive {
            Decision::Open
        } else if o == requested {
            Decision::Focus
        } else {
            Decision::Refuse
        },
        None => Decision::Open,
    }
}

/// Decide a request to open the browser for account `requested`.
pub fn decide(owner: Option<&str>, requested: &str, alive: bool) -> (r: Decision)
    ensures
        r == decide_spec(
            match owner {
                Some(o) => Some(o@),
                None => None,
            },
            requested@,
            alive,
        ),
{
    match owner {
        Some(_) if !alive => Decision::Open,
        Some(o) => if str_eq(o, requested) {
            Decision::Focus
        } else {
            Decision::Refuse
        },
        None => Decision::Open,
    }
}

/// The guard never refuses once the owning windows are gone, and only ever
/// refuses an account other than the owner.
pub proof fn law_decide_refuses_only_live_strangers(owner: Option<Seq<char>>, requested: Seq<char>, alive: bool)
    ensures
        decide_spec(owner, requested, alive) == Decision::Refuse <==> (alive && owner is Some && owner->0 != requested),
        decide_spec(owner, requested, alive) == Decision::Focus <==> (alive && owner == Some(requested)),
{
}

/// Whether a window that was asked is still there: one that cannot answer
/// (`None`) is gone; one minimized still counts.
pub fn alive_from(visible: Option<bool>, minimized: Option<bool>) -> (r: bool)
    ensures
        r == match (visible, minimized) {
            (Some(v), Some(m)) => v || m,
            _ => false,
        },
{
    match (visible, minimized) {
        (Some(v), Some(m)) => v || m,
        _ => false,
    }
}

/// Whether a window group's teardown is still its own to do: only while no
/// newer group has taken over.
pub fn teardown_belongs_to(mine: u64, current: u64) -> (r: bool)
    ensures
        r == (mine == current),
{
    mine == current
}

/// A remembered window placement, in physical pixels.
#[derive(Debug, Clone, Copy, PartialEq, Eq)]
pub struct Geometry {
    pub x: i32,
    pub y: i32,
    pub width: u32,
    pub height: u32,
}

/// Half the toolbar's height (title bar and navigation bar, 42 each).
pub const TITLEBAR_PROBE_Y: i32 = 42;

/// The point probed for reachability: the middle of the title bar.
pub open spec fn probe(g: Geometry) -> (int, int) {
    (g.x + g.width / 2, g.y + TITLEBAR_PROBE_Y)
}

/// The probe falls on monitor `m` (`(x, y, width, height)`).
pub open spec fn on_monitor(p: (int, int), m: (i32, i32, u32, u32)) -> bool {
    p.0 >= m.0 && p.1 >= m.1 && p.0 < m.0 + m.2 && p.1 < m.1 + m.3
}

/// Whether a remembered placement can still be reached: the middle of its
/// title bar lies on some monitor. Coordinates must not overflow `i32`.
pub fn titlebar_is_reachable(geometry: &Geometry, monitors: &[(i32, i32, u32, u32)]) -> (r: bool)
    requires
        geometry.x + geometry.width / 2 <= i32::MAX,
        geometry.y + TITLEBAR_PROBE_Y <= i32::MAX,
        forall|i: int|
            0 <= i < monitors@.len() ==> (#[trigger] monitors@[i]).0 + monitors@[i].2 <= i32::MAX
                && monitors@[i].1 + monitors@[i].3 <= i32::MAX,
    ensures
        r == exists|i: int| 0 <= i < monitors@.len() && on_monitor(probe(*geometry), #[trigger] monitors@[i]),
{
    let probe_x: i64 = geometry.x as i64 + (geometry.width / 2) as i64;
    let probe_y: i64 = geometry.y as i64 + TITLEBAR_PROBE_Y as i64;
    let mut i: usize = 0;
    while i < monitors.len()
        invariant
            i <= monitors@.len(),
            probe_x == probe(*geometry).0,
            probe_y == probe(*geometry).1,
            forall|k: int| 0 <= k < i ==> !on_monitor(probe(*geometry), #[trigger] monitors@[k]),
        decreases monitors@.len() - i,
    {
        let (mx, my, mw, mh) = monitors[i];
        if probe_x >= mx as i64 && probe_y >= my as i64 && probe_x < mx as i64 + mw as i64 && probe_y < my as i64
            + mh as i64 {
            assert(on_monitor(probe(*geometry), monitors@[i as int]));
            return true;
        }
        i = i + 1;
    }
    false
}

/// Where each cookie of the seeding batch lands: name, lower-cased domain and path.
pub open spec fn slot(name: Seq<char>, domain: Seq<char>, path: Seq<char>) -> (Seq<char>, Seq<char>, Seq<char>) {
    (name, lower(domain), path)
}

/// The places a seeding batch will write. An old cookie in one of them is
/// never deleted before seeding: seeding overwrites it, and a deletion that
/// lands late would take the new one with it.
pub struct CookieSlots {
    slots: Vec<(String, String, String)>,
}

impl View for CookieSlots {
    type V = Seq<(Seq<char>, Seq<char>, Seq<char>)>;

    closed spec fn view(&self) -> Seq<(Seq<char>, Seq<char>, Seq<char>)> {
        self.slots.deep_view()
    }
}

impl CookieSlots {
    /// The slots of a batch.
    pub fn of(cookies: &[WebviewCookie]) -> (r: CookieSlots)
        ensures
            r@ == cookies@.map_values(|c: WebviewCookie| slot(c.name@, c.domain@, c.path@)),
    {
        let mut slots: Vec<(String, String, String)> = Vec::new();
        let mut i: usize = 0;
        while i < cookies.len()
            invariant
                i <= cookies@.len(),
                slots@.len() == i,
                slots.deep_view() == cookies@.map_values(|c: WebviewCookie| slot(c.name@, c.domain@, c.path@)).take(i as int),
            decreases cookies@.len() - i,
        {
            let c = &cookies[i];
            let entry = (c.name.clone(), to_ascii_lowercase(c.domain.as_str()), c.path.clone());
            assert(entry.deep_view() == slot(c.name@, c.domain@, c.path@));
            slots.push(entry);
            i = i + 1;
            assert(slots.deep_view() =~= cookies@.map_values(|c: WebviewCookie| slot(c.name@, c.domain@, c.path@)).take(i as int));
        }
        assert(cookies@.map_values(|c: WebviewCookie| slot(c.name@, c.domain@, c.path@)).take(cookies@.len() as int)
            =~= cookies@.map_values(|c: WebviewCookie| slot(c.name@, c.domain@, c.path@)));
        CookieSlots { slots }
    }

    /// Whether the batch writes the place `(name, domain, path)`; the domain
    /// is compared without regard to ASCII case.
    pub fn holds(&self, name: &str, domain: &str, path: &str) -> (r: bool)
        ensures
            r == self@.contains(slot(name@, domain@, path@)),
    {
        let d = to_ascii_lowercase(domain);
        let mut i: usize = 0;
        while i < self.slots.len()
            invariant
                i <= self.slots@.len(),
                d@ == lower(domain@),
                forall|k: int| 0 <= k < i ==> self.slots.deep_view()[k] != slot(name@, domain@, path@),
            decreases self.slots@.len() - i,
        {
            let (n, dd, p) = &self.slots[i];
            assert(self.slots.deep_view()[i as int] == (n@, dd@, p@));
            if str_eq(n.as_str(), name) && str_eq(dd.as_str(), d.as_str()) && str_eq(p.as_str(), path) {
                assert(self.slots.deep_view()[i as int] == slot(name@, domain@, path@));
                return true;
            }
            i = i + 1;
        }
        false
    }
}

impl CookieSlots {
    /// No place yet.
    pub fn new() -> (r: CookieSlots)
        ensures
            r@ == Seq::<(Seq<char>, Seq<char>, Seq<char>)>::empty(),
    {
        let r = CookieSlots { slots: Vec::new() };
        assert(r.slots.deep_view() =~= Seq::<(Seq<char>, Seq<char>, Seq<char>)>::empty());
        r
    }

    /// Record a place; `true` when it was not recorded yet (a deletion is
    /// sent once per place, however many addresses show the cookie).
    pub fn insert(&mut self, name: &str, domain: &str, path: &str) -> (r: bool)
        ensures
            r == !old(self)@.contains(slot(name@, domain@, path@)),
            r ==> final(self)@ == old(self)@.push(slot(name@, domain@, path@)),
            !r ==> final(self)@ == old(self)@,
    {
        if self.holds(name, domain, path) {
            return false;
        }
        let entry = (name.to_owned(), to_ascii_lowercase(domain), path.to_owned());
        let ghost before = self.slots.deep_view();
        self.slots.push(entry);
        assert(self.slots.deep_view() =~= before.push(slot(name@, domain@, path@)));
        true
    }
}

/// Whether an old cookie is to be deleted before seeding the same account
/// again: one of the batch's names, but in a place the batch does not write.
pub fn same_name_doomed(names: &[String], slots: &CookieSlots, name: &str, domain: &str, path: &str) -> (r: bool)
    ensures
        r == (names.deep_view().contains(name@) && !slots@.contains(slot(name@, domain@, path@))),
{
    let mut found = false;
    let mut i: usize = 0;
    while i < names.len()
        invariant
            i <= names@.len(),
            found == exists|k: int| 0 <= k < i && names.deep_view()[k] == name@,
        decreases names@.len() - i,
    {
        assert(names.deep_view()[i as int] == names@[i as int]@);
        if str_eq(names[i].as_str(), name) {
            found = true;
        }
        i = i + 1;
    }
    proof {
        if names.deep_view().contains(name@) {
            let k = choose|k: int| 0 <= k < names.deep_view().len() && names.deep_view()[k] == name@;
            assert(k < i);
        }
    }
    found && !slots.holds(name, domain, path)
}

/// How many times a deletion is read back before giving up on it.
pub const CLEAR_VERIFY_ROUNDS: u32 = 30;

/// What follows one round of reading the cookies back after deleting.
#[derive(Debug, Clone, Copy, PartialEq, Eq)]
pub enum SweepNext {
    /// Stop and seed: `clean` when every doomed cookie is confirmed gone.
    Done { clean: bool },
    /// Read again; `wipe_now` when the one store-wide deletion is to be sent first.
    Again { wipe_now: bool },
}

/// The end of a round: an address that could not be read stops it unclean;
/// nothing left to delete stops it clean; the last round stops it unclean;
/// otherwise another round, the store-wide deletion sent once before it.
pub fn sweep_next(unread: bool, left: u64, attempt: u32, wipe: bool, wiped: bool) -> (r: SweepNext)
    ensures
        r == (if unread {
            SweepNext::Done { clean: false }
        } else if left == 0 {
            SweepNext::Done { clean: true }
        } else if attempt + 1 >= CLEAR_VERIFY_ROUNDS {
            SweepNext::Done { clean: false }
        } else {
            SweepNext::Again { wipe_now: wipe && !wiped }
        }),
{
    if unread {
        SweepNext::Done { clean: false }
    } else if left == 0 {
        SweepNext::Done { clean: true }
    } else if attempt >= CLEAR_VERIFY_ROUNDS - 1 {
        SweepNext::Done { clean: false }
    } else {
        SweepNext::Again { wipe_now: wipe && !wiped }
    }
}

/// A sweep always ends: past the last round no further round is asked for.
pub proof fn law_sweep_ends(unread: bool, left: u64, attempt: u32, wipe: bool, wiped: bool)
    requires
        attempt + 1 >= CLEAR_VERIFY_ROUNDS,
    ensures
        (if unread {
            SweepNext::Done { clean: false }
        } else if left == 0 {
            SweepNext::Done { clean: true }
        } else if attempt + 1 >= CLEAR_VERIFY_ROUNDS {
            SweepNext::Done { clean: false }
        } else {
            SweepNext::Again { wipe_now: wipe && !wiped }
        }) is Done,
{
}

/// What the tab strip asked for.
#[derive(Debug, Clone, Copy, PartialEq, Eq)]
pub enum TabAction {
    New,
    Activate(u64),
    Close(u64),
}

/// Read a tab-strip request: `new`, or `activate`/`close` with a tab id.
pub fn parse_tab_action(action: &str, id: Option<u64>) -> (r: Result<TabAction, String>)
    ensures
        action@ == "new"@ ==> r == Ok::<TabAction, String>(TabAction::New),
        action@ == "activate"@ ==> match id {
            Some(i) => r == Ok::<TabAction, String>(TabAction::Activate(i)),
            None => r matches Err(m) && m@ == "缺分頁 id"@,
        },
        action@ == "close"@ ==> match id {
            Some(i) => r == Ok::<TabAction, String>(TabAction::Close(i)),
            None => r matches Err(m) && m@ == "缺分頁 id"@,
        },
        !(action@ == "new"@ || action@ == "activate"@ || action@ == "close"@) ==> (r matches Err(m) && m@
            == "不認識的分頁動作："@ + action@),
{
    proof {
        reveal_strlit("new");
        reveal_strlit("activate");
        reveal_strlit("close");
        assert("new"@.len() == 3 && "activate"@.len() == 8 && "close"@.len() == 5);
    }
    if str_eq(action, "new") {
        return Ok(TabAction::New);
    }
    let is_activate = str_eq(action, "activate");
    if is_activate || str_eq(action, "close") {
        return match id {
            Some(i) => if is_activate {
                Ok(TabAction::Activate(i))
            } else {
                Ok(TabAction::Close(i))
            },
            None => Err("缺分頁 id".to_owned()),
        };
    }
    Err(concat("不認識的分頁動作：", action))
}

/// What the navigation bar asked for.
#[derive(Debug, Clone, PartialEq, Eq)]
pub enum NavAction {
    Back,
    Forward,
    Reload,
    /// Go to what was typed, as [`normalize_url`] reads it.
    Goto(String),
}

/// Read a navigation-bar request; `goto` takes what was typed (none reads as empty).
pub fn parse_nav_action(action: &str, url: Option<&str>) -> (r: Result<NavAction, String>)
    ensures
        action@ == "back"@ ==> r == Ok::<NavAction, String>(NavAction::Back),
        action@ == "forward"@ ==> r == Ok::<NavAction, String>(NavAction::Forward),
        action@ == "reload"@ ==> r == Ok::<NavAction, String>(NavAction::Reload),
        action@ == "goto"@ ==> match normalize_url_spec(match url {
            Some(u) => u@,
            None => Seq::<char>::empty(),
        }) {
            Ok(a) => r matches Ok(NavAction::Goto(t)) && t@ == a,
            Err(e) => r matches Err(m) && m@ == e,
        },
        !(action@ == "back"@ || action@ == "forward"@ || action@ == "reload"@ || action@ == "goto"@) ==> (r matches Err(
            m,
        ) && m@ == "不認識的導覽動作："@ + action@),
{
    proof {
        reveal_strlit("back");
        reveal_strlit("forward");
        reveal_strlit("reload");
        reveal_strlit("goto");
        assert("back"@.len() == 4 && "forward"@.len() == 7 && "reload"@.len() == 6 && "goto"@.len() == 4);
        assert("back"@[0] != "goto"@[0]);
    }
    if str_eq(action, "back") {
        Ok(NavAction::Back)
    } else if str_eq(action, "forward") {
        Ok(NavAction::Forward)
    } else if str_eq(action, "reload") {
        Ok(NavAction::Reload)
    } else if str_eq(action, "goto") {
        let typed = match url {
            Some(u) => u,
            None => "",
        };
        proof {
            if url is None {
                reveal_strlit("");
            }
        }
        match normalize_url(typed) {
            Ok(a) => Ok(NavAction::Goto(a)),
            Err(e) => Err(e),
        }
    } else {
        Err(concat("不認識的導覽動作：", action))
    }
}

/// A cookie being seeded is never among those cleared before seeding: its
/// own place is always held, whatever the case of its domain.
pub proof fn law_seeded_slot_is_held(cookies: Seq<WebviewCookie>, i: int, domain: Seq<char>)
    requires
        0 <= i < cookies.len(),
        lower(domain) == lower(cookies[i].domain@),
    ensures
        cookies.map_values(|c: WebviewCookie| slot(c.name@, c.domain@, c.path@)).contains(
            slot(cookies[i].name@, domain, cookies[i].path@),
        ),
{
    let slots = cookies.map_values(|c: WebviewCookie| slot(c.name@, c.domain@, c.path@));
    assert(slots[i] == slot(cookies[i].name@, domain, cookies[i].path@));
}

/// An upper-case hex digit.
pub open spec fn hex_upper(d: nat) -> char {
    if d < 10 {
        (d + 48) as char
    } else {
        (d + 55) as char
    }
}

/// `%XX` for one byte.
pub open spec fn percent(b: u8) -> Seq<char> {
    seq!['%', hex_upper((b / 16) as nat), hex_upper((b % 16) as nat)]
}

/// Bytes left as they are in a query value.
pub open spec fn unreserved(b: u8) -> bool {
    (65 <= b <= 90) || (97 <= b <= 122) || (48 <= b <= 57) || b == 45 || b == 95 || b == 46 || b == 126
}

/// The UTF-8 bytes `bs` escaped for a query string: letters, digits and
/// `-_.~` kept, every other byte written `%XX`.
pub open spec fn urlencode_bytes(bs: Seq<u8>) -> Seq<char>
    decreases bs.len(),
{
    if bs.len() == 0 {
        Seq::empty()
    } else {
        urlencode_bytes(bs.drop_last()) + if unreserved(bs.last()) {
            seq![bs.last() as char]
        } else {
            percent(bs.last())
        }
    }
}

fn hex_upper_of(d: u8) -> (r: char)
    requires
        d < 16,
    ensures
        r == hex_upper(d as nat),
{
    if d < 10 {
        (d + 48) as char
    } else {
        (d + 55) as char
    }
}

/// Escape `s` for a query string (used for the alias the toolbar shows).
pub fn urlencode(s: &str) -> (r: String)
    ensures
        r@ == urlencode_bytes(encode_utf8(s@)),
{
    let bytes = s.as_bytes();
    let mut out = String::new();
    let mut i: usize = 0;
    while i < bytes.len()
        invariant
            i <= bytes@.len(),
            bytes@ == encode_utf8(s@),
            out@ == urlencode_bytes(bytes@.take(i as int)),
        decreases bytes@.len() - i,
    {
        let b = bytes[i];
        assert(bytes@.take(i + 1).drop_last() =~= bytes@.take(i as int));
        assert(bytes@.take(i + 1).last() == b);
        let keep = (65 <= b && b <= 90) || (97 <= b && b <= 122) || (48 <= b && b <= 57) || b == 45 || b == 95 || b == 46
            || b == 126;
        if keep {
            push_char(&mut out, b as char);
        } else {
            push_char(&mut out, '%');
            push_char(&mut out, hex_upper_of(b / 16));
            push_char(&mut out, hex_upper_of(b % 16));
        }
        i = i + 1;
        assert(out@ =~= urlencode_bytes(bytes@.take(i as int)));
    }
    assert(bytes@.take(bytes@.len() as int) =~= bytes@);
    out
}

/// How one byte is written by [`urlencode_bytes`].
pub open spec fn url_token(b: u8) -> Seq<char> {
    if unreserved(b) {
        seq![b as char]
    } else {
        percent(b)
    }
}

/// The value of a hex digit, either case.
pub open spec fn hex_digit_value(c: char) -> int {
    if '0' <= c && c <= '9' {
        c as int - 48
    } else if 'A' <= c && c <= 'F' {
        c as int - 55
    } else if 'a' <= c && c <= 'f' {
        c as int - 87
    } else {
        0
    }
}

/// Percent-decoding, front to back: `%XX` is the byte `XX`, any other
/// character its own byte.
pub open spec fn percent_decode(cs: Seq<char>) -> Seq<u8>
    decreases cs.len(),
{
    if cs.len() == 0 {
        Seq::empty()
    } else if cs[0] == '%' && cs.len() >= 3 {
        seq![(hex_digit_value(cs[1]) * 16 + hex_digit_value(cs[2])) as u8] + percent_decode(cs.skip(3))
    } else {
        seq![cs[0] as u8] + percent_decode(cs.drop_first())
    }
}

/// A character that may stand in an escaped query value: an unreserved one
/// or `%`. No space, `&`, `=`, `#` or `?` is among them.
pub open spec fn url_safe(c: char) -> bool {
    ('A' <= c && c <= 'Z') || ('a' <= c && c <= 'z') || ('0' <= c && c <= '9') || c == '-' || c == '_' || c == '.'
        || c == '~' || c == '%'
}

proof fn lemma_urlencode_front(bs: Seq<u8>)
    requires
        bs.len() > 0,
    ensures
        urlencode_bytes(bs) == url_token(bs[0]) + urlencode_bytes(bs.drop_first()),
    decreases bs.len(),
{
    if bs.len() == 1 {
        assert(bs.drop_last() =~= Seq::<u8>::empty());
        assert(bs.drop_first() =~= Seq::<u8>::empty());
        assert(urlencode_bytes(bs.drop_first()) =~= Seq::<char>::empty());
        assert(urlencode_bytes(bs) =~= url_token(bs[0]));
    } else {
        lemma_urlencode_front(bs.drop_last());
        assert(bs.drop_last().drop_first() =~= bs.drop_first().drop_last());
        assert(bs.drop_first().last() == bs.last());
        assert(bs.drop_last()[0] == bs[0]);
        assert(urlencode_bytes(bs) =~= url_token(bs[0]) + urlencode_bytes(bs.drop_first()));
    }
}

/// Escaping for a query value loses nothing and leaves nothing that would
/// end the value: percent-decoding the escaped bytes gives them back, and
/// every character of it is unreserved or `%`.
pub proof fn law_urlencode_decodes_back(bs: Seq<u8>)
    ensures
        percent_decode(urlencode_bytes(bs)) == bs,
        forall|i: int| 0 <= i < urlencode_bytes(bs).len() ==> url_safe(#[trigger] urlencode_bytes(bs)[i]),
    decreases bs.len(),
{
    if bs.len() == 0 {
        assert(urlencode_bytes(bs) =~= Seq::<char>::empty());
        assert(percent_decode(urlencode_bytes(bs)) =~= bs);
    } else {
        lemma_urlencode_front(bs);
        law_urlencode_decodes_back(bs.drop_first());
        let b = bs[0];
        let rest = urlencode_bytes(bs.drop_first());
        let e = urlencode_bytes(bs);
        if unreserved(b) {
            assert((b as char) as u8 == b);
            assert(e[0] == b as char);
            assert(e.drop_first() =~= rest);
            assert(percent_decode(e) =~= bs);
        } else {
            let hi = (b / 16) as nat;
            let lo = (b % 16) as nat;
            assert(hex_digit_value(hex_upper(hi)) == hi);
            assert(hex_digit_value(hex_upper(lo)) == lo);
            assert(e[0] == '%' && e[1] == hex_upper(hi) && e[2] == hex_upper(lo));
            assert(e.skip(3) =~= rest);
            assert(percent_decode(e) =~= bs);
        }
        assert forall|i: int| 0 <= i < e.len() implies url_safe(#[trigger] e[i]) by {
            if i >= url_token(b).len() {
                assert(e[i] == rest[i - url_token(b).len()]);
            }
        }
    }
}

/// The toolbar page for a window group showing `alias`, with the bar sizes
/// it is to draw.
pub fn shell_url(alias: &str) -> (r: String)
    ensures
        r@ == "browser.html?alias="@ + urlencode_bytes(encode_utf8(alias@)) + "&titlebar=42&navbar=42&edge=3"@,
{
    let mut r = concat("browser.html?alias=", urlencode(alias).as_str());
    push_str(&mut r, "&titlebar=42&navbar=42&edge=3");
    r
}

/// A cookie read back out of a webview, with where it lives.
#[derive(Debug, Clone, PartialEq, Eq)]
pub struct SeenCookie {
    pub name: String,
    pub value: String,
    /// WebView2's form: a leading dot when it reaches subdomains.
    pub domain: String,
    pub path: String,
    pub secure: bool,
    pub http_only: bool,
}

/// The `Set-Cookie` line that recreates a seen cookie, and the address that
/// would have sent it: a cookie that reached subdomains gets its `Domain`
/// back, a host-only one is tied to its host by the address alone.
pub open spec fn set_cookie_spec(name: Seq<char>, value: Seq<char>, domain: Seq<char>, path: Seq<char>, secure: bool, http_only: bool) -> (Seq<char>, Seq<char>) {
    let host = domain.skip(lead_count(domain, '.') as int);
    let line = name + "="@ + value + "; Path="@ + path + (if starts_with(domain, "."@) {
        "; Domain="@ + host
    } else {
        Seq::empty()
    }) + (if secure {
        "; Secure"@
    } else {
        Seq::empty()
    }) + (if http_only {
        "; HttpOnly"@
    } else {
        Seq::empty()
    });
    (line, "https://"@ + host + "/"@)
}

impl SeenCookie {
    /// The `Set-Cookie` line and the address to hand the jar, so that the
    /// cookie lives there where it lived in the browser.
    pub fn as_set_cookie(&self) -> (r: (String, String))
        ensures
            (r.0@, r.1@) == set_cookie_spec(self.name@, self.value@, self.domain@, self.path@, self.secure, self.http_only),
    {
        let host = trim_start_char(self.domain.as_str(), '.');
        let mut line = concat(self.name.as_str(), "=");
        push_str(&mut line, self.value.as_str());
        push_str(&mut line, "; Path=");
        push_str(&mut line, self.path.as_str());
        let ghost before_domain = line@;
        if str_starts_with(self.domain.as_str(), ".") {
            push_str(&mut line, "; Domain=");
            push_str(&mut line, host.as_str());
        }
        let ghost before_secure = line@;
        if self.secure {
            push_str(&mut line, "; Secure");
        }
        if self.http_only {
            push_str(&mut line, "; HttpOnly");
        }
        let mut origin = concat("https://", host.as_str());
        push_str(&mut origin, "/");
        proof {
            let s = set_cookie_spec(self.name@, self.value@, self.domain@, self.path@, self.secure, self.http_only);
            assert(line@ =~= s.0);
            assert(origin@ =~= s.1);
        }
        (line, origin)
    }
}

/// How the login session's cookies are prepared before the first tab of a
/// window group is seeded.
#[derive(Debug, Clone, PartialEq, Eq)]
pub enum Tidy {
    /// Delete nothing.
    Keep,
    /// The same account again: delete only the same-named cookies under the login addresses.
    SameNames,
    /// Another account: empty the whole store, which then belongs to `account`.
    Everything { account: String },
}

/// How to prepare the shared cookie store for `account`, given whose cookies
/// it holds (`None`: unknown).
pub fn tidy_for(cookie_owner: Option<&str>, account: &str) -> (r: Tidy)
    ensures
        match cookie_owner {
            Some(o) => if o@ == account@ {
                r == Tidy::SameNames
            } else {
                r matches Tidy::Everything { account: a } && a@ == account@
            },
            None => r matches Tidy::Everything { account: a } && a@ == account@,
        },
{
    match cookie_owner {
        Some(o) => if str_eq(o, account) {
            Tidy::SameNames
        } else {
            Tidy::Everything { account: account.to_owned() }
        },
        None => Tidy::Everything { account: account.to_owned() },
    }
}

/// One tab: what the tab strip shows of it.
#[derive(Debug, Clone, PartialEq, Eq)]
pub struct Tab {
    pub id: u64,
    pub title: String,
    pub url: String,
}

/// The browser's state: its tabs in strip order, the active one, the next
/// id to hand out, the cookies every new tab is seeded with, how the store
/// is to be prepared for the first one, and the window group it belongs to.
pub struct BrowserState {
    tabs: Vec<Tab>,
    active: u64,
    next_id: u64,
    cookies: Vec<WebviewCookie>,
    tidy: Tidy,
    generation: u64,
}

impl View for BrowserState {
    /// `(tabs as (id, title, url), active, next_id, generation)`.
    type V = (Seq<(u64, Seq<char>, Seq<char>)>, u64, u64, u64);

    closed spec fn view(&self) -> (Seq<(u64, Seq<char>, Seq<char>)>, u64, u64, u64) {
        (self.tabs@.map_values(|t: Tab| (t.id, t.title@, t.url@)), self.active, self.next_id, self.generation)
    }
}

/// The ids of a tab list.
pub open spec fn tab_ids(tabs: Seq<(u64, Seq<char>, Seq<char>)>) -> Seq<u64> {
    tabs.map_values(|t: (u64, Seq<char>, Seq<char>)| t.0)
}

/// Tab ids are handed out in increasing order and never twice: the strip
/// lists them increasing, each below the next id to hand out.
pub open spec fn tabs_wf(v: (Seq<(u64, Seq<char>, Seq<char>)>, u64, u64, u64)) -> bool {
    &&& forall|i: int, j: int| 0 <= i < j < v.0.len() ==> (#[trigger] v.0[i]).0 < (#[trigger] v.0[j]).0
    &&& forall|i: int| 0 <= i < v.0.len() ==> (#[trigger] v.0[i]).0 < v.2
    &&& v.2 >= 1
}

impl BrowserState {
    /// The cookies every new tab is seeded with.
    pub closed spec fn seed(&self) -> Seq<(Seq<char>, Seq<char>, Seq<char>, Seq<char>, bool, bool)> {
        self.cookies@.map_values(|c: WebviewCookie| c@)
    }

    /// How the store is to be prepared before the next seeding.
    pub closed spec fn tidy_state(&self) -> Tidy {
        self.tidy
    }

    /// No tabs, nothing to seed; ids start at 1.
    pub fn new() -> (r: BrowserState)
        ensures
            r@ == (Seq::<(u64, Seq<char>, Seq<char>)>::empty(), 0u64, 1u64, 0u64),
            tabs_wf(r@),
    {
        let r = BrowserState { tabs: Vec::new(), active: 0, next_id: 1, cookies: Vec::new(), tidy: Tidy::Keep, generation: 0 };
        assert(r.tabs@.map_values(|t: Tab| (t.id, t.title@, t.url@)) =~= Seq::<(u64, Seq<char>, Seq<char>)>::empty());
        r
    }

    /// The window group this state belongs to.
    pub fn generation(&self) -> (r: u64)
        ensures
            r == self@.3,
    {
        self.generation
    }

    /// Start a new window group: its number is one past the last one.
    pub fn next_generation(&mut self) -> (r: u64)
        requires
            old(self)@.3 < u64::MAX,
        ensures
            r == old(self)@.3 + 1,
            final(self)@ == (old(self)@.0, old(self)@.1, old(self)@.2, r),
            final(self).seed() == old(self).seed(),
            final(self).tidy_state() == old(self).tidy_state(),
    {
        self.generation = self.generation + 1;
        self.generation
    }

    /// Start over for a newly opened group: no tabs, this batch of cookies,
    /// and how the store is to be prepared.
    pub fn reset(&mut self, cookies: Vec<WebviewCookie>, tidy: Tidy)
        requires
            tabs_wf(old(self)@),
        ensures
            final(self)@ == (Seq::<(u64, Seq<char>, Seq<char>)>::empty(), 0u64, old(self)@.2, old(self)@.3),
            tabs_wf(final(self)@),
            final(self).seed() == cookies@.map_values(|c: WebviewCookie| c@),
            final(self).tidy_state() == tidy,
    {
        self.tabs = Vec::new();
        self.active = 0;
        self.cookies = cookies;
        self.tidy = tidy;
        assert(self.tabs@.map_values(|t: Tab| (t.id, t.title@, t.url@)) =~= Seq::<(u64, Seq<char>, Seq<char>)>::empty());
    }

    /// Forget the tabs and the cookies of a group that is gone.
    pub fn clear(&mut self)
        requires
            tabs_wf(old(self)@),
        ensures
            final(self)@ == (Seq::<(u64, Seq<char>, Seq<char>)>::empty(), 0u64, old(self)@.2, old(self)@.3),
            tabs_wf(final(self)@),
            final(self).seed().len() == 0,
            final(self).tidy_state() == old(self).tidy_state(),
    {
        self.tabs = Vec::new();
        self.active = 0;
        self.cookies = Vec::new();
        assert(self.tabs@.map_values(|t: Tab| (t.id, t.title@, t.url@)) =~= Seq::<(u64, Seq<char>, Seq<char>)>::empty());
    }

    /// Add a tab at the end of the strip, still loading; returns its id.
    pub fn push_tab(&mut self) -> (r: u64)
        requires
            tabs_wf(old(self)@),
            old(self)@.2 < u64::MAX,
        ensures
            r == old(self)@.2,
            final(self)@ == (old(self)@.0.push((r, "載入中…"@, Seq::empty())), old(self)@.1, (r + 1) as u64, old(self)@.3),
            tabs_wf(final(self)@),
            !tab_ids(old(self)@.0).contains(r),
            final(self).seed() == old(self).seed(),
            final(self).tidy_state() == old(self).tidy_state(),
    {
        let id = self.next_id;
        self.next_id = self.next_id + 1;
        let ghost before = self.tabs@.map_values(|t: Tab| (t.id, t.title@, t.url@));
        self.tabs.push(Tab { id, title: "載入中…".to_owned(), url: String::new() });
        proof {
            assert(before == old(self)@.0);
            assert(self.tabs@.map_values(|t: Tab| (t.id, t.title@, t.url@)) =~= before.push((id, "載入中…"@, Seq::empty())));
            if tab_ids(before).contains(id) {
                let k = choose|k: int| 0 <= k < tab_ids(before).len() && tab_ids(before)[k] == id;
                assert(tab_ids(before)[k] == before[k].0);
                assert(before[k].0 < old(self)@.2);
            }
        }
        id
    }

    /// The cookies to seed a tab with, and how to prepare the store first;
    /// only the first tab prepares it, every later one keeps what is there.
    pub fn take_seed(&mut self) -> (r: (Vec<WebviewCookie>, Tidy))
        ensures
            r.1 == old(self).tidy_state(),
            r.0@.map_values(|c: WebviewCookie| c@) == old(self).seed(),
            final(self).tidy_state() == Tidy::Keep,
            final(self)@ == old(self)@,
            final(self).seed() == old(self).seed(),
    {
        let mut cookies: Vec<WebviewCookie> = Vec::new();
        let mut i: usize = 0;
        while i < self.cookies.len()
            invariant
                i <= self.cookies@.len(),
                cookies@.len() == i,
                forall|k: int| 0 <= k < i ==> (#[trigger] cookies@[k])@ == self.cookies@[k]@,
            decreases self.cookies@.len() - i,
        {
            let c = &self.cookies[i];
            cookies.push(WebviewCookie {
                name: c.name.clone(),
                value: c.value.clone(),
                domain: c.domain.clone(),
                path: c.path.clone(),
                secure: c.secure,
                http_only: c.http_only,
            });
            i = i + 1;
        }
        assert(cookies@.map_values(|c: WebviewCookie| c@) =~= self.cookies@.map_values(|c: WebviewCookie| c@));
        let mut tidy = Tidy::Keep;
        std::mem::swap(&mut tidy, &mut self.tidy);
        (cookies, tidy)
    }

    /// The ids of the tabs, in strip order.
    pub fn ids(&self) -> (r: Vec<u64>)
        ensures
            r@ == tab_ids(self@.0),
    {
        let mut ids: Vec<u64> = Vec::new();
        let mut i: usize = 0;
        while i < self.tabs.len()
            invariant
                i <= self.tabs@.len(),
                ids@ == tab_ids(self@.0).take(i as int),
            decreases self.tabs@.len() - i,
        {
            ids.push(self.tabs[i].id);
            i = i + 1;
            assert(ids@ =~= tab_ids(self@.0).take(i as int));
        }
        assert(tab_ids(self@.0).take(self.tabs@.len() as int) =~= tab_ids(self@.0));
        ids
    }

    /// Where tab `id` stands in the strip.
    fn position(&self, id: u64) -> (r: Option<usize>)
        ensures
            match r {
                Some(i) => i < self@.0.len() && self@.0[i as int].0 == id,
                None => !tab_ids(self@.0).contains(id),
            },
    {
        let mut i: usize = 0;
        while i < self.tabs.len()
            invariant
                i <= self.tabs@.len(),
                forall|k: int| 0 <= k < i ==> (#[trigger] self.tabs@[k]).id != id,
            decreases self.tabs@.len() - i,
        {
            if self.tabs[i].id == id {
                return Some(i);
            }
            i = i + 1;
        }
        proof {
            if tab_ids(self@.0).contains(id) {
                let k = choose|k: int| 0 <= k < tab_ids(self@.0).len() && tab_ids(self@.0)[k] == id;
                assert(self.tabs@[k].id == id);
            }
        }
        None
    }

    /// The active tab's id; an error while the browser has no tab.
    pub fn active_tab(&self) -> (r: Result<u64, String>)
        ensures
            self@.0.len() == 0 ==> (r matches Err(m) && m@ == "瀏覽器沒有開著"@),
            self@.0.len() > 0 ==> r == Ok::<u64, String>(self@.1),
    {
        if self.tabs.len() == 0 {
            return Err("瀏覽器沒有開著".to_owned());
        }
        Ok(self.active)
    }

    /// Make tab `id` the active one; returns the ids to show or hide and the
    /// address to put in the address bar. An unknown id is refused.
    pub fn activate(&mut self, id: u64) -> (r: Result<(Vec<u64>, String), String>)
        requires
            tabs_wf(old(self)@),
        ensures
            tabs_wf(final(self)@),
            !tab_ids(old(self)@.0).contains(id) ==> (r matches Err(m) && m@ == "分頁不存在"@ && final(self)@
                == old(self)@),
            tab_ids(old(self)@.0).contains(id) ==> (r matches Ok((ids, url)) && final(self)@ == (
                old(self)@.0,
                id,
                old(self)@.2,
                old(self)@.3,
            ) && ids@ == tab_ids(old(self)@.0) && exists|i: int|
                0 <= i < old(self)@.0.len() && old(self)@.0[i].0 == id && url@ == old(self)@.0[i].2),
            final(self).seed() == old(self).seed(),
            final(self).tidy_state() == old(self).tidy_state(),
    {
        match self.position(id) {
            None => Err("分頁不存在".to_owned()),
            Some(i) => {
                self.active = id;
                let ids = self.ids();
                let url = self.tabs[i].url.clone();
                proof {
                    assert(self@.0[i as int] == (self.tabs@[i as int].id, self.tabs@[i as int].title@, self.tabs@[i as int].url@));
                    assert(tab_ids(old(self)@.0)[i as int] == id);
                    assert(tab_ids(old(self)@.0).contains(id));
                }
                Ok((ids, url))
            },
        }
    }

    /// Drop tab `id` from the strip; returns the ids before the drop and the
    /// tab that was active, for deciding what becomes active next. An id no
    /// longer there (a second click on its close button) changes nothing.
    pub fn close(&mut self, id: u64) -> (r: Option<(Vec<u64>, u64)>)
        requires
            tabs_wf(old(self)@),
        ensures
            tabs_wf(final(self)@),
            !tab_ids(old(self)@.0).contains(id) ==> r is None && final(self)@ == old(self)@,
            tab_ids(old(self)@.0).contains(id) ==> (r matches Some((ids, active)) && ids@ == tab_ids(old(self)@.0)
                && active == old(self)@.1 && final(self)@ == (
                old(self)@.0.filter(|t: (u64, Seq<char>, Seq<char>)| t.0 != id),
                old(self)@.1,
                old(self)@.2,
                old(self)@.3,
            )),
            final(self).seed() == old(self).seed(),
            final(self).tidy_state() == old(self).tidy_state(),
    {
        match self.position(id) {
            None => None,
            Some(p) => {
                let ids = self.ids();
                let active = self.active;
                let ghost before = self@.0;
                self.tabs.remove(p);
                proof {
                    assert(tab_ids(old(self)@.0)[p as int] == id);
                    assert(tab_ids(old(self)@.0).contains(id));
                    assert(self@.0 =~= before.remove(p as int));
                    lemma_filter_drops_one(before, p as int, id);
                }
                Some((ids, active))
            },
        }
    }

    /// Set a tab's title; a blank title reads `（無標題）`. Unknown ids are ignored.
    pub fn set_title(&mut self, id: u64, title: &str)
        requires
            tabs_wf(old(self)@),
        ensures
            tabs_wf(final(self)@),
            final(self)@.1 == old(self)@.1 && final(self)@.2 == old(self)@.2 && final(self)@.3 == old(self)@.3,
            tab_ids(final(self)@.0) == tab_ids(old(self)@.0),
            forall|i: int|
                0 <= i < final(self)@.0.len() ==> (#[trigger] final(self)@.0[i]).2 == old(self)@.0[i].2 && (
                final(self)@.0[i].0 == id ==> final(self)@.0[i].1 == if crate::text::trim(title@).len() == 0 {
                    "（無標題）"@
                } else {
                    title@
                }) && (final(self)@.0[i].0 != id ==> final(self)@.0[i].1 == old(self)@.0[i].1),
            final(self).seed() == old(self).seed(),
            final(self).tidy_state() == old(self).tidy_state(),
    {
        let ghost before = self@.0;
        if let Some(i) = self.position(id) {
            let text = if str_trim(title).as_str().is_empty() {
                "（無標題）".to_owned()
            } else {
                title.to_owned()
            };
            let old_tab = self.tabs.remove(i);
            let tab = Tab { id: old_tab.id, title: text, url: old_tab.url };
            self.tabs.insert(i, tab);
            proof {
                assert forall|k: int| 0 <= k < before.len() && k != i implies before[k].0 != id by {
                    if before[k].0 == id {
                        if k < i { assert(before[k].0 < before[i as int].0); } else { assert(before[i as int].0 < before[k].0); }
                    }
                }
                assert(self@.0 =~= before.update(i as int, (id, text@, before[i as int].2)));
                assert(tab_ids(self@.0) =~= tab_ids(before));
            }
        } else {
            proof {
                assert forall|k: int| 0 <= k < before.len() implies before[k].0 != id by {
                    assert(tab_ids(before)[k] == before[k].0);
                }
            }
        }
    }

    /// Record where a tab has got to; returns whether it is the active tab,
    /// whose address the address bar then shows. `about:blank`, a tab that has
    /// not loaded anything yet, is ignored.
    pub fn tab_loaded(&mut self, id: u64, url: &str) -> (r: bool)
        requires
            tabs_wf(old(self)@),
        ensures
            tabs_wf(final(self)@),
            url@ == "about:blank"@ ==> !r && final(self)@ == old(self)@,
            url@ != "about:blank"@ ==> r == (old(self)@.1 == id),
            final(self)@.1 == old(self)@.1 && final(self)@.2 == old(self)@.2 && final(self)@.3 == old(self)@.3,
            tab_ids(final(self)@.0) == tab_ids(old(self)@.0),
            final(self).seed() == old(self).seed(),
            final(self).tidy_state() == old(self).tidy_state(),
    {
        if str_eq(url, "about:blank") {
            return false;
        }
        let ghost before = self@.0;
        if let Some(i) = self.position(id) {
            let old_tab = self.tabs.remove(i);
            let tab = Tab { id: old_tab.id, title: old_tab.title, url: url.to_owned() };
            self.tabs.insert(i, tab);
            proof {
                assert(self@.0 =~= before.update(i as int, (id, before[i as int].1, url@)));
                assert(tab_ids(self@.0) =~= tab_ids(before));
            }
        }
        self.active == id
    }

    /// What the tab strip shows: each tab's id, title and whether it is active.
    pub fn entries(&self) -> (r: Vec<(u64, String, bool)>)
        ensures
            r.deep_view() == self@.0.map_values(|t: (u64, Seq<char>, Seq<char>)| (t.0, t.1, t.0 == self@.1)),
    {
        let mut out: Vec<(u64, String, bool)> = Vec::new();
        let mut i: usize = 0;
        while i < self.tabs.len()
            invariant
                i <= self.tabs@.len(),
                out@.len() == i,
                out.deep_view() == self@.0.map_values(|t: (u64, Seq<char>, Seq<char>)| (t.0, t.1, t.0 == self@.1)).take(i as int),
            decreases self.tabs@.len() - i,
        {
            let t = &self.tabs[i];
            let e = (t.id, t.title.clone(), t.id == self.active);
            assert(self@.0[i as int] == (t.id, t.title@, t.url@));
            out.push(e);
            i = i + 1;
            assert(out.deep_view() =~= self@.0.map_values(|t: (u64, Seq<char>, Seq<char>)| (t.0, t.1, t.0 == self@.1)).take(i as int));
        }
        assert(self@.0.map_values(|t: (u64, Seq<char>, Seq<char>)| (t.0, t.1, t.0 == self@.1)).take(self.tabs@.len() as int)
            =~= self@.0.map_values(|t: (u64, Seq<char>, Seq<char>)| (t.0, t.1, t.0 == self@.1)));
        out
    }
}

/// Dropping the one tab with id `id` from a list of distinct ids is
/// filtering the id out.
proof fn lemma_filter_drops_one(tabs: Seq<(u64, Seq<char>, Seq<char>)>, p: int, id: u64)
    requires
        0 <= p < tabs.len(),
        tabs[p].0 == id,
        forall|i: int, j: int| 0 <= i < j < tabs.len() ==> (#[trigger] tabs[i]).0 < (#[trigger] tabs[j]).0,
    ensures
        tabs.remove(p) == tabs.filter(|t: (u64, Seq<char>, Seq<char>)| t.0 != id),
    decreases tabs.len(),
{
    reveal(Seq::filter);
    let f = |t: (u64, Seq<char>, Seq<char>)| t.0 != id;
    if p == tabs.len() - 1 {
        assert(tabs.remove(p) =~= tabs.drop_last());
        assert forall|k: int| 0 <= k < tabs.drop_last().len() implies f(#[trigger] tabs.drop_last()[k]) by {
            assert(tabs[k].0 < tabs[p].0);
        }
        lemma_filter_keeps_all(tabs.drop_last(), f);
    } else {
        let rest = tabs.drop_last();
        assert forall|i: int, j: int| 0 <= i < j < rest.len() implies (#[trigger] rest[i]).0 < (#[trigger] rest[j]).0 by {
            assert(rest[i] == tabs[i] && rest[j] == tabs[j]);
        }
        lemma_filter_drops_one(rest, p, id);
        assert(tabs.last().0 > id);
        assert(tabs.remove(p) =~= rest.remove(p).push(tabs.last()));
    }
}

proof fn lemma_filter_keeps_all(s: Seq<(u64, Seq<char>, Seq<char>)>, f: spec_fn((u64, Seq<char>, Seq<char>)) -> bool)
    requires
        forall|k: int| 0 <= k < s.len() ==> f(#[trigger] s[k]),
    ensures
        s.filter(f) == s,
    decreases s.len(),
{
    reveal(Seq::filter);
    if s.len() > 0 {
        lemma_filter_keeps_all(s.drop_last(), f);
        assert(s.drop_last().push(s.last()) =~= s);
    }
}

/// A tab strip built by these operations never shows an id twice.
pub proof fn law_tab_ids_unique(v: (Seq<(u64, Seq<char>, Seq<char>)>, u64, u64, u64))
    requires
        tabs_wf(v),
    ensures
        tab_ids(v.0).no_duplicates(),
{
    assert forall|i: int, j: int| 0 <= i < tab_ids(v.0).len() && 0 <= j < tab_ids(v.0).len() && i != j implies tab_ids(v.0)[i] != tab_ids(v.0)[j] by {
        if i < j {
            assert(v.0[i].0 < v.0[j].0);
        } else {
            assert(v.0[j].0 < v.0[i].0);
        }
    }
}

/// `Url::parse(text)`: the scheme and the serialized address, or `None`
/// when `text` is not an address.
pub uninterp spec fn url_parse_spec(text: Seq<char>) -> Option<(Seq<char>, Seq<char>)>;

/// `url::Url::parse` (what `str::parse::<Url>` calls), read as its scheme and
/// serialization; the scheme is the part of the serialization before its
/// first `:`.
#[verifier::external_body]
fn parse_url(text: &str) -> (r: Option<(String, String)>)
    ensures
        r.deep_view() == url_parse_spec(text@),
        r matches Some((scheme, url)) ==> starts_with(url@, scheme@ + seq![':']),
{
    url::Url::parse(text).ok().map(|u| (u.scheme().to_owned(), u.as_str().to_owned()))
}

/// Bytes `form_urlencoded` leaves as they are.
pub open spec fn form_unchanged(b: u8) -> bool {
    b == 42 || b == 45 || b == 46 || (48 <= b <= 57) || (65 <= b <= 90) || b == 95 || (97 <= b <= 122)
}

/// `form_urlencoded::byte_serialize`: letters, digits and `*-._` kept, a
/// space written `+`, every other byte `%XX`.
pub open spec fn form_bytes(bs: Seq<u8>) -> Seq<char>
    decreases bs.len(),
{
    if bs.len() == 0 {
        Seq::empty()
    } else {
        form_bytes(bs.drop_last()) + if form_unchanged(bs.last()) {
            seq![bs.last() as char]
        } else if bs.last() == 32 {
            seq!['+']
        } else {
            percent(bs.last())
        }
    }
}

/// The Google search for `query`.
pub open spec fn search_url_spec(query: Seq<char>) -> Seq<char> {
    "https://www.google.com/search?q="@ + form_bytes(encode_utf8(query))
}

/// `Url::query_pairs_mut().append_pair("q", query)` on the Google search
/// address, serialized: the query's UTF-8 bytes form-encoded after `?q=`.
#[verifier::external_body]
fn google_search(query: &str) -> (r: String)
    ensures
        r@ == search_url_spec(query@),
{
    let mut url = url::Url::parse("https://www.google.com/search").expect("google search base url is valid");
    url.query_pairs_mut().append_pair("q", query);
    url.as_str().to_owned()
}

/// Wrap search words into a Google query address.
pub fn search_url(query: &str) -> (r: String)
    ensures
        r@ == search_url_spec(query@),
{
    google_search(query)
}

/// What the address bar makes of `input` (trimmed): an address when it
/// reads as an http(s) one or as a bare host, else a Google search for it.
/// Only ever an http(s) address or a search: `file:` and `javascript:` input
/// becomes a search for that text.
pub open spec fn normalize_url_spec(input: Seq<char>) -> Result<Seq<char>, Seq<char>> {
    let raw = crate::text::trim(input);
    if raw.len() == 0 {
        Err("請輸入網址或搜尋字詞"@)
    } else if starts_with(raw, "http://"@) || starts_with(raw, "https://"@) {
        match url_parse_spec(raw) {
            Some((scheme, s)) => if scheme == "http"@ || scheme == "https"@ {
                Ok(s)
            } else {
                Ok(search_url_spec(raw))
            },
            None => Ok(search_url_spec(raw)),
        }
    } else if contains(raw, "."@) && !contains(raw, " "@) && !contains(raw, ":"@) {
        match url_parse_spec("https://"@ + raw) {
            Some((_, s)) => Ok(s),
            None => Ok(search_url_spec(raw)),
        }
    } else {
        Ok(search_url_spec(raw))
    }
}

/// A bare host typed into the address bar is opened over https, whatever
/// path follows it: text (trimmed) with a `.`, no space and no `:` that
/// reads as an address once `https://` is put before it opens that address,
/// not a search.
pub proof fn law_bare_host_opens_over_https(input: Seq<char>)
    ensures
        ({
            let raw = crate::text::trim(input);
            contains(raw, "."@) && !contains(raw, " "@) && !contains(raw, ":"@) ==> match url_parse_spec(
                "https://"@ + raw,
            ) {
                Some((_, u)) => normalize_url_spec(input) == Ok::<Seq<char>, Seq<char>>(u),
                None => normalize_url_spec(input) == Ok::<Seq<char>, Seq<char>>(search_url_spec(raw)),
            }
        }),
{
    let raw = crate::text::trim(input);
    if contains(raw, "."@) && !contains(raw, " "@) && !contains(raw, ":"@) {
        reveal_strlit("http://");
        reveal_strlit("https://");
        reveal_strlit(":");
        reveal_strlit(".");
        assert(raw.len() > 0) by {
            let i = choose|i: int| occurs_at(raw, "."@, i);
        }
        if starts_with(raw, "http://"@) {
            assert(raw.take(7)[4] == "http://"@[4]);
            assert(raw[4] == ':');
            assert(raw.subrange(4, 5) =~= ":"@);
            assert(occurs_at(raw, ":"@, 4));
        }
        if starts_with(raw, "https://"@) {
            assert(raw.take(8)[5] == "https://"@[5]);
            assert(raw[5] == ':');
            assert(raw.subrange(5, 6) =~= ":"@);
            assert(occurs_at(raw, ":"@, 5));
        }
    }
}

/// Turn what was typed into the address bar into an address to open.
pub fn normalize_url(input: &str) -> (r: Result<String, String>)
    ensures
        match (r, normalize_url_spec(input@)) {
            (Ok(a), Ok(b)) => a@ == b,
            (Err(a), Err(b)) => a@ == b,
            _ => false,
        },
{
    let raw = str_trim(input);
    let raw = raw.as_str();
    if raw.is_empty() {
        return Err("請輸入網址或搜尋字詞".to_owned());
    }
    if str_starts_with(raw, "http://") || str_starts_with(raw, "https://") {
        if let Some((scheme, s)) = parse_url(raw) {
            if str_eq(scheme.as_str(), "http") || str_eq(scheme.as_str(), "https") {
                return Ok(s);
            }
        }
        return Ok(search_url(raw));
    }
    if str_contains(raw, ".") && !str_contains(raw, " ") && !str_contains(raw, ":") {
        if let Some((_, s)) = parse_url(concat("https://", raw).as_str()) {
            return Ok(s);
        }
    }
    Ok(search_url(raw))
}

} // verus!
