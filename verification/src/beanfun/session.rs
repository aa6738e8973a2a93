//! Whether a beanfun session is still logged in: the jar's web token and the
//! portal's verdict on it.
use crate::beanfun::types::{parse_error, BeanfunError, SessionState};
use crate::jar::{jar_contents, jar_session_cookies, unexpired_cookies, JarEntry};
use crate::json::{
    json_array, json_array_spec, json_i64, json_i64_spec, json_object, json_object_spec, json_str, json_str_spec, lookup,
    member,
};
use crate::text::{contains, eq_ignore_ascii_case, eq_ignore_case, str_contains, str_eq};
use vstd::prelude::*;

verus! {

/// The name of the cookie that carries the login.
pub open spec fn is_token_cookie(name: Seq<char>) -> bool {
    eq_ignore_case(name, "bfWebToken"@)
}

/// The value of the first web-token cookie of `es`.
pub open spec fn first_token(es: Seq<JarEntry>) -> Option<Seq<char>>
    decreases es.len(),
{
    if es.len() == 0 {
        None
    } else if is_token_cookie(es[0].name@) {
        Some(es[0].value@)
    } else {
        first_token(es.drop_first())
    }
}

/// Index of the first web-token cookie.
fn find_token(entries: &[JarEntry]) -> (r: Option<usize>)
    ensures
        match r {
            Some(i) => i < entries@.len() && is_token_cookie(entries@[i as int].name@)
                && first_token(entries@) == Some(entries@[i as int].value@),
            None => first_token(entries@) is None,
        },
{
    let mut i: usize = 0;
    assert(entries@.skip(0) =~= entries@);
    while i < entries.len()
        invariant
            i <= entries@.len(),
            first_token(entries@) == first_token(entries@.skip(i as int)),
        decreases entries@.len() - i,
    {
        assert(entries@.skip(i as int)[0] == entries@[i as int]);
        if eq_ignore_ascii_case(entries[i].name.as_str(), "bfWebToken") {
            return Some(i);
        }
        assert(entries@.skip(i as int).drop_first() =~= entries@.skip(i + 1));
        i = i + 1;
    }
    None
}

/// The value of the first web-token cookie among `entries`.
pub fn web_token_of(entries: &[JarEntry]) -> (r: Option<String>)
    ensures
        r.deep_view() == first_token(entries@),
{
    match find_token(entries) {
        Some(i) => Some(entries[i].value.clone()),
        None => None,
    }
}

/// A web-token cookie among `es` makes the first one found.
proof fn lemma_first_token_found(es: Seq<JarEntry>, i: int)
    requires
        0 <= i < es.len(),
        is_token_cookie(es[i].name@),
    ensures
        first_token(es) is Some,
    decreases es.len(),
{
    if !is_token_cookie(es[0].name@) {
        assert(es.drop_first()[i - 1] == es[i]);
        lemma_first_token_found(es.drop_first(), i - 1);
    }
}

/// The web token left in the jar once a login has gone through: a token the
/// jar holds under that name, found whenever a web-token cookie without an
/// expiry time is in the jar. Whether a token cookie with an expiry time is
/// still unexpired rests on the clock, and is not stated.
pub fn web_token_in(store: &cookie_store::CookieStore) -> (r: Result<String, BeanfunError>)
    ensures
        match r {
            Ok(t) => exists|e: (Seq<char>, Seq<char>, crate::jar::DomainModel, Seq<char>, Option<bool>, Option<bool>)|
                jar_contents(*store).count(e) > 0 && is_token_cookie(e.0) && e.1 == t@,
            Err(e) => parse_error(e, "bfWebToken not found in any cookie after finalize"@),
        },
        (exists|e: (Seq<char>, Seq<char>, crate::jar::DomainModel, Seq<char>, Option<bool>, Option<bool>)|
            jar_session_cookies(*store).count(e) > 0 && is_token_cookie(e.0)) ==> r is Ok,
{
    let entries = unexpired_cookies(store);
    proof {
        let views = entries@.map_values(|e: JarEntry| e@);
        views.to_multiset_ensures();
        if exists|e: (Seq<char>, Seq<char>, crate::jar::DomainModel, Seq<char>, Option<bool>, Option<bool>)|
            jar_session_cookies(*store).count(e) > 0 && is_token_cookie(e.0) {
            let e = choose|e: (Seq<char>, Seq<char>, crate::jar::DomainModel, Seq<char>, Option<bool>, Option<bool>)|
                jar_session_cookies(*store).count(e) > 0 && is_token_cookie(e.0);
            assert(views.to_multiset().count(e) > 0);
            assert(views.contains(e));
            let i = choose|i: int| 0 <= i < views.len() && views[i] == e;
            assert(views[i] == entries@[i]@);
            lemma_first_token_found(entries@, i);
        }
    }
    match find_token(entries.as_slice()) {
        Some(i) => {
            let token = entries[i].value.clone();
            proof {
                let views = entries@.map_values(|e: JarEntry| e@);
                views.to_multiset_ensures();
                assert(views[i as int] == entries@[i as int]@);
                assert(views.contains(views[i as int]));
                assert(jar_contents(*store).count(views[i as int]) > 0);
                assert(is_token_cookie(views[i as int].0) && views[i as int].1 == token@);
            }
            Ok(token)
        },
        None => Err(BeanfunError::Parse("bfWebToken not found in any cookie after finalize".to_owned())),
    }
}

/// Some web-token cookie of `es` holds exactly `token`.
pub open spec fn carries(es: Seq<JarEntry>, token: Seq<char>) -> bool {
    exists|i: int| 0 <= i < es.len() && is_token_cookie(#[trigger] es[i].name@) && es[i].value@ == token
}

/// Whether a web-token cookie among `entries` holds `token`.
pub fn carries_token(entries: &[JarEntry], token: &str) -> (r: bool)
    ensures
        r == carries(entries@, token@),
{
    let mut i: usize = 0;
    while i < entries.len()
        invariant
            i <= entries@.len(),
            forall|k: int| 0 <= k < i ==> !(is_token_cookie(#[trigger] entries@[k].name@) && entries@[k].value@ == token@),
        decreases entries@.len() - i,
    {
        if eq_ignore_ascii_case(entries[i].name.as_str(), "bfWebToken") && str_eq(entries[i].value.as_str(), token) {
            assert(is_token_cookie(entries@[i as int].name@) && entries@[i as int].value@ == token@);
            return true;
        }
        i = i + 1;
    }
    assert(!carries(entries@, token@));
    false
}

/// Whether the jar carries `token` as its web token, among its unexpired
/// cookies. A jar that carries another token settles nothing about this one.
/// It is true only of a token the jar holds, and always true of one held in
/// a cookie without an expiry time; whether a cookie with an expiry time
/// still counts depends on the clock, and is not stated.
pub fn jar_carries_token(store: &cookie_store::CookieStore, token: &str) -> (r: bool)
    ensures
        r ==> exists|e: (Seq<char>, Seq<char>, crate::jar::DomainModel, Seq<char>, Option<bool>, Option<bool>)|
            jar_contents(*store).count(e) > 0 && is_token_cookie(e.0) && e.1 == token@,
        (exists|e: (Seq<char>, Seq<char>, crate::jar::DomainModel, Seq<char>, Option<bool>, Option<bool>)|
            jar_session_cookies(*store).count(e) > 0 && is_token_cookie(e.0) && e.1 == token@) ==> r,
{
    let entries = unexpired_cookies(store);
    let r = carries_token(entries.as_slice(), token);
    proof {
        let views = entries@.map_values(|e: JarEntry| e@);
        views.to_multiset_ensures();
        if exists|e: (Seq<char>, Seq<char>, crate::jar::DomainModel, Seq<char>, Option<bool>, Option<bool>)|
            jar_session_cookies(*store).count(e) > 0 && is_token_cookie(e.0) && e.1 == token@ {
            let e = choose|e: (Seq<char>, Seq<char>, crate::jar::DomainModel, Seq<char>, Option<bool>, Option<bool>)|
                jar_session_cookies(*store).count(e) > 0 && is_token_cookie(e.0) && e.1 == token@;
            assert(views.to_multiset().count(e) > 0);
            assert(views.contains(e));
            let i = choose|i: int| 0 <= i < views.len() && views[i] == e;
            assert(views[i] == entries@[i]@);
            assert(is_token_cookie(entries@[i].name@) && entries@[i].value@ == token@);
            assert(carries(entries@, token@));
        }
        if r {
            let i = choose|i: int| 0 <= i < entries@.len() && is_token_cookie(#[trigger] entries@[i].name@) && entries@[i].value@ == token@;
            let views = entries@.map_values(|e: JarEntry| e@);
            views.to_multiset_ensures();
            assert(views[i] == entries@[i]@);
            assert(views.contains(views[i]));
            assert(jar_contents(*store).count(views[i]) > 0);
            assert(is_token_cookie(views[i].0) && views[i].1 == token@);
        }
    }
    r
}

/// The verdict on an `intResult` and a `strResult`: 1 is alive; 0 is a
/// logout only when the portal says it does not know the token ("not a
/// existence"): the other zeroes blame the request, not the user.
pub open spec fn token_verdict(n: i64, text: Seq<char>) -> SessionState {
    if n == 1 {
        SessionState::Alive
    } else if n == 0 && contains(text, "not a existence"@) {
        SessionState::Expired
    } else {
        SessionState::Unknown
    }
}

/// The verdict on a read `intResult` and a read `strResult`, `Unknown` when
/// either did not read.
pub open spec fn read_verdict(n: Option<i64>, text: Option<Seq<char>>) -> SessionState {
    match (n, text) {
        (Some(n), Some(t)) => token_verdict(n, t),
        _ => SessionState::Unknown,
    }
}

/// The portal's verdict on a token, from `check_token.ashx`'s reply read the
/// way a struct of `intResult` (an integer) and `strResult` (a string, empty
/// when absent) is read from JSON: as an object with those members, or as an
/// array of one or two elements in that order. Anything unreadable is
/// `Unknown`.
pub open spec fn token_check_spec(body: Seq<char>) -> SessionState {
    match json_object_spec(body) {
        Some(ms) => match lookup(ms, "intResult"@) {
            None => SessionState::Unknown,
            Some(raw) => read_verdict(json_i64_spec(raw), match lookup(ms, "strResult"@) {
                None => Some(Seq::<char>::empty()),
                Some(r) => json_str_spec(r),
            }),
        },
        None => match json_array_spec(body) {
            Some(es) => if 1 <= es.len() <= 2 {
                read_verdict(json_i64_spec(es[0]), if es.len() == 2 {
                    json_str_spec(es[1])
                } else {
                    Some(Seq::<char>::empty())
                })
            } else {
                SessionState::Unknown
            },
            None => SessionState::Unknown,
        },
    }
}

fn verdict_of(n: Option<i64>, text: Option<String>) -> (r: SessionState)
    ensures
        r == read_verdict(n, text.deep_view()),
{
    match (n, text) {
        (Some(n), Some(t)) => {
            if n == 1 {
                SessionState::Alive
            } else if n == 0 && str_contains(t.as_str(), "not a existence") {
                SessionState::Expired
            } else {
                SessionState::Unknown
            }
        },
        _ => SessionState::Unknown,
    }
}

/// Read the portal's verdict on a token out of `check_token.ashx`'s reply.
pub fn read_token_check(body: &str) -> (r: SessionState)
    ensures
        r == token_check_spec(body@),
{
    match json_object(body) {
        Some(members) => {
            let n = match member(&members, "intResult") {
                Some(raw) => json_i64(raw.as_str()),
                None => {
                    return SessionState::Unknown;
                },
            };
            let text = match member(&members, "strResult") {
                Some(raw) => json_str(raw.as_str()),
                None => Some(String::new()),
            };
            verdict_of(n, text)
        },
        None => match json_array(body) {
            Some(es) => {
                if es.len() >= 1 && es.len() <= 2 {
                    let n = json_i64(es[0].as_str());
                    let text = if es.len() == 2 {
                        json_str(es[1].as_str())
                    } else {
                        Some(String::new())
                    };
                    verdict_of(n, text)
                } else {
                    SessionState::Unknown
                }
            },
            None => SessionState::Unknown,
        },
    }
}

/// What the jar alone settles about a session, before the portal is asked:
/// a jar that does not carry the token asked about settles nothing
/// (`Some(Unknown)`, and no request is made); otherwise the portal is to be
/// asked (`None`). Like [`jar_carries_token`], it asks only of a token the
/// jar holds, and always of one in a cookie without an expiry time.
pub fn jar_verdict(store: &cookie_store::CookieStore, token: &str) -> (r: Option<SessionState>)
    ensures
        r is Some ==> r == Some(SessionState::Unknown),
        r is None ==> exists|e: (Seq<char>, Seq<char>, crate::jar::DomainModel, Seq<char>, Option<bool>, Option<bool>)|
            jar_contents(*store).count(e) > 0 && is_token_cookie(e.0) && e.1 == token@,
        (exists|e: (Seq<char>, Seq<char>, crate::jar::DomainModel, Seq<char>, Option<bool>, Option<bool>)|
            jar_session_cookies(*store).count(e) > 0 && is_token_cookie(e.0) && e.1 == token@) ==> r is None,
{
    if jar_carries_token(store, token) {
        None
    } else {
        Some(SessionState::Unknown)
    }
}

/// A failed launch step is reported as a logout only when the portal says so;
/// otherwise the step's own error stands.
pub fn classify(state: SessionState, fallback: BeanfunError) -> (r: BeanfunError)
    ensures
        state == SessionState::Expired ==> r == BeanfunError::SessionExpired,
        state != SessionState::Expired ==> r == fallback,
{
    match state {
        SessionState::Expired => BeanfunError::SessionExpired,
        _ => fallback,
    }
}

} // verus!
