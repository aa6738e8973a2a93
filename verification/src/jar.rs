//! The login session's cookie jar (`cookie_store::CookieStore`), read as
//! plain values.
use cookie_store::CookieDomain as D;
use vstd::multiset::Multiset;
use vstd::prelude::*;

verus! {

/// The jar type of the `cookie_store` crate.
#[verifier::external_type_specification]
#[verifier::external_body]
pub struct ExCookieStore(cookie_store::CookieStore);

/// Which hosts a stored cookie belongs to (`cookie_store::CookieDomain`).
#[derive(Debug, Clone, PartialEq, Eq)]
pub enum JarDomain {
    /// Only the host that set it.
    HostOnly(String),
    /// That domain and its subdomains.
    Suffix(String),
    /// No domain recorded yet.
    NotPresent,
    /// An empty `Domain` attribute.
    Empty,
}

/// [`JarDomain`] with its text as a character sequence.
pub enum DomainModel {
    HostOnly(Seq<char>),
    Suffix(Seq<char>),
    NotPresent,
    Empty,
}

impl View for JarDomain {
    type V = DomainModel;

    open spec fn view(&self) -> DomainModel {
        match self {
            JarDomain::HostOnly(h) => DomainModel::HostOnly(h@),
            JarDomain::Suffix(s) => DomainModel::Suffix(s@),
            JarDomain::NotPresent => DomainModel::NotPresent,
            JarDomain::Empty => DomainModel::Empty,
        }
    }
}

/// One stored cookie, as plain values. `secure` and `http_only` are `None`
/// when the `Set-Cookie` line did not mention the attribute.
#[derive(Debug, Clone, PartialEq, Eq)]
pub struct JarEntry {
    pub name: String,
    pub value: String,
    pub domain: JarDomain,
    pub path: String,
    pub secure: Option<bool>,
    pub http_only: Option<bool>,
}

impl View for JarEntry {
    type V = (Seq<char>, Seq<char>, DomainModel, Seq<char>, Option<bool>, Option<bool>);

    open spec fn view(&self) -> (Seq<char>, Seq<char>, DomainModel, Seq<char>, Option<bool>, Option<bool>) {
        (self.name@, self.value@, self.domain@, self.path@, self.secure, self.http_only)
    }
}

/// Every cookie the jar holds, expired ones included.
pub uninterp spec fn jar_contents(store: cookie_store::CookieStore) -> Multiset<(Seq<char>, Seq<char>, DomainModel, Seq<char>, Option<bool>, Option<bool>)>;

/// The cookies of the jar that last until the end of the session: those
/// stored without an expiry time (`CookieExpiration::SessionEnd`).
pub uninterp spec fn jar_session_cookies(store: cookie_store::CookieStore) -> Multiset<(Seq<char>, Seq<char>, DomainModel, Seq<char>, Option<bool>, Option<bool>)>;

/// `CookieStore::iter_unexpired`: the cookies not expired at the moment of
/// the call. Each comes from the jar, once per time it is stored, and a
/// cookie without an expiry time is never expired, so every one of those is
/// among them. Whether a cookie with an expiry time is still there depends
/// on the clock, and is not stated.
#[verifier::external_body]
pub(crate) fn unexpired_cookies(store: &cookie_store::CookieStore) -> (r: Vec<JarEntry>)
    ensures
        r@.map_values(|e: JarEntry| e@).to_multiset().subset_of(jar_contents(*store)),
        jar_session_cookies(*store).subset_of(r@.map_values(|e: JarEntry| e@).to_multiset()),
{
    store.iter_unexpired().map(|c| JarEntry {
        name: c.name().to_owned(),
        value: c.value().to_owned(),
        domain: match &c.domain {
            D::HostOnly(h) => JarDomain::HostOnly(h.clone()),
            D::Suffix(s) => JarDomain::Suffix(s.clone()),
            D::NotPresent => JarDomain::NotPresent,
            D::Empty => JarDomain::Empty,
        },
        path: c.path.to_string(),
        secure: c.secure(),
        http_only: c.http_only(),
    }).collect()
}

} // verus!
