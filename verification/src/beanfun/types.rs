//! The values the beanfun flows hand around.
use vstd::prelude::*;

verus! {

/// Why a beanfun step failed.
#[derive(Debug, Clone)]
pub enum BeanfunError {
    /// The request never got an answer; the text says why.
    Network(String),
    /// An answer came back that could not be used.
    Parse(String),
    /// The session is gone and the user must log in again.
    SessionExpired,
}

impl BeanfunError {
    /// The message shown for this error.
    pub open spec fn message(self) -> Seq<char> {
        match self {
            BeanfunError::Network(m) => "Network error: "@ + m@,
            BeanfunError::Parse(m) => "Parse error: "@ + m@,
            BeanfunError::SessionExpired => "SESSION_EXPIRED"@,
        }
    }

    /// The message shown for this error; `SESSION_EXPIRED` is the literal the
    /// frontend switches on.
    pub fn to_string(&self) -> (r: String)
        ensures
            r@ == self.message(),
    {
        match self {
            BeanfunError::Network(m) => crate::text::concat("Network error: ", m.as_str()),
            BeanfunError::Parse(m) => crate::text::concat("Parse error: ", m.as_str()),
            BeanfunError::SessionExpired => "SESSION_EXPIRED".to_owned(),
        }
    }
}

/// `e` is a parse error carrying exactly `m`.
pub open spec fn parse_error(e: BeanfunError, m: Seq<char>) -> bool {
    e matches BeanfunError::Parse(s) && s@ == m
}

/// A game account on the portal.
#[derive(Debug, Clone, PartialEq, Eq)]
pub struct GameAccount {
    /// Serial number (`sotp` in the launch calls).
    pub sn: String,
    /// Account id (the row's `div id`).
    pub sid: String,
    /// Display name.
    pub sname: String,
}

impl View for GameAccount {
    type V = (Seq<char>, Seq<char>, Seq<char>);

    /// `(sn, sid, sname)`.
    open spec fn view(&self) -> (Seq<char>, Seq<char>, Seq<char>) {
        (self.sn@, self.sid@, self.sname@)
    }
}

/// What a QR login needs to show the code and poll for it.
#[derive(Debug, Clone)]
pub struct QrInit {
    pub skey: String,
    pub bitmap_base64: String,
    pub deeplink: Option<String>,
    pub verification_token: String,
}

/// What one poll of a QR login found.
#[derive(Debug, Clone, Copy, PartialEq, Eq)]
pub enum QrPollOutcome {
    Waiting,
    Expired,
    Approved,
}

/// The login page as both login methods need it: the anti-forgery token every
/// POST must echo back, and what `InitLogin` reports about this session.
#[derive(Debug, Clone)]
pub struct LoginPage {
    pub skey: String,
    pub verification_token: String,
    pub captcha_site_key: String,
    pub qr_image: Option<String>,
    pub deeplink: Option<String>,
}

/// What `Login/InitLogin` answers, as serde reads it into the reply's shape.
#[derive(Debug, Clone)]
pub struct InitLogin {
    pub result: Option<i64>,
    pub result_data: Option<InitData>,
}

/// The `ResultData` of `Login/InitLogin`.
#[derive(Debug, Clone)]
pub struct InitData {
    pub qr_image: Option<String>,
    pub deep_link: Option<String>,
    pub captcha_site_key: Option<String>,
}

/// What one step of the password login concluded.
#[derive(Debug, Clone, PartialEq, Eq)]
pub enum LoginStep {
    /// Accepted: go on to the next step.
    Proceed,
    /// beanfun wants a reCAPTCHA token before it will look at this step.
    CaptchaRequired,
    /// Refused with a message the user can act on here.
    Rejected(String),
    /// This account needs a flow not handled here; the user should scan a QR.
    UseQr(String),
}

/// [`LoginStep`] with its texts as character sequences.
pub enum StepModel {
    Proceed,
    CaptchaRequired,
    Rejected(Seq<char>),
    UseQr(Seq<char>),
}

impl View for LoginStep {
    type V = StepModel;

    open spec fn view(&self) -> StepModel {
        match self {
            LoginStep::Proceed => StepModel::Proceed,
            LoginStep::CaptchaRequired => StepModel::CaptchaRequired,
            LoginStep::Rejected(m) => StepModel::Rejected(m@),
            LoginStep::UseQr(m) => StepModel::UseQr(m@),
        }
    }
}

/// A game password, for one account.
#[derive(Debug, Clone, PartialEq, Eq)]
pub struct OtpResult {
    pub sid: String,
    pub otp: String,
}

/// Whether the installed game manager is behind the server's build.
#[derive(Debug, Clone, PartialEq, Eq)]
pub struct GgmUpdate {
    /// Locally installed version, or empty if it is not installed.
    pub current: String,
    /// Latest version the server offers.
    pub server: String,
    pub has_update: bool,
    /// Installer download URL.
    pub url: String,
}

/// Whether a newer release of this app is published.
#[derive(Debug, Clone, PartialEq, Eq)]
pub struct AppUpdate {
    /// Running version.
    pub current: String,
    /// Latest release tag with any leading `v` removed.
    pub latest: String,
    pub has_update: bool,
    /// Installer download URL.
    pub url: String,
    /// Bare executable download URL; empty when the release has none.
    pub exe_url: String,
    /// Release notes.
    pub notes: String,
}

/// What beanfun says about a session. A dropped connection and "you are
/// logged out" stay apart: only the second may cost the user a QR rescan.
#[derive(Debug, Clone, Copy, PartialEq, Eq)]
pub enum SessionState {
    Alive,
    Expired,
    Unknown,
}

} // verus!
