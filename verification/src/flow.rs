//! The app's own rules between a command and the beanfun calls: the
//! password login's steps and the inputs it accepts from the page.
use crate::beanfun::types::LoginStep;
use crate::text::{starts_with, str_starts_with, str_trim, trim};
use vstd::prelude::*;

verus! {

/// Which request a password login is waiting to (re)send.
#[derive(Debug, Clone, Copy, PartialEq, Eq)]
pub enum PasswordStage {
    AccountType,
    AccountLogin,
}

/// What the password login does after a step's answer.
#[derive(Debug, Clone, PartialEq, Eq)]
pub enum PasswordFlow {
    /// Send the next request.
    Next(PasswordStage),
    /// Both steps accepted: finish the login.
    Finish,
    /// Park the login until a reCAPTCHA token comes; the same step is resent.
    Captcha,
    /// Refused with a message for the user.
    Rejected(String),
    /// The user must scan a QR code instead; the message says why.
    UseQr(String),
}

/// The next move of the password login, from a step's answer.
pub fn password_flow(step: LoginStep, stage: PasswordStage) -> (r: PasswordFlow)
    ensures
        match step {
            LoginStep::Proceed => match stage {
                PasswordStage::AccountType => r == PasswordFlow::Next(PasswordStage::AccountLogin),
                PasswordStage::AccountLogin => r == PasswordFlow::Finish,
            },
            LoginStep::CaptchaRequired => r == PasswordFlow::Captcha,
            LoginStep::Rejected(m) => r == PasswordFlow::Rejected(m),
            LoginStep::UseQr(m) => r == PasswordFlow::UseQr(m),
        },
{
    match (step, stage) {
        (LoginStep::Proceed, PasswordStage::AccountType) => PasswordFlow::Next(PasswordStage::AccountLogin),
        (LoginStep::Proceed, PasswordStage::AccountLogin) => PasswordFlow::Finish,
        (LoginStep::CaptchaRequired, _) => PasswordFlow::Captcha,
        (LoginStep::Rejected(m), _) => PasswordFlow::Rejected(m),
        (LoginStep::UseQr(m), _) => PasswordFlow::UseQr(m),
    }
}

/// A shared launch key, trimmed: only a `gamaniagames://` link is taken, so
/// clipboard content can never be opened as something else.
pub fn check_launch_key(uri: &str) -> (r: Result<String, String>)
    ensures
        starts_with(trim(uri@), "gamaniagames://"@) ==> (r matches Ok(u) && u@ == trim(uri@)),
        !starts_with(trim(uri@), "gamaniagames://"@) ==> (r matches Err(m) && m@ == "剪貼簿內容不是有效的登入金鑰"@),
{
    let u = str_trim(uri);
    if !str_starts_with(u.as_str(), "gamaniagames://") {
        return Err("剪貼簿內容不是有效的登入金鑰".to_owned());
    }
    Ok(u)
}

/// An address to open in the default browser, trimmed: http(s) only, never
/// a local file or another protocol.
pub fn check_web_url(url: &str) -> (r: Result<String, String>)
    ensures
        (starts_with(trim(url@), "https://"@) || starts_with(trim(url@), "http://"@)) ==> (r matches Ok(u)
            && u@ == trim(url@)),
        !(starts_with(trim(url@), "https://"@) || starts_with(trim(url@), "http://"@)) ==> (r matches Err(m)
            && m@ == "僅允許 http(s) 連結"@),
{
    let u = str_trim(url);
    if !(str_starts_with(u.as_str(), "https://") || str_starts_with(u.as_str(), "http://")) {
        return Err("僅允許 http(s) 連結".to_owned());
    }
    Ok(u)
}

/// The login page's reCAPTCHA key; a login without one cannot be solved here.
pub fn require_site_key(site_key: &str) -> (r: Result<(), String>)
    ensures
        site_key@.len() == 0 <==> r is Err,
        r matches Err(m) ==> m@ == "beanfun 沒有提供驗證金鑰，請改用 QR 登入"@,
{
    if site_key.is_empty() {
        return Err("beanfun 沒有提供驗證金鑰，請改用 QR 登入".to_owned());
    }
    Ok(())
}

/// Whole percent of a download, 0 while the length is unknown.
pub fn progress_percent(done: u64, total: u64) -> (r: u64)
    requires
        done <= u64::MAX / 100,
    ensures
        total == 0 ==> r == 0,
        total > 0 ==> r as int == (done as int * 100) / (total as int),
{
    if total > 0 {
        done * 100 / total
    } else {
        0
    }
}

} // verus!
