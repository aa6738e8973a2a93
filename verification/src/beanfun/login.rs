//! Reading the login endpoints' replies.
use vstd::prelude::*;
use crate::beanfun::types::{parse_error, BeanfunError, LoginStep, StepModel};
use crate::json::{
    bool_field, field, get_bool, get_field, get_i64, get_str, i64_field, json_str, json_str_spec,
    json_valid, json_valid_spec, str_field,
};
use crate::text::{
    clip, clip_spec, concat, contains, push_str, starts_with, str_contains, str_eq,
    str_starts_with, str_trim, trim,
};

verus! {

/// A login endpoint's reply, as the login steps read it.
pub struct LoginReply {
    pub code: i64,
    pub result: i64,
    pub message: String,
    /// Raw JSON text of `ResultData`, when the reply has one.
    pub data: Option<String>,
}

/// [`LoginReply`] with its texts as character sequences.
pub struct ReplyModel {
    pub code: i64,
    pub result: i64,
    pub message: Seq<char>,
    pub data: Option<Seq<char>>,
}

impl View for LoginReply {
    type V = ReplyModel;

    open spec fn view(&self) -> ReplyModel {
        ReplyModel {
            code: self.code,
            result: self.result,
            message: self.message@,
            data: self.data.deep_view(),
        }
    }
}

/// How `body` reads as a login reply: its `ResultCode` is required, `Result`
/// defaults to 0 and `ResultMessage` to empty. `Err` holds the parse message.
pub open spec fn reply_model(body: Seq<char>) -> Result<ReplyModel, Seq<char>> {
    if !json_valid_spec(body) {
        Err("Login reply parse failed: "@ + clip_spec(body, 200))
    } else {
        match i64_field(body, "ResultCode"@) {
            None => Err("Login reply has no ResultCode: "@ + clip_spec(body, 200)),
            Some(code) => Ok(
                ReplyModel {
                    code,
                    result: match i64_field(body, "Result"@) {
                        Some(r) => r,
                        None => 0,
                    },
                    message: match str_field(body, "ResultMessage"@) {
                        Some(m) => m,
                        None => Seq::empty(),
                    },
                    data: field(body, "ResultData"@),
                },
            ),
        }
    }
}

/// `ResultData[key].as_bool()`.
pub open spec fn data_flag(data: Option<Seq<char>>, key: Seq<char>) -> Option<bool> {
    match data {
        Some(d) => bool_field(d, key),
        None => None,
    }
}

/// Read a login endpoint's reply.
pub fn read_login_reply(body: &str) -> (r: Result<LoginReply, BeanfunError>)
    ensures
        match (r, reply_model(body@)) {
            (Ok(reply), Ok(model)) => reply@ == model,
            (Err(e), Err(m)) => parse_error(e, m),
            _ => false,
        },
{
    if !json_valid(body) {
        let m = concat("Login reply parse failed: ", clip(body, 200).as_str());
        return Err(BeanfunError::Parse(m));
    }
    let code = match get_i64(body, "ResultCode") {
        Some(c) => c,
        None => {
            let m = concat("Login reply has no ResultCode: ", clip(body, 200).as_str());
            return Err(BeanfunError::Parse(m));
        },
    };
    let result = match get_i64(body, "Result") {
        Some(r) => r,
        None => 0,
    };
    let message = match get_str(body, "ResultMessage") {
        Some(m) => m,
        None => String::new(),
    };
    let data = get_field(body, "ResultData");
    Ok(LoginReply { code, result, message, data })
}

/// `ResultData[key].as_bool()` of a read reply.
fn data_flag_of(data: &Option<String>, key: &str) -> (r: Option<bool>)
    ensures
        r == data_flag(data.deep_view(), key@),
{
    match data {
        Some(d) => get_bool(d.as_str(), key),
        None => None,
    }
}

/// A refusal that is really a demand for reCAPTCHA: the flag is not on every
/// step's reply, but the message (「我不是機器人」) is.
pub open spec fn refusal_spec(r: ReplyModel) -> StepModel {
    if data_flag(r.data, "IsRecaptcha"@) == Some(true) || contains(r.message, "機器人"@) {
        StepModel::CaptchaRequired
    } else if r.message.len() == 0 {
        StepModel::Rejected("登入失敗"@)
    } else {
        StepModel::Rejected(r.message)
    }
}

fn refusal(reply: &LoginReply) -> (r: LoginStep)
    ensures
        r@ == refusal_spec(reply@),
{
    if data_flag_of(&reply.data, "IsRecaptcha") == Some(true) || str_contains(
        reply.message.as_str(),
        "機器人",
    ) {
        LoginStep::CaptchaRequired
    } else if reply.message.as_str().is_empty() {
        LoginStep::Rejected("登入失敗".to_owned())
    } else {
        LoginStep::Rejected(reply.message.clone())
    }
}

/// Our own reason for sending the user to QR, plus beanfun's message when it
/// is something a person can read rather than a status word or a URL.
pub open spec fn use_qr_spec(reason: Seq<char>, r: ReplyModel) -> StepModel {
    let m = trim(r.message);
    if m.len() > 0 && !vstd::utf8::is_ascii_chars(m) {
        StepModel::UseQr(reason + "："@ + m)
    } else {
        StepModel::UseQr(reason)
    }
}

fn use_qr(reason: &str, reply: &LoginReply) -> (r: LoginStep)
    ensures
        r@ == use_qr_spec(reason@, reply@),
{
    let m = str_trim(reply.message.as_str());
    if !m.as_str().is_empty() && !m.as_str().is_ascii() {
        let mut s = concat(reason, "：");
        push_str(&mut s, m.as_str());
        LoginStep::UseQr(s)
    } else {
        LoginStep::UseQr(reason.to_owned())
    }
}

/// `CheckAccountType`: unlike `AccountLogin` there is no third code, every
/// reply that is not 1 is a refusal.
pub open spec fn account_type_spec(r: ReplyModel) -> StepModel {
    if r.code == 1 {
        if data_flag(r.data, "IsGamaPass"@) == Some(true) {
            use_qr_spec("此帳號是 GamaPass 帳號"@, r)
        } else if r.result == 2 {
            use_qr_spec("此帳號使用動態密碼（OTP）"@, r)
        } else {
            StepModel::Proceed
        }
    } else {
        refusal_spec(r)
    }
}

/// `AccountLogin`: 0 refuses, 1 accepts, 2 needs the phone; anything else is
/// not a reply this step knows.
pub open spec fn account_login_spec(r: ReplyModel, body: Seq<char>) -> Result<StepModel, Seq<char>> {
    if r.code == 0 {
        Ok(refusal_spec(r))
    } else if r.code == 1 {
        Ok(StepModel::Proceed)
    } else if r.code == 2 {
        if r.message == "AccountLock"@ {
            Ok(use_qr_spec("帳號已被鎖定"@, r))
        } else {
            Ok(use_qr_spec("beanfun 要求進階驗證"@, r))
        }
    } else {
        Err("Unknown account login reply: "@ + clip_spec(body, 200))
    }
}

/// What `CheckAccountType` answered.
pub fn read_account_type(body: &str) -> (r: Result<LoginStep, BeanfunError>)
    ensures
        match (r, reply_model(body@)) {
            (Ok(step), Ok(model)) => step@ == account_type_spec(model),
            (Err(e), Err(m)) => parse_error(e, m),
            _ => false,
        },
{
    let reply = read_login_reply(body)?;
    if reply.code == 1 {
        if data_flag_of(&reply.data, "IsGamaPass") == Some(true) {
            Ok(use_qr("此帳號是 GamaPass 帳號", &reply))
        } else if reply.result == 2 {
            Ok(use_qr("此帳號使用動態密碼（OTP）", &reply))
        } else {
            Ok(LoginStep::Proceed)
        }
    } else {
        Ok(refusal(&reply))
    }
}

/// What `AccountLogin` answered.
pub fn read_account_login(body: &str) -> (r: Result<LoginStep, BeanfunError>)
    ensures
        match reply_model(body@) {
            Ok(model) => match (r, account_login_spec(model, body@)) {
                (Ok(step), Ok(s)) => step@ == s,
                (Err(e), Err(m)) => parse_error(e, m),
                _ => false,
            },
            Err(m) => r matches Err(e) && parse_error(e, m),
        },
{
    let reply = read_login_reply(body)?;
    if reply.code == 0 {
        Ok(refusal(&reply))
    } else if reply.code == 1 {
        Ok(LoginStep::Proceed)
    } else if reply.code == 2 {
        if str_eq(reply.message.as_str(), "AccountLock") {
            Ok(use_qr("帳號已被鎖定", &reply))
        } else {
            Ok(use_qr("beanfun 要求進階驗證", &reply))
        }
    } else {
        let m = concat("Unknown account login reply: ", clip(body, 200).as_str());
        Err(BeanfunError::Parse(m))
    }
}

/// The GamaPass entry point from `GoGamaPass`: only an `https://` address
/// that beanfun itself handed out is taken.
pub open spec fn gamapass_url_spec(r: ReplyModel) -> Result<Seq<char>, Seq<char>> {
    if r.code != 1 {
        let m = trim(r.message);
        if m.len() == 0 {
            Err("beanfun 沒有給 GamaPass 登入網址"@)
        } else {
            Err(m)
        }
    } else {
        match r.data {
            Some(d) => match json_str_spec(d) {
                Some(u) => if starts_with(u, "https://"@) {
                    Ok(u)
                } else {
                    Err("GamaPass 登入網址格式不對"@)
                },
                None => Err("GamaPass 登入網址格式不對"@),
            },
            None => Err("GamaPass 登入網址格式不對"@),
        }
    }
}

/// Read the `GoGamaPass` reply.
pub fn read_gamapass_url(body: &str) -> (r: Result<String, BeanfunError>)
    ensures
        match reply_model(body@) {
            Ok(model) => match (r, gamapass_url_spec(model)) {
                (Ok(u), Ok(s)) => u@ == s,
                (Err(e), Err(m)) => parse_error(e, m),
                _ => false,
            },
            Err(m) => r matches Err(e) && parse_error(e, m),
        },
{
    let reply = read_login_reply(body)?;
    if reply.code != 1 {
        let m = str_trim(reply.message.as_str());
        if m.as_str().is_empty() {
            return Err(BeanfunError::Parse("beanfun 沒有給 GamaPass 登入網址".to_owned()));
        } else {
            return Err(BeanfunError::Parse(m));
        }
    }
    let bad = "GamaPass 登入網址格式不對";
    match &reply.data {
        Some(d) => match json_str(d.as_str()) {
            Some(u) => if str_starts_with(u.as_str(), "https://") {
                Ok(u)
            } else {
                Err(BeanfunError::Parse(bad.to_owned()))
            },
            None => Err(BeanfunError::Parse(bad.to_owned())),
        },
        None => Err(BeanfunError::Parse(bad.to_owned())),
    }
}

} // verus!
