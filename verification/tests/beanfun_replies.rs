use kz_login::beanfun::login::{read_account_login, read_account_type, read_gamapass_url};
use kz_login::beanfun::session::{classify, read_token_check};
use kz_login::beanfun::types::{BeanfunError, LoginStep, SessionState};
use kz_login::text::clip;

/// The three replies the live endpoint actually returns.
#[test]
fn reads_beanfuns_verdict() {
    assert_eq!(
        read_token_check(r#"{"intResult": 1, "strResult": "", "strAuthKey": "abc"}"#),
        SessionState::Alive
    );
    assert_eq!(
        read_token_check(r#"{"intResult": 0, "strResult": "Token is not a existence(RememberFlag)", "strAuthKey": ""}"#),
        SessionState::Expired
    );
}

/// Anything not recognised must not log anyone out.
#[test]
fn an_unreadable_reply_is_never_a_logout() {
    for body in ["", "<html>maintenance</html>", r#"{"intResult": 9}"#] {
        assert_eq!(read_token_check(body), SessionState::Unknown);
    }
}

/// The zeroes that are about the request, not the user's session.
#[test]
fn a_zero_that_blames_our_own_request_is_not_a_logout() {
    assert_eq!(
        read_token_check(r#"{"intResult": 0, "strResult": "Token value error", "strAuthKey": ""}"#),
        SessionState::Unknown
    );
    assert_eq!(
        read_token_check(r#"{"intResult": 0, "strResult": "Session key dose not match.", "strAuthKey": ""}"#),
        SessionState::Unknown
    );
    assert_eq!(
        read_token_check(r#"{"intResult": 0, "strResult": "No Session Data.", "strAuthKey": ""}"#),
        SessionState::Unknown
    );
}

#[test]
fn a_verdict_with_a_text_that_is_not_a_string_is_unknown() {
    assert_eq!(read_token_check(r#"{"intResult": 1, "strResult": 5}"#), SessionState::Unknown);
    assert_eq!(read_token_check(r#"{"intResult": 1}"#), SessionState::Alive);
    assert_eq!(read_token_check(r#"{"intResult": "1"}"#), SessionState::Unknown);
}

/// Byte 200 of a Chinese error page lands inside a 3-byte character.
#[test]
fn clip_never_splits_a_character() {
    let page = "登入逾時，請重新登入。".repeat(100);
    assert_eq!(clip(&page, 200).chars().count(), 200);
    assert!(page.starts_with(&clip(&page, 200)));
}

#[test]
fn the_gamapass_url_comes_from_the_reply() {
    assert_eq!(
        read_gamapass_url(r#"{"ResultData":"https://accounts.gamania.com/login?x=1","ResultCode":1,"ResultMessage":""}"#).unwrap(),
        "https://accounts.gamania.com/login?x=1"
    );
}

#[test]
fn a_refusal_carries_beanfuns_own_words() {
    let err = read_gamapass_url(r#"{"ResultData":null,"ResultCode":0,"ResultMessage":"暫停服務"}"#).unwrap_err();
    assert!(err.to_string().contains("暫停服務"), "{:?}", err);
}

#[test]
fn anything_that_is_not_an_https_address_is_refused() {
    assert!(read_gamapass_url(r#"{"ResultData":{"url":"x"},"ResultCode":1,"ResultMessage":""}"#).is_err());
    assert!(read_gamapass_url(r#"{"ResultData":"javascript:alert(1)","ResultCode":1,"ResultMessage":""}"#).is_err());
}

#[test]
fn a_refusal_without_words_gets_ours() {
    let err = read_gamapass_url(r#"{"ResultData":null,"ResultCode":0,"ResultMessage":"  "}"#).unwrap_err();
    assert_eq!(err.to_string(), "Parse error: beanfun 沒有給 GamaPass 登入網址");
    let err = read_gamapass_url(r#"{"ResultData":"http://x","ResultCode":1,"ResultMessage":""}"#).unwrap_err();
    assert_eq!(err.to_string(), "Parse error: GamaPass 登入網址格式不對");
}

const ACCOUNT_TYPE_NEEDS_CAPTCHA: &str = r#"{"ResultData":{"IsGamaPass":false,"GamaPassUrl":null},"Result":0,"ResultCode":0,"ResultMessage":"請點選「我不是機器人」！"}"#;
const ACCOUNT_LOGIN_NEEDS_CAPTCHA: &str = r#"{"ResultData":{"IsRecaptcha":true},"Result":0,"ResultCode":0,"ResultMessage":"請點選「我不是機器人」！"}"#;

#[test]
fn account_type_reads_each_branch() {
    assert_eq!(read_account_type(ACCOUNT_TYPE_NEEDS_CAPTCHA).unwrap(), LoginStep::CaptchaRequired);
    assert_eq!(
        read_account_type(r#"{"ResultData":{"IsGamaPass":false},"Result":0,"ResultCode":1,"ResultMessage":"Success"}"#).unwrap(),
        LoginStep::Proceed
    );
    assert!(matches!(
        read_account_type(r#"{"ResultData":{"IsGamaPass":false},"Result":2,"ResultCode":1,"ResultMessage":"Success"}"#).unwrap(),
        LoginStep::UseQr(_)
    ));
    assert!(matches!(
        read_account_type(r#"{"ResultData":{"IsGamaPass":true,"GamaPassUrl":"https://x"},"Result":0,"ResultCode":1,"ResultMessage":"Success"}"#).unwrap(),
        LoginStep::UseQr(_)
    ));
    assert_eq!(
        read_account_type(r#"{"ResultData":null,"Result":0,"ResultCode":0,"ResultMessage":"帳號格式錯誤"}"#).unwrap(),
        LoginStep::Rejected("帳號格式錯誤".into())
    );
    assert_eq!(
        read_account_type(r#"{"ResultData":null,"Result":0,"ResultCode":-1,"ResultMessage":"系統忙碌中"}"#).unwrap(),
        LoginStep::Rejected("系統忙碌中".into())
    );
}

#[test]
fn use_qr_keeps_readable_beanfun_messages_only() {
    assert_eq!(
        read_account_type(r#"{"ResultData":{"IsGamaPass":false},"Result":2,"ResultCode":1,"ResultMessage":"請輸入動態密碼"}"#).unwrap(),
        LoginStep::UseQr("此帳號使用動態密碼（OTP）：請輸入動態密碼".into())
    );
    assert_eq!(
        read_account_login(r#"{"ResultData":null,"Result":0,"ResultCode":2,"ResultMessage":"AccountLock"}"#).unwrap(),
        LoginStep::UseQr("帳號已被鎖定".into())
    );
}

#[test]
fn account_login_reads_each_branch() {
    assert_eq!(read_account_login(ACCOUNT_LOGIN_NEEDS_CAPTCHA).unwrap(), LoginStep::CaptchaRequired);
    assert_eq!(
        read_account_login(r#"{"ResultData":null,"Result":0,"ResultCode":0,"ResultMessage":"請點選「我不是機器人」！"}"#).unwrap(),
        LoginStep::CaptchaRequired
    );
    assert_eq!(
        read_account_login(r#"{"ResultData":{"IsRecaptcha":false},"Result":1,"ResultCode":0,"ResultMessage":"帳號或密碼錯誤"}"#).unwrap(),
        LoginStep::Rejected("帳號或密碼錯誤".into())
    );
    assert_eq!(
        read_account_login(r#"{"ResultData":null,"Result":0,"ResultCode":1,"ResultMessage":"Success"}"#).unwrap(),
        LoginStep::Proceed
    );
    assert!(matches!(
        read_account_login(r#"{"ResultData":null,"Result":0,"ResultCode":2,"ResultMessage":"AccountLock"}"#).unwrap(),
        LoginStep::UseQr(_)
    ));
    match read_account_login(r#"{"ResultData":null,"Result":0,"ResultCode":2,"ResultMessage":"https://login.beanfun.com/Advance"}"#).unwrap() {
        LoginStep::UseQr(msg) => assert!(!msg.contains("http")),
        other => panic!("expected UseQr, got {other:?}"),
    }
}

#[test]
fn an_unreadable_login_reply_is_an_error() {
    for body in ["", "<html>maintenance</html>", r#"{"ResultMessage":"no code"}"#] {
        assert!(read_account_type(body).is_err(), "{body}");
        assert!(read_account_login(body).is_err(), "{body}");
    }
    assert!(read_account_login(r#"{"ResultCode":9,"ResultMessage":"?"}"#).is_err());
}

#[test]
fn an_empty_refusal_reads_as_a_failed_login() {
    assert_eq!(
        read_account_login(r#"{"ResultCode":0,"ResultMessage":""}"#).unwrap(),
        LoginStep::Rejected("登入失敗".into())
    );
}

#[test]
fn clip_keeps_short_input_whole() {
    assert_eq!(clip("abc", 200), "abc");
    assert_eq!(clip("", 200), "");
}

#[test]
fn only_the_portal_saying_so_makes_a_failure_a_logout() {
    let e = classify(SessionState::Expired, BeanfunError::Parse("x".into()));
    assert_eq!(e.to_string(), "SESSION_EXPIRED");
    let e = classify(SessionState::Unknown, BeanfunError::Parse("x".into()));
    assert_eq!(e.to_string(), "Parse error: x");
    let e = classify(SessionState::Alive, BeanfunError::Network("down".into()));
    assert_eq!(e.to_string(), "Network error: down");
}

#[test]
fn a_token_check_may_come_as_an_array_in_field_order() {
    assert_eq!(read_token_check("[1]"), SessionState::Alive);
    assert_eq!(read_token_check(r#"[0, "Token is not a existence(RememberFlag)"]"#), SessionState::Expired);
    assert_eq!(read_token_check(r#"[0, "No Session Data."]"#), SessionState::Unknown);
    assert_eq!(read_token_check("[]"), SessionState::Unknown);
    assert_eq!(read_token_check(r#"[1, "", 3]"#), SessionState::Unknown);
}
