use cipher::{BlockEncrypt, KeyInit};
use kz_login::beanfun::otp::{
    blob_field, decrypt_blob, decrypt_envelope, launch_uri, launch_uri_fields, read_v2_reply,
    v2_request,
};
use kz_login::beanfun::pages::{
    extract_hidden_inputs, html_decode, login_index_url, login_page_from, parse_game_accounts,
    parse_m_objdata, qr_init_from, qr_outcome, session_key_from,
};
use kz_login::beanfun::types::{BeanfunError, InitData, InitLogin, LoginPage, QrPollOutcome};

fn des_encrypt(key: &[u8], plain: &[u8]) -> Vec<u8> {
    let des = des::Des::new(cipher::generic_array::GenericArray::from_slice(key));
    let mut out = Vec::new();
    for chunk in plain.chunks(8) {
        let mut b = cipher::generic_array::GenericArray::clone_from_slice(chunk);
        des.encrypt_block(&mut b);
        out.extend_from_slice(&b);
    }
    out
}

fn padded(text: &str) -> Vec<u8> {
    let mut v = text.as_bytes().to_vec();
    while v.len() % 8 != 0 {
        v.push(0);
    }
    v
}

const ALPHABETS: [&str; 4] = ["bac987d65e432f10", "3bc4d5e6f2a79108", "cdbeaf9012456378", "4e6fb81a3c5d7092"];

/// A launch blob the way the portal writes it: first digit `v`, then the
/// alphabet-substituted hex of the cipher with the key spliced in at `v + 1`.
fn make_blob(v: usize, key: &str, plain: &str) -> String {
    make_blob_of(v, key, &padded(plain))
}

/// [`make_blob`] of plaintext bytes already a whole number of blocks long.
fn make_blob_of(v: usize, key: &str, plain: &[u8]) -> String {
    let cipher_hex = hex::encode(des_encrypt(key.as_bytes(), plain));
    let off = v + 1;
    let decoded = format!("{}{}{}", &cipher_hex[..off], key, &cipher_hex[off..]);
    let alpha: Vec<char> = ALPHABETS[v % 4].chars().collect();
    let mut blob = std::char::from_digit(v as u32, 16).unwrap().to_string();
    for c in decoded.chars() {
        blob.push(alpha[c.to_digit(16).unwrap() as usize]);
    }
    blob
}

#[test]
fn entities_are_decoded() {
    assert_eq!(html_decode("a&amp;b&lt;c&gt;&quot;&apos;&nbsp;"), "a&b<c>\"'\u{a0}");
    assert_eq!(html_decode("&#20037;&#x4E16;"), "久世");
    assert_eq!(html_decode("plain"), "plain");
    // A number that is no character vanishes; an unknown name stays as it is.
    assert_eq!(html_decode("x&#xD800;y&copy;"), "xy&copy;");
}

#[test]
fn game_accounts_come_from_enabled_rows_only() {
    let html = [
        r#"<div id="T1" sn="111" name="&#x4E16;Main" class="x" onclick="GameAccount.ShowEditAcountDialog(1)">"#,
        r#"<div id="T2" sn="222" name="Off" onclick="">"#,
        r#"<div id="T3" sn="333" name="Alt&amp;Co" onclick="GameAccount.ShowEditAcountDialog(3)">"#,
    ]
    .concat();
    let accounts = parse_game_accounts(&html).unwrap();
    assert_eq!(accounts.len(), 2);
    assert_eq!((accounts[0].sn.as_str(), accounts[0].sid.as_str(), accounts[0].sname.as_str()), ("111", "T1", "世Main"));
    assert_eq!(accounts[1].sname, "Alt&Co");
    let err = parse_game_accounts("<html></html>").unwrap_err();
    assert_eq!(err.to_string(), "Parse error: No game accounts found");
}

#[test]
fn hidden_inputs_skip_submit_buttons() {
    let html = r#"<form><input type="hidden" name="a" value="1"><INPUT NAME='b' VALUE=''><input type="submit" name="go" value="Go"><input name="c"></form>"#;
    let fields = extract_hidden_inputs(html);
    assert_eq!(fields, vec![("a".to_string(), "1".to_string()), ("b".to_string(), String::new())]);
}

#[test]
fn launch_data_is_read_from_the_page() {
    let page = r#"var m_objData = { "region": "T9", "sn": "123", "data": "abcdef" };"#;
    assert_eq!(
        parse_m_objdata(page).unwrap(),
        ("T9".to_string(), "123".to_string(), "abcdef".to_string())
    );
    let err = parse_m_objdata(r#"{ "region": "T9", "sn": "", "data": "x" }"#).unwrap_err();
    assert_eq!(err.to_string(), "Parse error: 遊戲啟動頁沒有 m_objData（beanfun 可能改版）");
}

#[test]
fn the_session_key_comes_from_the_address_then_the_page() {
    assert_eq!(
        session_key_from("https://tw.newlogin.beanfun.com/checkin_step2.aspx?skey=ABC&x=1", "").unwrap(),
        "ABC"
    );
    assert_eq!(
        session_key_from("https://tw.beanfun.com/", r#"var strSessionKey = "XYZ";"#).unwrap(),
        "XYZ"
    );
    let err = session_key_from("https://tw.beanfun.com/", "nothing").unwrap_err();
    assert_eq!(err.to_string(), "Parse error: pSKey not found in redirect URL: https://tw.beanfun.com/");
}

fn init(result: Option<i64>, qr: Option<&str>) -> InitLogin {
    InitLogin {
        result,
        result_data: Some(InitData {
            qr_image: qr.map(str::to_owned),
            deep_link: Some(String::new()),
            captcha_site_key: Some("site".into()),
        }),
    }
}

#[test]
fn the_login_page_reads_its_token_and_init_reply() {
    let index = r#"<input name="__RequestVerificationToken" type="hidden" value="tok123" />"#;
    let page = login_page_from("SK", index, Ok(init(Some(0), Some("QRDATA")))).unwrap();
    assert_eq!(page.verification_token, "tok123");
    assert_eq!(page.captcha_site_key, "site");
    assert_eq!(page.qr_image.as_deref(), Some("QRDATA"));
    assert_eq!(page.deeplink, None);
    assert_eq!(page.url(), "https://login.beanfun.com/Login/Index?pSKey=SK");
    assert_eq!(login_index_url("SK"), page.url());

    let qr = qr_init_from(page).unwrap();
    assert_eq!(qr.bitmap_base64, "data:image/png;base64,QRDATA");

    let err = login_page_from("SK", "", Ok(init(Some(1), None))).unwrap_err();
    assert_eq!(err.to_string(), "Parse error: Login init result error");
    let err = login_page_from("SK", "", Ok(init(None, None))).unwrap_err();
    assert_eq!(err.to_string(), "Parse error: Login init result error");
    let err = login_page_from("SK", "", Ok(InitLogin { result: Some(0), result_data: None })).unwrap_err();
    assert_eq!(err.to_string(), "Parse error: No ResultData");
    let err = login_page_from("SK", "", Err("bad".into())).unwrap_err();
    assert_eq!(err.to_string(), "Parse error: Login init JSON parse failed: bad");

    let page = login_page_from("SK", "", Ok(init(Some(0), Some("")))).unwrap();
    assert_eq!(page.verification_token, "");
    assert_eq!(qr_init_from(page).unwrap_err().to_string(), "Parse error: QRImage empty");
}

#[test]
fn qr_polls_are_decided_by_their_message() {
    let m = |s: &str| Some(Some(s.to_string()));
    assert_eq!(qr_outcome(m("Failed"), "").unwrap(), QrPollOutcome::Waiting);
    assert_eq!(qr_outcome(m("Wait Login"), "").unwrap(), QrPollOutcome::Waiting);
    assert_eq!(qr_outcome(m("Token Expired"), "").unwrap(), QrPollOutcome::Expired);
    assert_eq!(qr_outcome(m("Success"), "").unwrap(), QrPollOutcome::Approved);
    assert_eq!(qr_outcome(m("Odd"), "").unwrap_err().to_string(), "Parse error: Unknown QR status: Some(\"Odd\")");
    assert_eq!(qr_outcome(Some(None), "").unwrap_err().to_string(), "Parse error: Unknown QR status: None");
    assert_eq!(qr_outcome(None, "<html>").unwrap_err().to_string(), "Parse error: QR poll JSON parse failed: <html>");
}

#[test]
fn a_launch_blob_decrypts_to_its_plaintext() {
    let plain = "LaunchTicket=T-42&&&&ServiceAccount=acct;tail";
    for v in [0usize, 1, 2, 3, 5] {
        let blob = make_blob(v, "0a1b2c3d", plain);
        assert_eq!(decrypt_blob(&blob).unwrap(), plain, "v={v}");
    }
    assert_eq!(blob_field(plain, "LaunchTicket").as_deref(), Some("T-42"));
    assert_eq!(blob_field(plain, "ServiceAccount").as_deref(), Some("acct"));
    assert_eq!(blob_field(plain, "tail"), None);
}

#[test]
fn a_launch_blob_is_read_as_utf8_with_only_trailing_nuls_trimmed() {
    let mut plain = b"\0Acct=".to_vec();
    plain.extend_from_slice("久世".as_bytes());
    plain.push(0xff);
    while plain.len() % 8 != 0 {
        plain.push(0);
    }
    let blob = make_blob_of(3, "0a1b2c3d", &plain);
    assert_eq!(decrypt_blob(&blob).unwrap(), "\0Acct=久世\u{fffd}");
}

#[test]
fn a_bad_blob_names_its_fault() {
    assert_eq!(decrypt_blob("").unwrap_err().to_string(), "Parse error: blob 為空");
    assert_eq!(decrypt_blob("zz").unwrap_err().to_string(), "Parse error: blob 首字非十六進位");
    assert_eq!(decrypt_blob("0x").unwrap_err().to_string(), "Parse error: blob 字元 'x' 不在 alphabet[0]");
    assert_eq!(decrypt_blob("0bac").unwrap_err().to_string(), "Parse error: blob 解碼結果過短");
}

#[test]
fn the_v2_request_carries_the_ticket_and_integrity() {
    let blob = make_blob(2, "00112233", "LaunchTicket=TK&&&&ServiceAccount=SA");
    let (account, req) = v2_request("SN1", &blob, Ok(("1.0".into(), "abc".into(), "x64".into()))).unwrap();
    assert_eq!(account, "SA");
    assert_eq!((req.sn.as_str(), req.launch_ticket.as_str(), req.cv.as_str(), req.hash.as_str(), req.arch.as_str()), ("SN1", "TK", "1.0", "abc", "x64"));
    let err = v2_request("SN1", &blob, Err(BeanfunError::Parse("找不到遊戲管理員（GGM），請先安裝".into()))).unwrap_err();
    assert_eq!(err.to_string(), "Parse error: 找不到遊戲管理員（GGM），請先安裝");
    let no_ticket = make_blob(1, "00112233", "ServiceAccount=SA");
    let err = v2_request("SN1", &no_ticket, Ok(("1".into(), "2".into(), "3".into()))).unwrap_err();
    assert_eq!(err.to_string(), "Parse error: blob 內找不到 LaunchTicket");
}

#[test]
fn an_envelope_decrypts_with_its_own_key() {
    let key = "k3yK3y!!";
    let cipher = hex::encode(des_encrypt(key.as_bytes(), &padded("Ab3dEf7hIj")));
    assert_eq!(decrypt_envelope(&format!("1;{key}{cipher}")).unwrap(), "Ab3dEf7hIj");
    assert_eq!(decrypt_envelope("2;x").unwrap_err().to_string(), "Parse error: OTP envelope rejected: 2;x");
    assert_eq!(decrypt_envelope("1;short").unwrap_err().to_string(), "Parse error: OTP payload too short");
    assert_eq!(decrypt_envelope("1;12345678abc").unwrap_err().to_string(), "Parse error: Invalid hex: Odd number of digits");
    assert_eq!(decrypt_envelope("1;12345678abcd").unwrap_err().to_string(), "Parse error: Ciphertext not multiple of 8 bytes");
}

#[test]
fn a_key_character_outside_ascii_counts_as_a_question_mark() {
    let cipher = hex::encode(des_encrypt(b"k3y?K3y!", &padded("Ab3dEf7hIj")));
    assert_eq!(decrypt_envelope(&format!("1;k3y久K3y!{cipher}")).unwrap(), "Ab3dEf7hIj");
    let reply = format!(r#"{{"data":"k3y久K3y!{cipher}"}}"#);
    assert_eq!(read_v2_reply(&reply).unwrap(), "Ab3dEf7hIj");
    assert_eq!(decrypt_envelope("1;久久久").unwrap_err().to_string(), "Parse error: OTP payload too short");
}

#[test]
fn a_v2_reply_yields_only_a_real_password() {
    let key = "k3yK3y!!";
    let good = hex::encode(des_encrypt(key.as_bytes(), &padded("Ab3dEf7hIj")));
    let reply = format!(r#"{{"data":"{key}{good}"}}"#);
    assert_eq!(read_v2_reply(&reply).unwrap(), "Ab3dEf7hIj");
    let short = hex::encode(des_encrypt(key.as_bytes(), &padded("5381")));
    let reply = format!(r#"{{"data":"{key}{short}"}}"#);
    let err = read_v2_reply(&reply).unwrap_err().to_string();
    assert!(err.starts_with("Parse error: OTP 內容異常（4 字：5381）beanfun 回應："), "{err}");
    assert_eq!(read_v2_reply("{}").unwrap_err().to_string(), "Parse error: v2 回應無 data 欄位：{}");
    assert!(read_v2_reply("nope").unwrap_err().to_string().starts_with("Parse error: v2 回應非 JSON："));
}

#[test]
fn a_launch_link_round_trips() {
    let uri = launch_uri("T9", "123", "abc");
    assert_eq!(uri, "gamaniagames://Region=T9&&&&SN=123&&&&Cmd=06004&&&&Data=abc");
    assert_eq!(launch_uri_fields(&uri).unwrap(), ("123".to_string(), "abc".to_string()));
    assert_eq!(launch_uri_fields("gamaniagames://Region=T9").unwrap_err().to_string(), "Parse error: 連結缺少 SN");
    assert_eq!(launch_uri_fields("gamaniagames://Region=1&&&&SN=1").unwrap_err().to_string(), "Parse error: 連結缺少 Data");
}

#[test]
fn a_login_page_field_is_public_for_the_caller() {
    let page = LoginPage {
        skey: "K".into(),
        verification_token: String::new(),
        captcha_site_key: String::new(),
        qr_image: None,
        deeplink: None,
    };
    assert_eq!(page.url(), "https://login.beanfun.com/Login/Index?pSKey=K");
}
