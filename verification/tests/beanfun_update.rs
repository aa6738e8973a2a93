use kz_login::beanfun::session::{carries_token, jar_carries_token, jar_verdict, web_token_in, web_token_of};
use kz_login::beanfun::types::SessionState;
use kz_login::beanfun::update::{
    app_update_from, download_complete, dt_compact, dt_compact_of, ggm_update_from,
    installer_name, require_https, version_newer, ClockReading, BARE_EXE_ASSET,
};
use kz_login::jar::{JarDomain, JarEntry};

#[test]
fn versions_compare_numerically() {
    assert!(version_newer("1.10.0", "1.9.9"));
    assert!(!version_newer("1.9.9", "1.10.0"));
    assert!(version_newer("2", "1.99"));
    assert!(!version_newer("1.0", "1"));
    assert!(!version_newer("1", "1.0"));
    assert!(version_newer("1.0.1", "1"));
    assert!(!version_newer("abc", "0"));
    assert!(!version_newer("1.2.3", "1.2.3"));
}

#[test]
fn the_ggm_check_reads_the_server_reply() {
    let body = r#"{"version":"2.1.0","url":"https://x/GGMSetup_2.exe"}"#;
    let u = ggm_update_from(body, Some("2.0.9".into())).unwrap();
    assert_eq!((u.current.as_str(), u.server.as_str(), u.url.as_str(), u.has_update), ("2.0.9", "2.1.0", "https://x/GGMSetup_2.exe", true));
    assert!(ggm_update_from(body, None).unwrap().has_update);
    assert!(!ggm_update_from(body, Some("2.1.0".into())).unwrap().has_update);
    assert!(!ggm_update_from("{}", None).unwrap().has_update);
    assert!(ggm_update_from("oops", None).unwrap_err().to_string().starts_with("Parse error: CheckVersion 非 JSON："));
}

#[test]
fn the_app_check_reads_the_latest_release() {
    let body = format!(
        r#"{{"tag_name":"vv1.6.0","body":"notes","assets":[{{"name":"x.zip"}},{{"name":"KZ-Login-setup.exe","browser_download_url":"https://d/setup"}},{{"name":"{BARE_EXE_ASSET}","browser_download_url":"https://d/exe"}}]}}"#
    );
    let u = app_update_from(&body, "1.5.2").unwrap();
    assert_eq!(u.latest, "1.6.0");
    assert_eq!(u.url, "https://d/setup");
    assert_eq!(u.exe_url, "https://d/exe");
    assert_eq!(u.notes, "notes");
    assert!(u.has_update);
    let u = app_update_from(r#"{"tag_name":"v1.0.0"}"#, "1.0.0").unwrap();
    assert_eq!((u.url.as_str(), u.exe_url.as_str(), u.has_update), ("", "", false));
    assert!(app_update_from("", "1").unwrap_err().to_string().starts_with("Parse error: GitHub 回應非 JSON："));
}

#[test]
fn downloads_are_checked() {
    assert!(require_https("https://x").is_ok());
    assert_eq!(require_https("http://x").unwrap_err().to_string(), "Parse error: 更新連結無效");
    assert_eq!(installer_name("https://h/a/b/Setup.exe", "fb.exe"), "Setup.exe");
    assert_eq!(installer_name("https://h/a/", "fb.exe"), "fb.exe");
    assert!(download_complete(5, 5).is_ok());
    assert!(download_complete(7, 0).is_ok());
    assert_eq!(download_complete(3, 5).unwrap_err().to_string(), "Parse error: 更新檔下載不完整（3/5 bytes）");
}

#[test]
fn the_cache_buster_is_written_like_the_game_manager_does() {
    let t = ClockReading { year: 2026, month0: 7, day: 5, hour: 9, minute: 3, second: 1, nanosecond: 42_000_000 };
    assert_eq!(dt_compact_of(t), "2026705090301042");
    let now = dt_compact();
    assert!(now.len() >= 14 && now.chars().all(|c| c.is_ascii_digit()), "{now}");
}

fn entry(name: &str, value: &str) -> JarEntry {
    JarEntry {
        name: name.into(),
        value: value.into(),
        domain: JarDomain::Suffix("beanfun.com".into()),
        path: "/".into(),
        secure: None,
        http_only: None,
    }
}

#[test]
fn the_web_token_is_found_whatever_its_case() {
    let es = vec![entry("a", "1"), entry("BFWEBTOKEN", "tok"), entry("bfWebToken", "other")];
    assert_eq!(web_token_of(&es).as_deref(), Some("tok"));
    assert!(carries_token(&es, "other"));
    assert!(!carries_token(&es, "1"));
    assert_eq!(web_token_of(&es[..1]), None);
}

#[test]
fn the_jar_yields_the_token_a_login_left() {
    let url: url::Url = "https://tw.beanfun.com/".parse().unwrap();
    let mut store = cookie_store::CookieStore::default();
    store.parse("bfWebToken=tok; Domain=beanfun.com; Path=/", &url).unwrap();
    assert_eq!(web_token_in(&store).unwrap(), "tok");
    assert!(jar_carries_token(&store, "tok"));
    assert!(!jar_carries_token(&store, "nope"));
    assert_eq!(jar_verdict(&store, "tok"), None);
    assert_eq!(jar_verdict(&store, "nope"), Some(SessionState::Unknown));
    let empty = cookie_store::CookieStore::default();
    assert_eq!(
        web_token_in(&empty).unwrap_err().to_string(),
        "Parse error: bfWebToken not found in any cookie after finalize"
    );
}
