use kz_login::browser::{
    alive_from, decide, is_beanfun_domain, is_browser_label, next_active_after_close,
    normalize_url, read_jar, search_url, select_for_injection, shell_url, tab_label,
    teardown_belongs_to, tidy_for, titlebar_is_reachable, toolbar_label, urlencode, BrowserState,
    CookieSlots, Decision, DomainKind, Geometry, JarCookie, SeenCookie, Tidy, WebviewCookie,
    TOOLBAR_LABEL_PREFIX,
};
use url::Url;

#[test]
fn an_injected_slot_is_never_cleared_but_a_misplaced_twin_is() {
    let slots = CookieSlots::of(&[WebviewCookie {
        name: "bfUID".into(),
        value: "v".into(),
        domain: ".beanfun.com".into(),
        path: "/".into(),
        secure: true,
        http_only: true,
    }]);
    assert!(slots.holds("bfUID", ".BEANFUN.com", "/"));
    assert!(!slots.holds("bfUID", "tw.beanfun.com", "/"));
    assert!(!slots.holds("bfUID", ".beanfun.com", "/sub"));
    assert!(!slots.holds("other", ".beanfun.com", "/"));
}

fn seen(name: &str, domain: &str, http_only: bool) -> SeenCookie {
    SeenCookie {
        name: name.into(),
        value: "v".into(),
        domain: domain.into(),
        path: "/".into(),
        secure: true,
        http_only,
    }
}

#[test]
fn a_seen_cookie_goes_back_where_it_lived() {
    assert_eq!(
        seen("bfUID", ".beanfun.com", true).as_set_cookie(),
        ("bfUID=v; Path=/; Domain=beanfun.com; Secure; HttpOnly".to_string(), "https://beanfun.com/".to_string())
    );
    assert_eq!(
        seen("GamaLoginSession", "login.beanfun.com", false).as_set_cookie(),
        ("GamaLoginSession=v; Path=/; Secure".to_string(), "https://login.beanfun.com/".to_string())
    );
}

fn jar_cookie(name: &str, domain: &str, kind: DomainKind) -> JarCookie {
    JarCookie {
        name: name.to_string(),
        value: format!("{name}-value"),
        domain: domain.to_string(),
        kind,
        path: "/".to_string(),
        secure: false,
        http_only: false,
    }
}

fn store_with(set_cookies: &[&str], from: &str) -> cookie_store::CookieStore {
    let url = from.parse().expect("test URL");
    let mut store = cookie_store::CookieStore::default();
    for raw in set_cookies {
        store
            .parse(raw, &url)
            .unwrap_or_else(|e| panic!("test cookie {raw:?} rejected: {e}"));
    }
    store
}

#[test]
fn beanfun_domains_are_injectable() {
    assert!(is_beanfun_domain("beanfun.com"));
    assert!(is_beanfun_domain("tw.beanfun.com"));
    assert!(is_beanfun_domain("login.beanfun.com"));
    assert!(is_beanfun_domain(".beanfun.com"));
    assert!(is_beanfun_domain("TW.BeanFun.com"));
}

#[test]
fn other_domains_are_not_injectable() {
    assert!(!is_beanfun_domain("gamania.com"));
    assert!(!is_beanfun_domain("example.com"));
    assert!(!is_beanfun_domain("notbeanfun.com"));
    assert!(!is_beanfun_domain("beanfun.com.evil.net"));
}

#[test]
fn a_cookie_without_a_domain_attribute_reads_back_as_host_only() {
    let store = store_with(&["ASP.NET_SessionId=abc; Path=/"], "https://tw.beanfun.com/");
    let read = read_jar(&store);
    assert_eq!(read.len(), 1);
    assert_eq!(read[0].domain, "tw.beanfun.com");
    assert_eq!(read[0].kind, DomainKind::Host);
    assert_eq!(read[0].value, "abc");
    assert_eq!(read[0].path, "/");
}

#[test]
fn a_domain_attribute_reads_back_as_suffix() {
    let store = store_with(&["bfWebToken=tok; Domain=beanfun.com; Path=/"], "https://tw.beanfun.com/");
    let read = read_jar(&store);
    assert_eq!(read[0].kind, DomainKind::Suffix);
    assert_eq!(read[0].domain, "beanfun.com");
}

#[test]
fn secure_and_http_only_default_to_false_when_absent() {
    let store = store_with(&["plain=1; Path=/"], "https://tw.beanfun.com/");
    let read = read_jar(&store);
    assert!(!read[0].secure);
    assert!(!read[0].http_only);

    let store = store_with(&["guarded=1; Path=/; Secure; HttpOnly"], "https://tw.beanfun.com/");
    let read = read_jar(&store);
    assert!(read[0].secure);
    assert!(read[0].http_only);
}

#[test]
fn expired_cookies_never_reach_the_injection_list() {
    let url = "https://tw.beanfun.com/".parse().expect("test URL");
    let mut store = cookie_store::CookieStore::default();
    store.parse("alive=1; Path=/", &url).expect("live cookie");
    assert!(store
        .parse("dead=1; Path=/; Expires=Thu, 01 Jan 1970 00:00:00 GMT", &url)
        .is_err());
    let names: Vec<String> = read_jar(&store).into_iter().map(|c| c.name).collect();
    assert_eq!(names, vec!["alive"]);
}

#[test]
fn every_cookie_in_the_jar_gets_injected() {
    let jar = vec![
        jar_cookie("bfWebToken", ".beanfun.com", DomainKind::Suffix),
        jar_cookie("sso", "gamania.com", DomainKind::Suffix),
        jar_cookie("ASP.NET_SessionId", "tw.beanfun.com", DomainKind::Host),
    ];
    let kept = select_for_injection(&jar);
    let names: Vec<&str> = kept.iter().map(|c| c.name.as_str()).collect();
    assert_eq!(names, vec!["bfWebToken", "sso", "ASP.NET_SessionId"]);
}

#[test]
fn bf_web_token_is_injected_without_http_only_so_the_sso_page_can_read_it() {
    let http_only = |name: &str| JarCookie {
        http_only: true,
        ..jar_cookie(name, ".beanfun.com", DomainKind::Suffix)
    };
    let out = select_for_injection(&[http_only("bfWebToken"), http_only("bfUID")]);
    assert!(!out[0].http_only, "bfWebToken must stay readable by the page");
    assert!(out[1].http_only);
}

#[test]
fn a_session_still_counts_as_logged_in_by_its_beanfun_cookies() {
    let only_others = vec![jar_cookie("sso", "gamania.com", DomainKind::Suffix)];
    let injected = select_for_injection(&only_others);
    assert!(!injected.iter().any(|c| is_beanfun_domain(&c.domain)));

    let with_beanfun = vec![jar_cookie("bfWebToken", ".beanfun.com", DomainKind::Suffix)];
    let injected = select_for_injection(&with_beanfun);
    assert!(injected.iter().any(|c| is_beanfun_domain(&c.domain)));
    assert!(kz_login::browser::any_beanfun_cookie(&injected));
}

#[test]
fn suffix_cookies_get_a_leading_dot_and_host_only_ones_do_not() {
    let jar = vec![
        jar_cookie("wide", "beanfun.com", DomainKind::Suffix),
        jar_cookie("narrow", "tw.beanfun.com", DomainKind::Host),
    ];
    let out = select_for_injection(&jar);
    assert_eq!(out[0].domain, ".beanfun.com");
    assert_eq!(out[1].domain, "tw.beanfun.com");
}

#[test]
fn an_already_dotted_suffix_domain_does_not_gain_a_second_dot() {
    let jar = vec![jar_cookie("t", ".beanfun.com", DomainKind::Suffix)];
    assert_eq!(select_for_injection(&jar)[0].domain, ".beanfun.com");
}

#[test]
fn carries_value_path_and_flags_through() {
    let jar = vec![JarCookie {
        name: "bfSecretCode".into(),
        value: "abc123".into(),
        domain: ".beanfun.com".into(),
        kind: DomainKind::Suffix,
        path: "/beanfun_block".into(),
        secure: true,
        http_only: true,
    }];
    let out = select_for_injection(&jar);
    assert_eq!(out.len(), 1);
    assert_eq!(out[0].value, "abc123");
    assert_eq!(out[0].path, "/beanfun_block");
    assert!(out[0].secure);
    assert!(out[0].http_only);
}

#[test]
fn closing_a_background_tab_keeps_the_active_one() {
    assert_eq!(next_active_after_close(&[1, 2, 3], 3, 1), Some(1));
}

#[test]
fn closing_the_active_tab_moves_to_its_right_neighbor() {
    assert_eq!(next_active_after_close(&[1, 2, 3], 2, 2), Some(3));
}

#[test]
fn closing_the_last_positioned_active_tab_moves_left() {
    assert_eq!(next_active_after_close(&[1, 2, 3], 3, 3), Some(2));
}

#[test]
fn closing_the_only_tab_closes_the_browser() {
    assert_eq!(next_active_after_close(&[7], 7, 7), None);
}

#[test]
fn a_stale_close_keeps_the_current_active_tab() {
    assert_eq!(next_active_after_close(&[2, 3], 1, 2), Some(2));
}

const FHD: (i32, i32, u32, u32) = (0, 0, 1920, 1080);

#[test]
fn a_full_url_is_taken_as_is() {
    assert_eq!(normalize_url("https://tw.beanfun.com/x").unwrap().as_str(), "https://tw.beanfun.com/x");
    assert_eq!(normalize_url("  http://example.com  ").unwrap().as_str(), "http://example.com/");
}

#[test]
fn a_bare_host_gets_https() {
    assert_eq!(normalize_url("tw.beanfun.com").unwrap().as_str(), "https://tw.beanfun.com/");
}

fn is_google_search_for(url: &str, query: &str) -> bool {
    let url = Url::parse(url).unwrap();
    url.scheme() == "https"
        && url.host_str() == Some("www.google.com")
        && url.path() == "/search"
        && url.query_pairs().any(|(k, v)| k == "q" && v == query)
}

#[test]
fn non_http_schemes_become_searches_not_navigations() {
    for raw in ["file:///C:/Windows/win.ini", "javascript:alert(1)", "gamaniagames://whatever"] {
        let url = normalize_url(raw).unwrap();
        assert!(is_google_search_for(&url, raw), "{raw} should be a search, got {url}");
    }
}

#[test]
fn things_that_are_not_urls_become_google_searches() {
    let url = normalize_url("楓之谷 怎麼玩").unwrap();
    assert!(is_google_search_for(&url, "楓之谷 怎麼玩"));
    assert!(url.as_str().contains("q=%E6%A5%93%E4%B9%8B%E8%B0%B7"));

    let url = normalize_url("beanfun").unwrap();
    assert!(is_google_search_for(&url, "beanfun"));

    let url = normalize_url("https://a b").unwrap();
    assert!(is_google_search_for(&url, "https://a b"));
}

#[test]
fn empty_input_is_still_an_error_not_a_search() {
    assert!(normalize_url("").is_err());
    assert!(normalize_url("   ").is_err());
}

#[test]
fn a_search_address_encodes_its_words() {
    assert_eq!(search_url("a b&c"), "https://www.google.com/search?q=a+b%26c");
}

#[test]
fn a_window_on_screen_keeps_its_remembered_place() {
    let g = Geometry { x: 300, y: 200, width: 1100, height: 720 };
    assert!(titlebar_is_reachable(&g, &[FHD]));
}

#[test]
fn a_window_left_off_screen_by_a_resolution_change_is_rejected() {
    let g = Geometry { x: 2400, y: 300, width: 1100, height: 720 };
    assert!(!titlebar_is_reachable(&g, &[FHD]));
    let g = Geometry { x: 300, y: -900, width: 1100, height: 720 };
    assert!(!titlebar_is_reachable(&g, &[FHD]));
}

#[test]
fn a_second_monitor_makes_its_own_coordinates_reachable_again() {
    let second = (1920, 0, 1920, 1080);
    let g = Geometry { x: 2400, y: 300, width: 1100, height: 720 };
    assert!(titlebar_is_reachable(&g, &[FHD, second]));
}

#[test]
fn with_no_monitors_reported_nothing_is_reachable() {
    let g = Geometry { x: 300, y: 200, width: 1100, height: 720 };
    assert!(!titlebar_is_reachable(&g, &[]));
}

#[test]
fn the_first_request_opens_a_window() {
    assert_eq!(decide(None, "acc-1", false), Decision::Open);
}

#[test]
fn the_same_account_asking_again_focuses_the_open_window() {
    assert_eq!(decide(Some("acc-1"), "acc-1", true), Decision::Focus);
}

#[test]
fn another_account_is_refused_while_the_window_is_open() {
    assert_eq!(decide(Some("acc-1"), "acc-2", true), Decision::Refuse);
}

#[test]
fn another_account_may_open_once_the_window_is_gone() {
    assert_eq!(decide(Some("acc-1"), "acc-2", false), Decision::Open);
    assert_eq!(decide(Some("acc-1"), "acc-1", false), Decision::Open);
}

#[test]
fn a_window_that_cannot_answer_is_not_there() {
    assert!(!alive_from(None, None));
    assert!(!alive_from(None, Some(false)));
    assert!(!alive_from(Some(false), None));
    assert!(alive_from(Some(true), Some(false)));
    assert!(alive_from(Some(false), Some(true)));
    assert!(!alive_from(Some(false), Some(false)));
}

#[test]
fn each_generation_gets_a_label_of_its_own() {
    assert_ne!(toolbar_label(1), toolbar_label(2));
    assert!(toolbar_label(3).starts_with(TOOLBAR_LABEL_PREFIX));
}

#[test]
fn the_sweep_recognises_toolbars_and_tabs_only() {
    assert!(is_browser_label(&toolbar_label(9)));
    assert!(is_browser_label(&tab_label(4)));
    assert!(!is_browser_label("main"));
}

#[test]
fn a_late_teardown_only_clears_its_own_generation() {
    assert!(teardown_belongs_to(7, 7));
    assert!(!teardown_belongs_to(7, 8));
}

#[test]
fn alias_is_escaped_into_the_shell_query_string() {
    assert_eq!(urlencode("abc-1_2.3~"), "abc-1_2.3~");
    assert_eq!(urlencode("a b&c=d"), "a%20b%26c%3Dd");
    assert_eq!(urlencode("倉庫"), "%E5%80%89%E5%BA%AB");
    assert_eq!(shell_url("a b"), "browser.html?alias=a%20b&titlebar=42&navbar=42&edge=3");
}

#[test]
fn the_store_is_wiped_only_for_another_account() {
    assert_eq!(tidy_for(Some("acc"), "acc"), Tidy::SameNames);
    assert_eq!(tidy_for(Some("other"), "acc"), Tidy::Everything { account: "acc".into() });
    assert_eq!(tidy_for(None, "acc"), Tidy::Everything { account: "acc".into() });
}

#[test]
fn tabs_open_activate_and_close_in_order() {
    let mut st = BrowserState::new();
    assert!(st.active_tab().is_err());
    assert_eq!(st.next_generation(), 1);
    st.reset(vec![], Tidy::Everything { account: "a".into() });
    let one = st.push_tab();
    let two = st.push_tab();
    let three = st.push_tab();
    assert_eq!((one, two, three), (1, 2, 3));
    let (ids, url) = st.activate(two).unwrap();
    assert_eq!((ids, url.as_str()), (vec![1, 2, 3], ""));
    assert!(st.activate(9).is_err());
    assert!(st.tab_loaded(two, "https://tw.beanfun.com/"));
    assert!(!st.tab_loaded(one, "https://x/"));
    assert!(!st.tab_loaded(two, "about:blank"));
    st.set_title(two, "  ");
    st.set_title(one, "Portal");
    let entries = st.entries();
    assert_eq!(entries[0], (1, "Portal".to_string(), false));
    assert_eq!(entries[1], (2, "（無標題）".to_string(), true));
    assert_eq!(entries[2], (3, "載入中…".to_string(), false));
    let (ids, active) = st.close(two).unwrap();
    assert_eq!(next_active_after_close(&ids, two, active), Some(3));
    assert!(st.close(two).is_none());
    assert_eq!(st.ids(), vec![1, 3]);
    let (_, tidy) = st.take_seed();
    assert_eq!(tidy, Tidy::Everything { account: "a".into() });
    let (_, tidy) = st.take_seed();
    assert_eq!(tidy, Tidy::Keep);
    st.clear();
    assert!(st.ids().is_empty());
    assert_eq!(st.push_tab(), 4);
}

#[test]
fn an_escaped_alias_decodes_back_and_holds_no_separator() {
    for alias in ["a b&c=d#e?f", "倉庫 1", "~x%y"] {
        let enc = urlencode(alias);
        assert!(!enc.contains([' ', '&', '=', '#', '?']));
        let mut bytes = Vec::new();
        let cs: Vec<char> = enc.chars().collect();
        let mut i = 0;
        while i < cs.len() {
            if cs[i] == '%' {
                let hex: String = cs[i + 1..i + 3].iter().collect();
                bytes.push(u8::from_str_radix(&hex, 16).unwrap());
                i += 3;
            } else {
                bytes.push(cs[i] as u8);
                i += 1;
            }
        }
        assert_eq!(bytes, alias.as_bytes());
    }
}

#[test]
fn a_pushed_tab_keeps_the_seed_for_the_next() {
    let mut st = BrowserState::new();
    let seed = vec![WebviewCookie {
        name: "bfWebToken".into(),
        value: "t".into(),
        domain: ".beanfun.com".into(),
        path: "/".into(),
        secure: true,
        http_only: true,
    }];
    st.reset(seed, Tidy::Keep);
    st.push_tab();
    let (cookies, _) = st.take_seed();
    assert_eq!(cookies.len(), 1);
    st.push_tab();
    let (again, tidy) = st.take_seed();
    assert_eq!(again.len(), 1);
    assert_eq!(tidy, Tidy::Keep);
}
