use kz_login::gamapass::{
    browser_args, code_call, fresh_token, give_up, init_script, merge_cookies, same_stage,
    token_in, Cancels, Fill, Outcome, Report, Stage, Watch, WatchStep, TIMEOUT_MS,
};

#[test]
fn placeholders_in_the_account_stay_literal() {
    let js = init_script(&Fill { account: "__PASSWORD__".into(), password: "pw".into(), fresh: true });
    assert!(js.contains("const FRESH = true;"));
    assert!(js.contains(r#"const ACC = "__PASSWORD__";"#));
    assert!(js.contains(r#"const PW = "pw";"#));
}

#[test]
fn quotes_in_the_password_are_escaped() {
    let js = init_script(&Fill { account: "a".into(), password: "p\"w".into(), fresh: false });
    assert!(js.contains("const FRESH = false;"));
    assert!(js.contains(r#"const PW = "p\"w";"#));
    assert!(!js.contains("__ACCOUNT__"));
}

#[test]
fn keeps_a_single_feature_list() {
    let args = browser_args();
    assert_eq!(args.matches("--disable-features=").count(), 1);
    assert!(args.contains("CalculateNativeWinOcclusion,"));
    assert!(args.ends_with(" --disable-backgrounding-occluded-windows --disable-renderer-backgrounding"));
}

#[test]
fn a_cancel_voids_the_tickets_taken_before_it() {
    let mut cancels = Cancels::new();
    let ticket = cancels.ticket();
    assert!(!give_up(0, ticket, cancels.ticket()));
    cancels.cancel();
    assert!(give_up(0, ticket, cancels.ticket()));
    assert!(!give_up(0, cancels.ticket(), cancels.ticket()));
    assert!(give_up(TIMEOUT_MS, cancels.ticket(), cancels.ticket()));
}

#[test]
fn only_digits_of_a_code_are_typed() {
    assert_eq!(code_call(" 12-34 ").unwrap(), "window.__kzCode && window.__kzCode(\"1234\")");
    assert_eq!(code_call("abc").unwrap_err(), "請輸入驗證碼");
}

fn pairs(items: &[(&str, &str)]) -> Vec<(String, String)> {
    items.iter().map(|(n, v)| (n.to_string(), v.to_string())).collect()
}

#[test]
fn the_token_is_this_logins_own() {
    let cookies = pairs(&[("x", "1"), ("BfWebToken", "tok")]);
    assert_eq!(token_in(&cookies).as_deref(), Some("tok"));
    assert_eq!(fresh_token(&cookies, Some("tok")), None);
    assert_eq!(fresh_token(&cookies, Some("old")).as_deref(), Some("tok"));
    assert_eq!(token_in(&pairs(&[("bfWebToken", ""), ("bfWebToken", "late")])), None);
}

#[test]
fn cookies_from_further_addresses_keep_the_first_of_each_name() {
    let mut all = pairs(&[("a", "1"), ("b", "2")]);
    merge_cookies(&mut all, &pairs(&[("b", "9"), ("c", "3"), ("c", "4")]));
    assert_eq!(all, pairs(&[("a", "1"), ("b", "2"), ("c", "3")]));
}

fn code(attempt: u32) -> Stage {
    Stage::Code { sent_to: "+886".into(), error: String::new(), attempt }
}

#[test]
fn the_watch_follows_the_script_until_the_user_takes_over() {
    let mut w = Watch::new();
    assert_eq!(w.step(None, Some(Report { stage: Stage::Working, sent: false })), WatchStep::Same);
    assert_eq!(w.step(None, Some(Report { stage: code(1), sent: true })), WatchStep::Changed { came_out: false });
    assert!(same_stage(&w.stage(), &code(1)));
    assert_eq!(w.step(None, Some(Report { stage: Stage::User, sent: false })), WatchStep::Changed { came_out: true });
    assert_eq!(w.step(None, Some(Report { stage: Stage::Working, sent: false })), WatchStep::Same);
    assert_eq!(w.stage(), Stage::User);
    let done = w.step(Some(("tok".into(), vec![])), None);
    assert_eq!(done, WatchStep::Done(Outcome::Completed { token: "tok".into(), cookies: vec![], password_checked: false }));
}

#[test]
fn a_submitted_password_is_checked_when_the_script_finished_alone() {
    let mut w = Watch::new();
    w.step(None, Some(Report { stage: Stage::Working, sent: true }));
    let done = w.step(Some(("t".into(), pairs(&[("bfWebToken", "t")]))), None);
    assert_eq!(
        done,
        WatchStep::Done(Outcome::Completed { token: "t".into(), cookies: pairs(&[("bfWebToken", "t")]), password_checked: true })
    );
}

#[test]
fn typed_credentials_are_written_as_escaped_string_literals() {
    let js = init_script(&Fill { account: "a\"b\\c".into(), password: "x\ny\u{1}".into(), fresh: false });
    assert!(js.contains(r#"const ACC = "a\"b\\c";"#));
    assert!(js.contains(r#"const PW = "x\ny\u0001";"#));
    assert!(js.contains("const FRESH = false;"));
}

#[test]
fn cancels_move_the_ticket_on_one_each() {
    let mut c = Cancels::new();
    let t0 = c.ticket();
    for _ in 0..3 {
        c.cancel();
    }
    assert_eq!(c.ticket(), t0.wrapping_add(3));
    assert_ne!(c.ticket(), t0);
}
