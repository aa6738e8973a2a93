use kz_login::beanfun::types::LoginStep;
use kz_login::captcha::{captcha_step, overlay_script, read_fragment, CaptchaStep, Signal};
use kz_login::flow::{
    check_launch_key, check_web_url, password_flow, progress_percent, require_site_key,
    PasswordFlow, PasswordStage,
};
use kz_login::hidden::{to_hex, verify};
use kz_login::icon::{join_path_str, shortcut_targets};
use kz_login::keyhook::{is_refresh_key, tab_shortcut, Key, Shortcut};
use kz_login::overlay::Palette;
use kz_login::win::{clamp_to_work_area, shell_result, work_area_size};
use sha2::Digest;
use std::path::{Path, PathBuf};

#[test]
fn reads_what_the_overlay_writes() {
    assert_eq!(read_fragment("kz-captcha=abc-_123"), Some(Signal::Token("abc-_123".into())));
    assert_eq!(read_fragment("kz-captcha-size=full"), Some(Signal::Full));
    assert_eq!(read_fragment("kz-captcha-size=region"), Some(Signal::Region));
}

#[test]
fn ignores_other_fragments() {
    assert!(read_fragment("").is_none());
    assert!(read_fragment("kz-captcha=").is_none());
    assert!(read_fragment("top").is_none());
}

#[test]
fn the_captcha_window_grows_and_shrinks_on_signal() {
    assert_eq!(captcha_step(false, Some(Signal::Full)), CaptchaStep::Waiting { full: true });
    assert_eq!(captcha_step(true, Some(Signal::Region)), CaptchaStep::Waiting { full: false });
    assert_eq!(captcha_step(true, None), CaptchaStep::Waiting { full: true });
    assert_eq!(captcha_step(true, Some(Signal::Token("t".into()))), CaptchaStep::Solved("t".into()));
}

#[test]
fn the_overlay_script_gets_its_values() {
    let palette = Palette { bg: "#111".into(), text: "#eee".into(), dark: true };
    let js = overlay_script("site\"key", &palette, "[1,2,3,4]");
    assert!(js.contains(r#"const SITE_KEY = "site\"key";"#));
    assert!(js.contains(r##"const C = { bg: "#111", text: "#eee" };"##));
    assert!(js.contains("const DARK = true;"));
    assert!(js.contains("const [RX, RY, RW, RH] = [1,2,3,4];"));
    assert!(js.contains(r#"const TOKEN = "kz-captcha=", FULL = "kz-captcha-size=full", REGION = "kz-captcha-size=region";"#));
}

#[test]
fn covers_all_four_shortcut_locations() {
    let t = shortcut_targets(
        r"D:\OneDrive\Desktop",
        r"D:\AppData\Roaming\Microsoft\Windows\Start Menu\Programs",
        r"D:\AppData\Roaming",
        "久世登入器",
    );
    let labels: Vec<_> = t.iter().map(|x| x.label).collect();
    assert_eq!(labels, ["desktop", "start-menu", "start-menu-folder", "pinned-taskbar"]);
}

#[test]
fn builds_paths_from_the_given_folders_not_from_the_user_profile() {
    let t = shortcut_targets(r"D:\OneDrive\Desktop", r"D:\Programs", r"D:\Roaming", "久世登入器");
    assert_eq!(PathBuf::from(&t[0].lnk), PathBuf::from(r"D:\OneDrive\Desktop\久世登入器.lnk"));
    assert_eq!(PathBuf::from(&t[1].lnk), PathBuf::from(r"D:\Programs\久世登入器.lnk"));
    assert_eq!(PathBuf::from(&t[2].lnk), PathBuf::from(r"D:\Programs\久世登入器\久世登入器.lnk"));
    assert_eq!(
        Path::new(&t[3].lnk),
        Path::new(r"D:\Roaming\Microsoft\Internet Explorer\Quick Launch\User Pinned\TaskBar\久世登入器.lnk")
    );
}

#[test]
fn clamping_leaves_a_window_that_already_fits_alone() {
    assert_eq!(clamp_to_work_area((630, 960), Some((1920, 1040))), (630, 960));
}

#[test]
fn clamping_keeps_a_window_inside_the_work_area() {
    assert_eq!(clamp_to_work_area((945, 1440), Some((1920, 1040))), (945, 1040));
    assert_eq!(clamp_to_work_area((945, 1440), None), (945, 1440));
    assert_eq!(work_area_size(Some((0, 0, 1920, 1040))), Some((1920, 1040)));
    assert_eq!(work_area_size(Some((100, 50, 10, 40))), Some((0, 0)));
    assert_eq!(work_area_size(None), None);
}

#[test]
fn a_hidden_key_unlocks_by_its_digest_only() {
    assert_eq!(to_hex(&[0x00, 0xab, 0x10]), "00ab10");
    // sha256("kz-login/hidden/v1secret")
    let digest = {
        let d = <sha2::Sha256 as Digest>::digest(b"kz-login/hidden/v1secret");
        d.iter().map(|b| format!("{b:02x}")).collect::<String>()
    };
    let keys = vec![(digest, "export".to_string())];
    assert_eq!(verify("  secret \n", &keys).as_deref(), Some("export"));
    assert_eq!(verify("Secret", &keys), None);
    assert_eq!(verify("secret", &[]), None);
}

#[test]
fn tab_and_refresh_keys_are_recognised() {
    assert_eq!(tab_shortcut(Key { vk: 87, ctrl: true }), Some(Shortcut::CloseTab));
    assert_eq!(tab_shortcut(Key { vk: 84, ctrl: true }), Some(Shortcut::NewTab));
    assert_eq!(tab_shortcut(Key { vk: 87, ctrl: false }), None);
    assert!(is_refresh_key(Key { vk: 0x74, ctrl: false }));
    assert!(is_refresh_key(Key { vk: 82, ctrl: true }));
    assert!(!is_refresh_key(Key { vk: 82, ctrl: false }));
}

#[test]
fn the_password_login_walks_its_two_steps() {
    assert_eq!(password_flow(LoginStep::Proceed, PasswordStage::AccountType), PasswordFlow::Next(PasswordStage::AccountLogin));
    assert_eq!(password_flow(LoginStep::Proceed, PasswordStage::AccountLogin), PasswordFlow::Finish);
    assert_eq!(password_flow(LoginStep::CaptchaRequired, PasswordStage::AccountLogin), PasswordFlow::Captcha);
    assert_eq!(password_flow(LoginStep::Rejected("no".into()), PasswordStage::AccountType), PasswordFlow::Rejected("no".into()));
    assert_eq!(password_flow(LoginStep::UseQr("qr".into()), PasswordStage::AccountType), PasswordFlow::UseQr("qr".into()));
}

#[test]
fn only_expected_links_are_opened() {
    assert_eq!(check_launch_key("  gamaniagames://x \n").unwrap(), "gamaniagames://x");
    assert_eq!(check_launch_key("https://x").unwrap_err(), "剪貼簿內容不是有效的登入金鑰");
    assert_eq!(check_web_url(" http://a ").unwrap(), "http://a");
    assert_eq!(check_web_url("file:///c").unwrap_err(), "僅允許 http(s) 連結");
    assert!(require_site_key("").is_err());
    assert!(require_site_key("k").is_ok());
    assert_eq!(progress_percent(50, 200), 25);
    assert_eq!(progress_percent(50, 0), 0);
}

#[test]
fn the_shell_answer_above_thirty_two_is_success() {
    assert_eq!(shell_result(42), Ok(()));
    assert_eq!(shell_result(33), Ok(()));
    assert_eq!(shell_result(32), Err("無法啟動：錯誤碼 32".to_string()));
    assert_eq!(shell_result(2), Err("無法啟動：錯誤碼 2".to_string()));
}

#[test]
fn joining_onto_an_empty_folder_gives_the_name_alone() {
    assert_eq!(join_path_str("", "a.lnk"), "a.lnk");
    assert_eq!(join_path_str(r"D:\x", "a.lnk"), r"D:\x\a.lnk");
    assert_eq!(join_path_str(r"D:\x\", "a.lnk"), r"D:\x\a.lnk");
    let t = shortcut_targets("", r"D:\P", r"D:\R", "久世登入器");
    assert_eq!(t[0].lnk, "久世登入器.lnk");
}
