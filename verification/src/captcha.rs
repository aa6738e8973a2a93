//! The reCAPTCHA window of the password login: what its overlay script is
//! given, and what the script writes back into the page's URL fragment.
use crate::overlay::Palette;
use crate::text::{concat, replace_spec, replace_str, starts_with, str_eq, str_starts_with, substring, chars_of};
use vstd::prelude::*;

verus! {

/// Label prefix of a captcha window.
pub const LABEL_PREFIX: &'static str = "captcha-";

/// The fragment that carries a solved token.
pub const TOKEN_FRAGMENT: &'static str = "kz-captcha=";

/// The overlay asks for the whole main window while the image challenge is open…
pub const FULL_FRAGMENT: &'static str = "kz-captcha-size=full";

/// …and gives it back afterwards.
pub const REGION_FRAGMENT: &'static str = "kz-captcha-size=region";

/// What the overlay wrote into the URL fragment.
#[derive(Debug, Clone, PartialEq, Eq)]
pub enum Signal {
    /// The solved token.
    Token(String),
    /// The challenge is open: cover the whole main window.
    Full,
    /// The challenge closed: back to the region.
    Region,
}

/// [`Signal`] with the token as a character sequence.
pub enum SignalModel {
    Token(Seq<char>),
    Full,
    Region,
}

impl View for Signal {
    type V = SignalModel;

    open spec fn view(&self) -> SignalModel {
        match self {
            Signal::Token(t) => SignalModel::Token(t@),
            Signal::Full => SignalModel::Full,
            Signal::Region => SignalModel::Region,
        }
    }
}

/// The signal a fragment carries; fragments of beanfun's own page, and an
/// empty token, are none.
pub open spec fn fragment_signal(fragment: Seq<char>) -> Option<SignalModel> {
    if fragment == FULL_FRAGMENT@ {
        Some(SignalModel::Full)
    } else if fragment == REGION_FRAGMENT@ {
        Some(SignalModel::Region)
    } else if starts_with(fragment, TOKEN_FRAGMENT@) && fragment.len() > TOKEN_FRAGMENT@.len() {
        Some(SignalModel::Token(fragment.skip(TOKEN_FRAGMENT@.len() as int)))
    } else {
        None
    }
}

/// Read what the overlay wrote into the URL fragment.
pub fn read_fragment(fragment: &str) -> (r: Option<Signal>)
    ensures
        match (r, fragment_signal(fragment@)) {
            (Some(s), Some(m)) => s@ == m,
            (None, None) => true,
            _ => false,
        },
{
    if str_eq(fragment, FULL_FRAGMENT) {
        return Some(Signal::Full);
    }
    if str_eq(fragment, REGION_FRAGMENT) {
        return Some(Signal::Region);
    }
    if str_starts_with(fragment, TOKEN_FRAGMENT) {
        let cs = chars_of(fragment);
        let prefix = chars_of(TOKEN_FRAGMENT);
        if cs.len() > prefix.len() {
            let token = substring(cs.as_slice(), prefix.len(), cs.len());
            assert(token@ =~= fragment@.skip(TOKEN_FRAGMENT@.len() as int));
            return Some(Signal::Token(token));
        }
    }
    None
}

/// What one poll of the captcha window concluded.
#[derive(Debug, Clone, PartialEq, Eq)]
pub enum CaptchaStep {
    /// Solved: the token to send with the login step.
    Solved(String),
    /// Keep waiting, the window covering the whole main window or only the region.
    Waiting { full: bool },
}

/// Take in one poll: a token ends the wait; a size signal changes how much
/// the window covers; anything else leaves it as it was.
pub fn captcha_step(full: bool, signal: Option<Signal>) -> (r: CaptchaStep)
    ensures
        match signal {
            Some(Signal::Token(t)) => r == CaptchaStep::Solved(t),
            Some(Signal::Full) => r == CaptchaStep::Waiting { full: true },
            Some(Signal::Region) => r == CaptchaStep::Waiting { full: false },
            None => r == CaptchaStep::Waiting { full },
        },
{
    match signal {
        Some(Signal::Token(t)) => CaptchaStep::Solved(t),
        Some(Signal::Full) => CaptchaStep::Waiting { full: true },
        Some(Signal::Region) => CaptchaStep::Waiting { full: false },
        None => CaptchaStep::Waiting { full },
    }
}

/// The overlay script with its values in place, each placeholder replaced in
/// turn; texts go in as JavaScript string literals, the region as the array
/// text `region` (its CSS pixel numbers, written by the caller).
pub open spec fn overlay_script_spec(site_key: Seq<char>, palette: Palette, region: Seq<char>) -> Seq<char> {
    let js = |s: Seq<char>| crate::gamapass::js_string_spec(s);
    let s1 = replace_spec(OVERLAY_JS@, "__SITE_KEY__"@, js(site_key));
    let s2 = replace_spec(s1, "__BG__"@, js(palette.bg@));
    let s3 = replace_spec(s2, "__TEXT__"@, js(palette.text@));
    let s4 = replace_spec(s3, "__DARK__"@, if palette.dark { "true"@ } else { "false"@ });
    let s5 = replace_spec(s4, "__REGION__"@, region);
    let s6 = replace_spec(s5, "__TOKEN_FRAGMENT__"@, js(TOKEN_FRAGMENT@));
    let s7 = replace_spec(s6, "__FULL_FRAGMENT__"@, js(FULL_FRAGMENT@));
    replace_spec(s7, "__REGION_FRAGMENT__"@, js(REGION_FRAGMENT@))
}

/// The script the captcha window runs on every document it loads.
pub fn overlay_script(site_key: &str, palette: &Palette, region: &str) -> (r: String)
    ensures
        r@ == overlay_script_spec(site_key@, *palette, region@),
{
    proof {
        reveal_strlit("__SITE_KEY__");
        reveal_strlit("__BG__");
        reveal_strlit("__TEXT__");
        reveal_strlit("__DARK__");
        reveal_strlit("__REGION__");
        reveal_strlit("__TOKEN_FRAGMENT__");
        reveal_strlit("__FULL_FRAGMENT__");
        reveal_strlit("__REGION_FRAGMENT__");
    }
    let js = |s: &str| -> (r: String)
        ensures
            r@ == crate::gamapass::js_string_spec(s@),
        { crate::gamapass::js_string(s) };
    let s = replace_str(OVERLAY_JS, "__SITE_KEY__", js(site_key).as_str());
    let s = replace_str(s.as_str(), "__BG__", js(palette.bg.as_str()).as_str());
    let s = replace_str(s.as_str(), "__TEXT__", js(palette.text.as_str()).as_str());
    let s = replace_str(s.as_str(), "__DARK__", if palette.dark {
        "true"
    } else {
        "false"
    });
    let s = replace_str(s.as_str(), "__REGION__", region);
    let s = replace_str(s.as_str(), "__TOKEN_FRAGMENT__", js(TOKEN_FRAGMENT).as_str());
    let s = replace_str(s.as_str(), "__FULL_FRAGMENT__", js(FULL_FRAGMENT).as_str());
    replace_str(s.as_str(), "__REGION_FRAGMENT__", js(REGION_FRAGMENT).as_str())
}

/// Runs on every document in the window, but only acts on beanfun's login
/// host. The widget is rendered into a container of the script's own rather
/// than fished out of beanfun's page, so a redesign of their page cannot hide it.
pub const OVERLAY_JS: &'static str = r##"(() => {
  if (location.hostname !== "login.beanfun.com") return;
  try { Object.defineProperty(navigator, "webdriver", { get: () => false }); } catch (e) {}
  const SITE_KEY = __SITE_KEY__;
  const C = { bg: __BG__, text: __TEXT__ };
  const DARK = __DARK__;
  const [RX, RY, RW, RH] = __REGION__;
  const TOKEN = __TOKEN_FRAGMENT__, FULL = __FULL_FRAGMENT__, REGION = __REGION_FRAGMENT__;

  const style = document.createElement("style");
  style.textContent =
    "html,body{background:transparent!important;overflow:hidden!important}" +
    // Both layers stay below the image challenge, which reCAPTCHA stacks at about 2e9.
    "#kz-cap-back{position:fixed;inset:0;z-index:999998;background:" + C.bg + "}" +
    "#kz-cap{position:fixed;inset:0;z-index:999999;display:flex;flex-direction:column;" +
    "align-items:center;justify-content:center;gap:14px;background:" + C.bg + ";color:" + C.text + ";" +
    "font:13px 'Segoe UI','Microsoft JhengHei',system-ui,sans-serif}" +
    "html.kz-full #kz-cap{inset:auto;left:" + RX + "px;top:" + RY + "px;width:" + RW + "px;height:" + RH + "px}" +
    "#kz-cap-box{min-height:78px;display:flex;align-items:center;justify-content:center}" +
    "#kz-cap-hint{opacity:.7;text-align:center;line-height:1.6}";

  const back = document.createElement("div");
  back.id = "kz-cap-back";
  const root = document.createElement("div");
  root.id = "kz-cap";
  root.innerHTML = '<div id="kz-cap-hint">載入驗證中…</div><div id="kz-cap-box"></div>';

  const mount = () => {
    if (document.getElementById("kz-cap")) return;
    document.head.appendChild(style);
    document.body.appendChild(back);
    document.body.appendChild(root);
    render();
    setInterval(watchChallenge, 150);
  };

  // The challenge iframe always exists once rendered; it is "open" when no
  // ancestor hides it or parks it off-screen.
  let full = false;
  const watchChallenge = () => {
    const frame = document.querySelector("iframe[src*='recaptcha'][src*='bframe']");
    let open = !!frame;
    for (let el = frame; open && el && el !== document.body; el = el.parentElement) {
      const cs = getComputedStyle(el);
      if (cs.visibility === "hidden" || cs.display === "none" || el.getBoundingClientRect().top < -1000) open = false;
    }
    if (open === full || location.hash.startsWith("#" + TOKEN)) return;
    full = open;
    document.documentElement.classList.toggle("kz-full", full);
    location.hash = full ? FULL : REGION;
  };

  let rendered = false;
  const render = () => {
    if (rendered) return;
    const ent = window.grecaptcha && window.grecaptcha.enterprise;
    if (!ent || typeof ent.render !== "function") {
      if (!document.querySelector("script[src*='recaptcha/enterprise.js']")) {
        const s = document.createElement("script");
        s.src = "https://www.google.com/recaptcha/enterprise.js?render=explicit";
        s.async = true;
        document.head.appendChild(s);
      }
      setTimeout(render, 200);
      return;
    }
    ent.ready(() => {
      if (rendered) return;
      rendered = true;
      root.querySelector("#kz-cap-hint").textContent = "請勾選「我不是機器人」";
      ent.render(root.querySelector("#kz-cap-box"), {
        sitekey: SITE_KEY,
        theme: DARK ? "dark" : "light",
        callback: (token) => { location.hash = TOKEN + token; },
      });
    });
  };

  if (document.readyState === "loading") {
    document.addEventListener("DOMContentLoaded", mount, { once: true });
  } else {
    mount();
  }
})();"##;

} // verus!
