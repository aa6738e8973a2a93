//! GamaPass login carried out in a window the user does not see: what the
//! driving script is given, what it reports, and when the login is over.
use crate::overlay::BROWSER_ARGS;
use crate::text::{
    chars_of, concat, eq_ignore_ascii_case, eq_ignore_case, join, join_strs, push_char, push_str,
    replace_first, replace_first_spec, replace_spec, replace_str, split_pat, split_str, str_eq,
    string_of,
};
use vstd::prelude::*;

verus! {

/// Cancellation of logins. A login holds the count it started under (its
/// ticket) and gives up once the count has moved, which is how a cancel
/// reaches a login that has not opened its window yet.
#[derive(Debug)]
pub struct Cancels {
    count: u64,
}

impl View for Cancels {
    type V = u64;

    closed spec fn view(&self) -> u64 {
        self.count
    }
}

impl Cancels {
    /// No cancel yet.
    pub fn new() -> (r: Cancels)
        ensures
            r@ == 0,
    {
        Cancels { count: 0 }
    }

    /// What a login must hold from its very first step, before any network
    /// call, so that a cancel during those calls is not lost.
    pub fn ticket(&self) -> (r: u64)
        ensures
            r == self@,
    {
        self.count
    }

    /// Give up every login in progress.
    pub fn cancel(&mut self)
        ensures
            final(self)@ == after_cancel(old(self)@),
    {
        self.count = if self.count == u64::MAX {
            0
        } else {
            self.count + 1
        };
    }
}

/// The count after one cancel: one more, wrapping past the largest count.
pub open spec fn after_cancel(count: u64) -> u64 {
    if count == u64::MAX {
        0
    } else {
        (count + 1) as u64
    }
}

/// The count after `k` cancels; nothing else moves it.
pub open spec fn after_cancels(count: u64, k: nat) -> u64
    decreases k,
{
    if k == 0 {
        count
    } else {
        after_cancel(after_cancels(count, (k - 1) as nat))
    }
}

/// Cancels add up: after `k` of them a ticket has moved on by `k`, wrapping
/// like `u64::wrapping_add`, so a ticket taken before any number of cancels
/// short of a full turn of the counter is no longer good.
pub proof fn law_cancels_add_up(count: u64, k: nat)
    ensures
        after_cancels(count, k) as int == (count as int + k) % 0x1_0000_0000_0000_0000int,
        1 <= k < 0x1_0000_0000_0000_0000int ==> after_cancels(count, k) != count,
    decreases k,
{
    if k > 0 {
        law_cancels_add_up(count, (k - 1) as nat);
        let m = 0x1_0000_0000_0000_0000int;
        let x = after_cancels(count, (k - 1) as nat) as int;
        assert(x == (count as int + k - 1) % m);
        vstd::arithmetic::div_mod::lemma_add_mod_noop(count as int + k - 1, 1, m);
        assert(1int % m == 1);
        assert(x < m);
        assert((x + 1) % m == if x + 1 == m { 0 } else { x + 1 }) by {
            if x + 1 == m {
                vstd::arithmetic::div_mod::lemma_mod_self_0(m);
            } else {
                vstd::arithmetic::div_mod::lemma_small_mod((x + 1) as nat, m as nat);
            }
        }
        if 1 <= k < m {
            let t = count as int;
            if t + k < m {
                vstd::arithmetic::div_mod::lemma_small_mod((t + k) as nat, m as nat);
            } else {
                vstd::arithmetic::div_mod::lemma_mod_sub_multiples_vanish(t + k - m, m);
                vstd::arithmetic::div_mod::lemma_small_mod((t + k - m) as nat, m as nat);
                assert(t + k - m + m == t + k);
            }
        }
    }
}

/// A ticket taken before a cancel is no longer good after it.
pub proof fn law_cancel_voids_tickets(before: u64, after: u64)
    requires
        after == (if before == u64::MAX {
            0
        } else {
            (before + 1) as u64
        }),
    ensures
        before != after,
{
}

/// What the script should put into Gamania's form.
#[derive(Debug, Clone, PartialEq, Eq)]
pub struct Fill {
    pub account: String,
    pub password: String,
    /// An account being added rather than one already remembered here: its
    /// password has never been checked, so the remembered-account list is
    /// passed over and the password page signs it in.
    pub fresh: bool,
}

/// Where the login stands, as far as the person is concerned.
#[derive(Debug, Clone, PartialEq, Eq)]
pub enum Stage {
    /// The script is getting on with it; nothing to do.
    Working,
    /// Gamania sent a verification code and is waiting for it. `error` is what
    /// their page said about the last one; `attempt` counts the codes typed.
    Code { sent_to: String, error: String, attempt: u32 },
    /// The script has let go; the window is out and the page is the user's.
    User,
}

/// [`Stage`] with its texts as character sequences.
pub enum StageModel {
    Working,
    Code(Seq<char>, Seq<char>, u32),
    User,
}

impl View for Stage {
    type V = StageModel;

    open spec fn view(&self) -> StageModel {
        match self {
            Stage::Working => StageModel::Working,
            Stage::Code { sent_to, error, attempt } => StageModel::Code(sent_to@, error@, *attempt),
            Stage::User => StageModel::User,
        }
    }
}

/// Whether two stages are the same.
pub fn same_stage(a: &Stage, b: &Stage) -> (r: bool)
    ensures
        r == (a@ == b@),
{
    match (a, b) {
        (Stage::Working, Stage::Working) => true,
        (Stage::User, Stage::User) => true,
        (Stage::Code { sent_to: s1, error: e1, attempt: a1 }, Stage::Code { sent_to: s2, error: e2, attempt: a2 }) => {
            str_eq(s1.as_str(), s2.as_str()) && str_eq(e1.as_str(), e2.as_str()) && *a1 == *a2
        },
        _ => false,
    }
}

/// A copy of a stage.
fn copy_stage(s: &Stage) -> (r: Stage)
    ensures
        r@ == s@,
{
    match s {
        Stage::Working => Stage::Working,
        Stage::Code { sent_to, error, attempt } => Stage::Code { sent_to: sent_to.clone(), error: error.clone(), attempt: *attempt },
        Stage::User => Stage::User,
    }
}

/// What the script says about itself each time it is asked.
#[derive(Debug, Clone, PartialEq, Eq)]
pub struct Report {
    pub stage: Stage,
    /// The password has been submitted to Gamania's password page.
    pub sent: bool,
}

/// How a login ended.
#[derive(Debug, Clone, PartialEq, Eq)]
pub enum Outcome {
    /// Signed in, with every cookie the window ended up with. `password_checked`
    /// says Gamania itself accepted the password on the way: the script
    /// submitted it and the user never took over.
    Completed { token: String, cookies: Vec<(String, String)>, password_checked: bool },
    /// Cancelled, or nothing happened for too long.
    Cancelled,
}

/// What one look at the window concluded.
#[derive(Debug, Clone, PartialEq, Eq)]
pub enum WatchStep {
    /// The login went through.
    Done(Outcome),
    /// The stage moved on; `came_out` when the user has to take over now, and
    /// the window is to be laid over the login page.
    Changed { came_out: bool },
    /// Nothing new.
    Same,
}

/// The watch over a login in progress: where it stands, and whether the
/// password has been submitted.
pub struct Watch {
    stage: Stage,
    password_sent: bool,
}

impl View for Watch {
    type V = (StageModel, bool);

    closed spec fn view(&self) -> (StageModel, bool) {
        (self.stage@, self.password_sent)
    }
}

impl Watch {
    /// A login just started.
    pub fn new() -> (r: Watch)
        ensures
            r@ == (StageModel::Working, false),
    {
        Watch { stage: Stage::Working, password_sent: false }
    }

    /// The stage the login is at.
    pub fn stage(&self) -> (r: Stage)
        ensures
            r@ == self@.0,
    {
        copy_stage(&self.stage)
    }

    /// Take in one look at the window: the token once the window holds one,
    /// and what the script reported. A login with a token is done; its
    /// password counts as checked only if it was submitted and the user never
    /// took over. Once the user has taken over, the window stays theirs.
    pub fn step(&mut self, harvested: Option<(String, Vec<(String, String)>)>, report: Option<Report>) -> (r: WatchStep)
        ensures
            match harvested {
                Some((token, cookies)) => r == WatchStep::Done(Outcome::Completed {
                    token,
                    cookies,
                    password_checked: old(self)@.1 && !(old(self)@.0 is User),
                }) && final(self)@ == old(self)@,
                None => {
                    let sent = old(self)@.1 || (report matches Some(rep) && rep.sent);
                    match report {
                        Some(rep) => if !(old(self)@.0 is User) && rep.stage@ != old(self)@.0 {
                            r == WatchStep::Changed { came_out: rep.stage@ is User } && final(self)@ == (rep.stage@, sent)
                        } else {
                            r == WatchStep::Same && final(self)@ == (old(self)@.0, sent)
                        },
                        None => r == WatchStep::Same && final(self)@ == (old(self)@.0, sent),
                    }
                },
            },
    {
        if let Some((token, cookies)) = harvested {
            let checked = self.password_sent && !matches!(self.stage, Stage::User);
            return WatchStep::Done(Outcome::Completed { token, cookies, password_checked: checked });
        }
        match report {
            None => WatchStep::Same,
            Some(rep) => {
                self.password_sent = self.password_sent || rep.sent;
                if !matches!(self.stage, Stage::User) && !same_stage(&rep.stage, &self.stage) {
                    let came_out = matches!(rep.stage, Stage::User);
                    self.stage = rep.stage;
                    WatchStep::Changed { came_out }
                } else {
                    WatchStep::Same
                }
            },
        }
    }
}

/// Once the user has taken over, no report hands the window back to the script.
pub proof fn law_user_stage_is_final(before: (StageModel, bool), after: (StageModel, bool), report: Option<Report>, r: WatchStep)
    requires
        before.0 is User,
        match report {
            Some(rep) => if !(before.0 is User) && rep.stage@ != before.0 {
                after == (rep.stage@, before.1 || rep.sent)
            } else {
                after == (before.0, before.1 || rep.sent)
            },
            None => after == before,
        },
    ensures
        after.0 is User,
{
}

/// How long a login may sit without finishing, in milliseconds.
pub const TIMEOUT_MS: u64 = 600_000;

/// Whether a login in progress is to be given up: it timed out, or a cancel
/// came since it took its ticket.
pub fn give_up(elapsed_ms: u64, ticket: u64, current: u64) -> (r: bool)
    ensures
        r == (elapsed_ms >= TIMEOUT_MS || ticket != current),
{
    elapsed_ms >= TIMEOUT_MS || ticket != current
}

/// The cookie that is the login.
pub const TOKEN_COOKIE: &'static str = "bfWebToken";

/// The value of the first cookie named like the token, when it is not empty.
pub open spec fn token_among(cookies: Seq<(Seq<char>, Seq<char>)>) -> Option<Seq<char>>
    decreases cookies.len(),
{
    if cookies.len() == 0 {
        None
    } else if eq_ignore_case(cookies[0].0, TOKEN_COOKIE@) {
        if cookies[0].1.len() > 0 {
            Some(cookies[0].1)
        } else {
            None
        }
    } else {
        token_among(cookies.drop_first())
    }
}

/// The token among the cookies read from one address.
pub fn token_in(cookies: &[(String, String)]) -> (r: Option<String>)
    ensures
        r.deep_view() == token_among(cookies.deep_view()),
{
    let ghost all = cookies.deep_view();
    let mut i: usize = 0;
    assert(all.skip(0) =~= all);
    while i < cookies.len()
        invariant
            i <= cookies@.len(),
            all == cookies.deep_view(),
            token_among(all) == token_among(all.skip(i as int)),
        decreases cookies@.len() - i,
    {
        assert(all.skip(i as int)[0] == all[i as int]);
        assert(all[i as int] == (cookies@[i as int].0@, cookies@[i as int].1@));
        if eq_ignore_ascii_case(cookies[i].0.as_str(), TOKEN_COOKIE) {
            if cookies[i].1.as_str().is_empty() {
                return None;
            }
            return Some(cookies[i].1.clone());
        }
        assert(all.skip(i as int).drop_first() =~= all.skip(i + 1));
        i = i + 1;
    }
    None
}

/// This login's token: the token, unless it is the one the reused window
/// already held when the login began.
pub fn fresh_token(cookies: &[(String, String)], stale: Option<&str>) -> (r: Option<String>)
    ensures
        r.deep_view() == match token_among(cookies.deep_view()) {
            Some(t) => if stale matches Some(s) && s@ == t {
                None
            } else {
                Some(t)
            },
            None => None,
        },
{
    let token = token_in(cookies);
    match token {
        Some(t) => {
            if let Some(s) = stale {
                if str_eq(s, t.as_str()) {
                    return None;
                }
            }
            Some(t)
        },
        None => None,
    }
}

/// `all` followed by each cookie of `more` whose name it does not have yet.
pub open spec fn merged(all: Seq<(Seq<char>, Seq<char>)>, more: Seq<(Seq<char>, Seq<char>)>) -> Seq<(Seq<char>, Seq<char>)>
    decreases more.len(),
{
    if more.len() == 0 {
        all
    } else {
        let next = if exists|i: int| 0 <= i < all.len() && (#[trigger] all[i]).0 == more[0].0 {
            all
        } else {
            all.push(more[0])
        };
        merged(next, more.drop_first())
    }
}

/// Add the cookies read from a further address to those gathered so far,
/// keeping the first of each name.
pub fn merge_cookies(all: &mut Vec<(String, String)>, more: &[(String, String)])
    ensures
        final(all).deep_view() == merged(old(all).deep_view(), more.deep_view()),
{
    let ghost rest_all = more.deep_view();
    let mut i: usize = 0;
    assert(rest_all.skip(0) =~= rest_all);
    while i < more.len()
        invariant
            i <= more@.len(),
            rest_all == more.deep_view(),
            merged(old(all).deep_view(), rest_all) == merged(all.deep_view(), rest_all.skip(i as int)),
        decreases more@.len() - i,
    {
        let ghost cur = all.deep_view();
        assert(rest_all.skip(i as int)[0] == rest_all[i as int]);
        assert(rest_all[i as int] == (more@[i as int].0@, more@[i as int].1@));
        assert(rest_all.skip(i as int).drop_first() =~= rest_all.skip(i + 1));
        let mut found = false;
        let mut k: usize = 0;
        while k < all.len()
            invariant
                k <= all@.len(),
                cur == all.deep_view(),
                i < more@.len(),
                found == exists|j: int| 0 <= j < k && (#[trigger] cur[j]).0 == more@[i as int].0@,
            decreases all@.len() - k,
        {
            assert(cur[k as int] == (all@[k as int].0@, all@[k as int].1@));
            if str_eq(all[k].0.as_str(), more[i].0.as_str()) {
                found = true;
            }
            k = k + 1;
        }
        if !found {
            all.push((more[i].0.clone(), more[i].1.clone()));
            assert(all.deep_view() =~= cur.push(rest_all[i as int]));
        }
        i = i + 1;
    }
}

/// A lower-case hex digit.
pub open spec fn hex_lower(d: nat) -> char {
    if d < 10 {
        (d + 48) as char
    } else {
        (d + 87) as char
    }
}

/// How serde_json writes one character inside a string literal: `"` and
/// `\` behind a backslash, backspace, tab, line feed, form feed and carriage
/// return as `\b \t \n \f \r`, any other control character below 0x20 as
/// `\u00xx`, everything else as it is.
pub open spec fn json_escape_char(c: char) -> Seq<char> {
    let n = c as u32;
    if c == '"' {
        seq!['\\', '"']
    } else if c == '\\' {
        seq!['\\', '\\']
    } else if n == 8 {
        seq!['\\', 'b']
    } else if n == 9 {
        seq!['\\', 't']
    } else if n == 10 {
        seq!['\\', 'n']
    } else if n == 12 {
        seq!['\\', 'f']
    } else if n == 13 {
        seq!['\\', 'r']
    } else if n < 0x20 {
        seq!['\\', 'u', '0', '0', hex_lower((n / 16) as nat), hex_lower((n % 16) as nat)]
    } else {
        seq![c]
    }
}

/// The characters of `s`, each escaped for a JSON string literal.
pub open spec fn json_escaped(s: Seq<char>) -> Seq<char>
    decreases s.len(),
{
    if s.len() == 0 {
        Seq::empty()
    } else {
        json_escaped(s.drop_last()) + json_escape_char(s.last())
    }
}

/// `serde_json::to_string` of a text: the JSON string literal for it, which
/// writing to memory always produces.
pub open spec fn json_quote_spec(s: Seq<char>) -> Option<Seq<char>> {
    Some(seq!['"'] + json_escaped(s) + seq!['"'])
}

/// `serde_json::to_string(s)`.
#[verifier::external_body]
fn json_quote(s: &str) -> (r: Option<String>)
    ensures
        r.deep_view() == json_quote_spec(s@),
{
    serde_json::to_string(s).ok()
}

/// A text as a JavaScript string literal; `""` if it could not be written.
pub open spec fn js_string_spec(s: Seq<char>) -> Seq<char> {
    match json_quote_spec(s) {
        Some(j) => j,
        None => "\"\""@,
    }
}

pub(crate) fn js_string(s: &str) -> (r: String)
    ensures
        r@ == js_string_spec(s@),
{
    match json_quote(s) {
        Some(j) => j,
        None => "\"\"".to_owned(),
    }
}

/// The script with the form's values in place: `__FRESH__` first, then the
/// template is cut at each `__ACCOUNT__`, `__PASSWORD__` is filled in each
/// piece, and the pieces are joined with the account. The account's text is
/// thus never scanned for placeholders.
pub open spec fn init_script_spec(fill: Fill) -> Seq<char> {
    let template = replace_spec(AUTOFILL_JS@, "__FRESH__"@, if fill.fresh {
        "true"@
    } else {
        "false"@
    });
    let pw = js_string_spec(fill.password@);
    join(
        split_pat(template, "__ACCOUNT__"@, 0).map_values(|part: Seq<char>| replace_spec(part, "__PASSWORD__"@, pw)),
        js_string_spec(fill.account@),
    )
}

/// The script the login window runs on every document it loads.
pub fn init_script(fill: &Fill) -> (r: String)
    ensures
        r@ == init_script_spec(*fill),
{
    proof {
        reveal_strlit("__FRESH__");
        reveal_strlit("__ACCOUNT__");
        reveal_strlit("__PASSWORD__");
    }
    let account = js_string(fill.account.as_str());
    let password = js_string(fill.password.as_str());
    let template = replace_str(AUTOFILL_JS, "__FRESH__", if fill.fresh {
        "true"
    } else {
        "false"
    });
    let pieces = split_str(template.as_str(), "__ACCOUNT__");
    let ghost ps = pieces.deep_view();
    let mut filled: Vec<String> = Vec::new();
    let mut i: usize = 0;
    while i < pieces.len()
        invariant
            i <= pieces@.len(),
            ps == pieces.deep_view(),
            filled@.len() == i,
            filled.deep_view() == ps.map_values(|part: Seq<char>| replace_spec(part, "__PASSWORD__"@, password@)).take(i as int),
            "__PASSWORD__"@.len() > 0,
        decreases pieces@.len() - i,
    {
        assert(ps[i as int] == pieces@[i as int]@);
        let piece = replace_str(pieces[i].as_str(), "__PASSWORD__", password.as_str());
        filled.push(piece);
        i = i + 1;
        assert(filled.deep_view() =~= ps.map_values(|part: Seq<char>| replace_spec(part, "__PASSWORD__"@, password@)).take(i as int));
    }
    assert(ps.map_values(|part: Seq<char>| replace_spec(part, "__PASSWORD__"@, password@)).take(pieces@.len() as int)
        =~= ps.map_values(|part: Seq<char>| replace_spec(part, "__PASSWORD__"@, password@)));
    join_strs(filled.as_slice(), account.as_str())
}

/// Chromium flags keeping the page running at full speed while it is parked
/// off screen.
pub const KEEP_AWAKE_ARGS: &'static str = "--disable-backgrounding-occluded-windows --disable-renderer-backgrounding";

/// The occlusion feature that has to be switched off too; Chromium takes a
/// single `--disable-features` list, so it joins the shared one.
pub const KEEP_AWAKE_FEATURE: &'static str = "CalculateNativeWinOcclusion";

/// The login window's browser flags: the shared ones with the occlusion
/// feature added to their one feature list, then the keep-awake flags.
pub open spec fn browser_args_spec() -> Seq<char> {
    replace_first_spec(BROWSER_ARGS@, "--disable-features="@, "--disable-features="@ + KEEP_AWAKE_FEATURE@ + ","@) + " "@
        + KEEP_AWAKE_ARGS@
}

/// The login window's browser flags.
pub fn browser_args() -> (r: String)
    ensures
        r@ == browser_args_spec(),
{
    let mut with_feature = concat("--disable-features=", KEEP_AWAKE_FEATURE);
    push_str(&mut with_feature, ",");
    let mut r = replace_first(BROWSER_ARGS, "--disable-features=", with_feature.as_str());
    push_str(&mut r, " ");
    push_str(&mut r, KEEP_AWAKE_ARGS);
    r
}

/// The digits of what was typed as a verification code.
pub open spec fn digits_of(code: Seq<char>) -> Seq<char>
    decreases code.len(),
{
    if code.len() == 0 {
        Seq::empty()
    } else {
        digits_of(code.drop_last()) + if '0' <= code.last() && code.last() <= '9' {
            seq![code.last()]
        } else {
            Seq::empty()
        }
    }
}

/// The call that types a verification code into Gamania's page: only its
/// digits go in, and a code without any is refused.
pub fn code_call(code: &str) -> (r: Result<String, String>)
    ensures
        digits_of(code@).len() == 0 ==> (r matches Err(m) && m@ == "請輸入驗證碼"@),
        digits_of(code@).len() > 0 ==> (r matches Ok(s) && s@ == "window.__kzCode && window.__kzCode(\""@ + digits_of(code@) + "\")"@),
{
    let cs = chars_of(code);
    let mut digits = String::new();
    let mut i: usize = 0;
    while i < cs.len()
        invariant
            i <= cs@.len(),
            cs@ == code@,
            digits@ == digits_of(code@.take(i as int)),
        decreases cs@.len() - i,
    {
        assert(code@.take(i + 1).drop_last() =~= code@.take(i as int));
        if '0' <= cs[i] && cs[i] <= '9' {
            push_char(&mut digits, cs[i]);
        }
        i = i + 1;
        assert(digits@ =~= digits_of(code@.take(i as int)));
    }
    assert(code@.take(cs@.len() as int) =~= code@);
    if digits.as_str().is_empty() {
        return Err("請輸入驗證碼".to_owned());
    }
    let mut call = concat("window.__kzCode && window.__kzCode(\"", digits.as_str());
    push_str(&mut call, "\")");
    Ok(call)
}

/// Label prefix of a login window.
pub const LABEL_PREFIX: &'static str = "gamapass-";

/// Drives Gamania's pages with what the user typed into ours. Every tick it
/// looks at where the page is and does the one thing that page needs;
/// whatever it does not recognise it reports as `user` and leaves alone.
pub const AUTOFILL_JS: &'static str = r##"(() => {
  const ON_BEANFUN = location.hostname === "login.beanfun.com";
  const ON_GAMANIA = location.hostname === "accounts.gamania.com";
  if (!ON_BEANFUN && !ON_GAMANIA) return;

  const ACC = __ACCOUNT__;
  const PW = __PASSWORD__;
  // 新增的帳號：密碼還沒被對方驗過，不走「點一下就進去」那條。
  const FRESH = __FRESH__;
  if (!ACC || !PW) return;

  // passkey 在這裡一律婉拒，等同使用者在系統的框上按取消：用它登入不會被記住，
  // 而且這顆視窗在畫面外，系統的框會憑空冒出來。開了 passkey 優先的帳號會因此
  // 走到對方的替代驗證，那一頁交給使用者。
  try {
    if (navigator.credentials) {
      const refuse = () => Promise.reject(new DOMException("declined", "NotAllowedError"));
      navigator.credentials.get = refuse;
      navigator.credentials.create = refuse;
    }
    if (window.PublicKeyCredential) {
      PublicKeyCredential.isConditionalMediationAvailable = () => Promise.resolve(false);
    }
  } catch (e) {}

  const recall = (k) => { try { return sessionStorage.getItem(k); } catch (e) { return null; } };
  const note = (k, v) => { try { sessionStorage.setItem(k, v); } catch (e) {} };

  // offsetParent 對 fixed 定位的元素一律是 null，改看有沒有實際畫出來的方框。
  const visible = (el) => !!el && !el.disabled && el.getClientRects().length > 0;
  const inputs = (types) => [...document.querySelectorAll("input")].filter(
    (i) => visible(i) && types.includes((i.type || "").toLowerCase()));
  const passwordField = () => inputs(["password"])[0];
  const accountField = () => inputs(["text", "tel", "email"])[0];
  const codeBoxes = () => [...document.querySelectorAll(".input-verification-code input")].filter(visible);

  // 直接指定 value，框架的狀態不會跟著動——畫面上看得到字，它內部還當成空的，
  // 於是「下一步」一直是停用的，按了也沒反應。execCommand 走的是真正的輸入路徑，
  // 事件跟使用者打字時長得一樣；不支援時再退回指定 value 並自己發事件。
  const fill = (el, value) => {
    el.focus();
    el.select && el.select();
    let ok = false;
    try { ok = document.execCommand("insertText", false, value); } catch (e) {}
    if (!ok || el.value !== value) {
      const setter = Object.getOwnPropertyDescriptor(Object.getPrototypeOf(el), "value");
      if (setter && setter.set) setter.set.call(el, value);
      else el.value = value;
      el.dispatchEvent(new Event("input", { bubbles: true }));
    }
    el.dispatchEvent(new Event("change", { bubbles: true }));
    // 對方可能會重排格式（去空白、補國碼），所以只看有沒有收下，不比對全文。
    return el.value !== "";
  };

  // 停用中的按鈕點了也沒用，而且它停用通常代表「欄位的值它還沒收到」——那時候
  // 該做的是重填，不是一直點。這些頁面用 class 表示停用，不是 disabled 屬性。
  const disabled = (el) => {
    for (let n = el; n && n !== document.body; n = n.parentElement) {
      if (n.disabled || n.getAttribute("aria-disabled") === "true") return true;
      if (/(^|\s)(is-)?disabled(\s|$)/i.test(n.className || "")) return true;
    }
    return false;
  };

  // 有些元件聽的是按下去那一刻（pointerdown／mousedown），只送 click 不會動。
  const press = (el) => {
    const opts = { bubbles: true, cancelable: true, view: window };
    try { el.dispatchEvent(new PointerEvent("pointerdown", opts)); } catch (e) {}
    el.dispatchEvent(new MouseEvent("mousedown", opts));
    try { el.dispatchEvent(new PointerEvent("pointerup", opts)); } catch (e) {}
    el.dispatchEvent(new MouseEvent("mouseup", opts));
    el.click();
  };

  // 兩邊的按鈕都不見得是 <button>，所以不限標籤，找「文字對得上、而且自己底下
  // 沒有更小的元素也對得上」的那一層——最貼著文字的那層。點它，事件照樣冒泡到
  // 綁著 click 的外層。`exact` 是給短標籤用的：「登入」兩個字到處都是。
  const labelled = (text, exact) => {
    const want = text.toLowerCase();
    const hit = (el) => {
      const t = (el.textContent || "").trim().toLowerCase();
      return exact ? t === want : t.includes(want);
    };
    const all = [...document.querySelectorAll("button, [role=button], a, div, span, li, label")]
      .filter((el) => visible(el) && hit(el))
      .filter((el) => ![...el.children].some(hit))
      .filter((el) => !disabled(el));
    const looksClickable = (el) =>
      el.tagName === "BUTTON" || el.tagName === "A" || el.getAttribute("role") === "button" ||
      /btn|button/i.test(el.className || "") ||
      getComputedStyle(el).cursor === "pointer";
    return all.find(looksClickable) || all[all.length - 1] || null;
  };
  // 同一顆按鈕不連按：一次沒反應多半是頁面還在忙，連按等於多送幾次請求。
  const pressOnce = (key, el, every) => {
    if (!el) return false;
    const at = Number(recall(key) || 0);
    if (at && Date.now() - at < (every || 2500)) return true;
    note(key, String(Date.now()));
    press(el);
    return true;
  };

  // 現身之後使用者看得到這一行，所以直接告訴他為什麼輪到他。
  const say = (text) => {
    let tag = document.getElementById("__kz_tag");
    if (!tag) {
      if (!document.body) return;
      tag = document.createElement("div");
      tag.id = "__kz_tag";
      tag.setAttribute("style",
        "position:fixed;left:0;right:0;top:0;z-index:2147483000;padding:6px 10px;" +
        "background:#131924;color:#3dd6c3;font:12px/1.5 system-ui,sans-serif;" +
        "text-align:center;pointer-events:none");
      document.body.appendChild(tag);
    }
    if (tag.textContent !== text) tag.textContent = text;
  };

  const report = (stage, extra) => {
    window.__kz = Object.assign({ stage, sent: !!recall("__kz_sent") }, extra || {});
  };
  report("working");

  // 放手：之後這一頁是使用者的。passkey 的推銷照樣替他婉拒——那是唯一一個
  // 按錯了就回不來的地方。
  let handedOver = false;
  const handOver = (why) => { handedOver = true; say(why); report("user"); };

  // 登入成功後對方會問要不要改用 passkey。答應了，這個帳號以後就只走 passkey，
  // 再也到不了密碼那一頁，也就再也不會被記住。
  const declinePasskey = () => {
    const keep = labelled("繼續使用密碼", true);
    if (keep) return pressOnce("__kz_keep_pw", keep);
    const later = labelled("稍後再說", true);
    if (!later) return false;
    for (let n = later.parentElement; n && n !== document.body; n = n.parentElement) {
      if (/passkey/i.test(n.textContent || "")) return pressOnce("__kz_later", later);
    }
    return false;
  };

  // 清單上的帳號是遮起來的（`+886 922 *** *93`）。把星號當成缺口：剩下的幾段
  // 依序對得上帳號的頭跟尾，就是它。手機號碼對方會換成國碼開頭。
  const forms = (() => {
    const a = ACC.trim().toLowerCase();
    const out = [a];
    if (/^09\d{8}$/.test(a)) out.push("+886" + a.slice(1));
    return out;
  })();
  const matchesMask = (shown) => {
    const mask = shown.replace(/\s+/g, "").toLowerCase();
    const parts = mask.split(/\*+/).filter(Boolean);
    if (!parts.length) return false;
    return forms.some((form) => {
      // 頭尾沒被遮住的那一端才要求貼齊。
      if (!mask.startsWith("*") && !form.startsWith(parts[0])) return false;
      if (!mask.endsWith("*") && !form.endsWith(parts[parts.length - 1])) return false;
      let from = 0;
      for (const part of parts) {
        const at = form.indexOf(part, from);
        if (at < 0) return false;
        from = at + part.length;
      }
      return true;
    });
  };
  const rememberedRow = () => {
    const rows = [...document.querySelectorAll("#main [role=button]")].filter(visible).filter((row) =>
      [...row.querySelectorAll("*")].some((el) =>
        !el.children.length && (el.textContent || "").includes("*") && matchesMask(el.textContent)));
    // 兩列都對得上就不猜：寧可走一次密碼，也不要登進別人的帳號。
    return rows.length === 1 ? rows[0] : null;
  };

  // 圖形驗證的框是 reCAPTCHA 自己排的（約 400×580），常被擺到畫面外；把它固定在
  // 視窗正中並等比縮到放得進去（同 captcha 視窗的做法）。
  const challenge = () => {
    const frame = document.querySelector("iframe[src*='recaptcha'][src*='bframe']");
    return frame && frame.offsetWidth && frame.offsetHeight ? frame : null;
  };
  const fitChallenge = (frame) => {
    const w = frame.offsetWidth, h = frame.offsetHeight, m = 6;
    const vw = window.innerWidth, vh = window.innerHeight;
    const k = Math.min(1, (vw - m * 2) / w, (vh - m * 2) / h);
    const set = (prop, value) => frame.style.setProperty(prop, value, "important");
    set("position", "fixed");
    set("left", Math.round((vw - w * k) / 2) + "px");
    set("top", Math.round((vh - h * k) / 2) + "px");
    set("transform", "scale(" + k + ")");
    set("transform-origin", "0 0");
  };

  // 驗證碼由我們的頁面問，問到了從這裡打進去。第一格收到整串數字時，對方的
  // 元件會自己分到四格裡。
  window.__kzCode = (code) => {
    const box = codeBoxes()[0];
    if (!box) return;
    note("__kz_code_at", String(Date.now()));
    note("__kz_code_n", String(Number(recall("__kz_code_n") || 0) + 1));
    fill(box, code);
  };
  const codeError = () => {
    const el = document.querySelector(".input-verification-code .color-red");
    return el ? (el.textContent || "").trim() : "";
  };
  const codeSentTo = () => {
    const el = [...document.querySelectorAll("#main div, #header div")].find((d) =>
      visible(d) && !d.children.length && /^\+?[\d\s*]{6,}$|@/.test((d.textContent || "").trim()));
    return el ? el.textContent.trim() : "";
  };

  // 同一頁待太久就是卡住了：可能是密碼錯、可能是沒見過的畫面。
  let where = "", since = Date.now();
  const stuck = (key, limit) => {
    if (key !== where) { where = key; since = Date.now(); }
    return Date.now() - since > limit;
  };

  setInterval(() => {
    const frame = ON_GAMANIA && challenge();
    if (frame) fitChallenge(frame);
    if (ON_GAMANIA && declinePasskey()) return;
    if (handedOver) return;
    if (frame) return handOver("請完成圖形驗證");

    const path = location.pathname.replace(/\/+$/, "").toLowerCase();

    // beanfun 的登入頁：按下它自己的「使用 gamapass」，讓它用自己的 session 去
    // 要跳轉網址。我們代打的話，回程的 nonce 會對不起來。
    if (ON_BEANFUN) {
      if (path !== "/login/index") {
        // 登完繞回來會經過這個網域；停在這裡不走，就是 beanfun 不收這次登入。
        if (stuck("bf:" + path, 8000)) handOver("beanfun 沒有完成這次登入");
        return;
      }
      // 多按幾次等於多跟它要幾組跳轉網址，所以有上限，到頂就交給使用者。
      const tries = Number(recall("__kz_goto_n") || 0);
      const at = Number(recall("__kz_goto_at") || 0);
      if (at && Date.now() - at < 3500) return;
      if (tries >= 3) return handOver("按不動「使用 gamapass」，請你自己點");
      const go = document.querySelector(".use-gama-pass") || labelled("gamapass");
      if (go && visible(go)) {
        note("__kz_goto_at", String(Date.now()));
        note("__kz_goto_n", String(tries + 1));
        press(go);
      }
      return;
    }

    // 對方跳了一個要人按「確定」的框：密碼錯、驗證碼過期、帳號被鎖、或別的我們
    // 沒料到的話。不替使用者按掉——那些字是寫給他看的。選帳號頁的「已過期」是
    // 例外，那個我們知道怎麼接。
    const notice = [...document.querySelectorAll("[role=dialog], .el-message-box")].find(visible);
    if (notice && path !== "/login/select-account" && labelled("確定", true)) {
      return handOver("請看畫面上的訊息");
    }

    // 要驗證碼：哪一頁問的都一樣處理。剛送出的那幾秒不回報，免得舊的錯誤訊息
    // 還掛在畫面上就被當成這一次的結果。
    if (codeBoxes().length) {
      if (Date.now() - Number(recall("__kz_code_at") || 0) < 2500) return;
      return report("code", {
        sentTo: codeSentTo(), error: codeError(), attempt: Number(recall("__kz_code_n") || 0),
      });
    }
    report("working");

    if (path === "/login/select-account") {
      // 記住的那一筆過期了，對方會跳一個框說要重新登入；按掉它就回到登入頁。
      if (/已過期/.test(document.body.textContent || "")) {
        const ok = labelled("確定", true);
        if (ok) { note("__kz_expired", "1"); return void pressOnce("__kz_expired_ok", ok); }
      }
      const row = FRESH || recall("__kz_expired") ? null : rememberedRow();
      if (row) { pressOnce("__kz_row", row, 6000); }
      else if (document.querySelector("#main [role=button]")) {
        pressOnce("__kz_other", labelled("使用其他帳號登入"));
      }
      if (stuck(path, 20000)) handOver("選不到帳號，請你自己點");
      return;
    }

    if (path === "/login") {
      // 先看卡住了沒：下面每一步做不成都是直接 return，輪不到後面的檢查。
      if (stuck(path, 15000)) {
        return handOver(recall("__kz_next")
          ? "這個帳號可能開了 passkey 優先：請改用驗證碼登入，之後到會員中心關掉它"
          : "這一步請你自己來");
      }
      const acc = accountField();
      if (acc && (!recall("__kz_acc") || !acc.value)) {
        if (fill(acc, ACC)) note("__kz_acc", "1");
        return;
      }
      // 沒勾這個，對方就不會記住這台裝置，下次又得從頭驗一遍。
      const keep = [...document.querySelectorAll("[role=checkbox]")].find(
        (el) => visible(el) && /保持登入/.test(el.textContent || ""));
      // 不連按：狀態晚一拍才反映的話，連按會把它又切回去。
      if (keep && keep.getAttribute("aria-checked") !== "true") return void pressOnce("__kz_keep", keep, 1200);
      if (acc) pressOnce("__kz_next", labelled("下一步", true));
      return;
    }

    if (path === "/login/input-password") {
      const pw = passwordField();
      if (!recall("__kz_sent")) {
        if (pw && fill(pw, PW)) {
          const go = labelled("登入", true);
          if (go) { note("__kz_sent", "1"); press(go); }
        }
      }
      // 送出後還留在這一頁：密碼不對，或是對方有話要說。
      if (stuck(path, 10000)) handOver("登入沒有成功，請看畫面上的訊息");
      return;
    }

    // 其餘的頁面（授權中轉、登入完成的過場）只是路過。停太久才是有事。
    if (stuck(path, 15000)) handOver("這一步請你自己來");
  }, 300);
})();"##;

} // verus!
