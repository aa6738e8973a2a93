//! Reading beanfun's HTML pages: entity decoding, the game account list, the
//! hidden form fields and the launch data.
use crate::beanfun::types::{parse_error, BeanfunError, GameAccount, InitLogin, LoginPage, QrInit, QrPollOutcome};
use crate::matching::{
    capture, first_group, group, group_of, is_match, regex_all, regex_matches, well_placed,
    RegexMatch,
};
use crate::text::{
    chars_of, clip, clip_spec, concat, parse_u32_spec, push_char, push_slice, push_str, scalar,
    str_eq, str_parse_u32, substring, char_from_u32,
};
use vstd::prelude::*;

verus! {

/// Numeric (`&#x..;`, `&#..;`) and the six named HTML entities.
pub const ENTITY_RE: &'static str = "&#(?:x([0-9a-fA-F]+)|([0-9]+));|&(amp|lt|gt|quot|apos|nbsp);";

/// One row of `game_server_account_list.aspx`; disabled rows (no dialog) do not match.
pub const GAME_ROW_RE: &'static str = "<div id=\"(\\w+)\" sn=\"(\\d+)\" name=\"([^\"]+)\"[^>]*onclick=\"GameAccount\\.ShowEditAcountDialog";

/// The text a numeric entity stands for: its character, or nothing when the
/// number is not a valid code point.
pub open spec fn code_text(code: Option<u32>) -> Seq<char> {
    match code {
        Some(c) => if scalar(c) {
            seq![c as char]
        } else {
            Seq::empty()
        },
        None => Seq::empty(),
    }
}

/// The character a named entity stands for.
pub open spec fn named_entity(name: Seq<char>, whole: Seq<char>) -> Seq<char> {
    if name == "amp"@ {
        seq!['&']
    } else if name == "lt"@ {
        seq!['<']
    } else if name == "gt"@ {
        seq!['>']
    } else if name == "quot"@ {
        seq!['"']
    } else if name == "apos"@ {
        seq!['\'']
    } else if name == "nbsp"@ {
        seq!['\u{00A0}']
    } else {
        whole
    }
}

/// What one entity match is replaced by.
pub open spec fn entity_text(groups: Seq<Option<Seq<char>>>, whole: Seq<char>) -> Seq<char> {
    match group(groups, 1) {
        Some(h) => code_text(parse_u32_spec(h, 16)),
        None => match group(groups, 2) {
            Some(d) => code_text(parse_u32_spec(d, 10)),
            None => match group(groups, 3) {
                Some(n) => named_entity(n, whole),
                None => Seq::empty(),
            },
        },
    }
}

/// Where the text after match `k - 1` starts (0 before the first match).
pub open spec fn end_before(ms: Seq<(int, int, Seq<Option<Seq<char>>>)>, k: int) -> int {
    if k <= 0 {
        0
    } else {
        ms[k - 1].1
    }
}

/// The decoded text up to the end of match `k - 1`.
pub open spec fn decoded_upto(s: Seq<char>, ms: Seq<(int, int, Seq<Option<Seq<char>>>)>, k: nat) -> Seq<char>
    decreases k,
{
    if k == 0 {
        Seq::empty()
    } else {
        let m = ms[k - 1];
        decoded_upto(s, ms, (k - 1) as nat) + s.subrange(end_before(ms, k - 1), m.0) + entity_text(
            m.2,
            s.subrange(m.0, m.1),
        )
    }
}

/// `s` with every entity replaced by what it stands for.
pub open spec fn html_decode_spec(s: Seq<char>) -> Seq<char> {
    let ms = regex_matches(ENTITY_RE@, s);
    decoded_upto(s, ms, ms.len()) + s.subrange(end_before(ms, ms.len() as int), s.len() as int)
}

/// The character of a parsed code, if it is one.
fn code_string(code: Option<u32>) -> (r: String)
    ensures
        r@ == code_text(code),
{
    let mut r = String::new();
    if let Some(c) = code {
        if let Some(ch) = char_from_u32(c) {
            push_char(&mut r, ch);
            assert(r@ =~= seq![c as char]);
        } else {
            assert(r@ =~= Seq::<char>::empty());
        }
    } else {
        assert(r@ =~= Seq::<char>::empty());
    }
    r
}

/// The character of a named entity.
fn named_string(name: &str, whole: &str) -> (r: String)
    ensures
        r@ == named_entity(name@, whole@),
{
    let one = |c: char| -> (r: String)
        ensures
            r@ == seq![c],
        {
            let mut r = String::new();
            push_char(&mut r, c);
            assert(r@ =~= seq![c]);
            r
        };
    if str_eq(name, "amp") {
        one('&')
    } else if str_eq(name, "lt") {
        one('<')
    } else if str_eq(name, "gt") {
        one('>')
    } else if str_eq(name, "quot") {
        one('"')
    } else if str_eq(name, "apos") {
        one('\'')
    } else if str_eq(name, "nbsp") {
        one('\u{00A0}')
    } else {
        whole.to_owned()
    }
}

/// What one entity match is replaced by.
fn entity_string(m: &RegexMatch, whole: &str) -> (r: String)
    ensures
        r@ == entity_text(m@.2, whole@),
{
    match group_of(m, 1) {
        Some(h) => code_string(str_parse_u32(h.as_str(), 16)),
        None => match group_of(m, 2) {
            Some(d) => code_string(str_parse_u32(d.as_str(), 10)),
            None => match group_of(m, 3) {
                Some(n) => named_string(n.as_str(), whole),
                None => String::new(),
            },
        },
    }
}

/// Decode the numeric and the six named HTML entities in `s`.
pub fn html_decode(s: &str) -> (r: String)
    ensures
        r@ == html_decode_spec(s@),
{
    let cs = chars_of(s);
    let ms = regex_all(ENTITY_RE, s);
    let ghost views = ms@.map_values(|m: RegexMatch| m@);
    let mut out = String::new();
    let mut last: usize = 0;
    let mut k: usize = 0;
    while k < ms.len()
        invariant
            k <= ms@.len(),
            cs@ == s@,
            views == ms@.map_values(|m: RegexMatch| m@),
            views == regex_matches(ENTITY_RE@, s@),
            well_placed(views, s@),
            last as int == end_before(views, k as int),
            last <= s@.len(),
            out@ == decoded_upto(s@, views, k as nat),
        decreases ms@.len() - k,
    {
        let m = &ms[k];
        assert(views[k as int] == m@);
        proof {
            if k > 0 {
                assert(views[k - 1].1 <= views[k as int].0);
            }
        }
        push_slice(&mut out, cs.as_slice(), last, m.start);
        let whole = substring(cs.as_slice(), m.start, m.end);
        let e = entity_string(m, whole.as_str());
        push_str(&mut out, e.as_str());
        last = m.end;
        k = k + 1;
        assert(out@ =~= decoded_upto(s@, views, k as nat));
    }
    push_slice(&mut out, cs.as_slice(), last, cs.len());
    out
}

/// The account a row match describes, as `(sn, sid, sname)`; rows with an
/// empty field are passed over.
pub open spec fn row_account(groups: Seq<Option<Seq<char>>>) -> Option<(Seq<char>, Seq<char>, Seq<char>)> {
    match (group(groups, 1), group(groups, 2), group(groups, 3)) {
        (Some(sid), Some(sn), Some(name)) => if sid.len() > 0 && sn.len() > 0 && name.len() > 0 {
            Some((sn, sid, html_decode_spec(name)))
        } else {
            None
        },
        _ => None,
    }
}

/// The accounts of the first `k` row matches.
pub open spec fn accounts_upto(ms: Seq<(int, int, Seq<Option<Seq<char>>>)>, k: nat) -> Seq<(Seq<char>, Seq<char>, Seq<char>)>
    decreases k,
{
    if k == 0 {
        Seq::empty()
    } else {
        let prev = accounts_upto(ms, (k - 1) as nat);
        match row_account(ms[k - 1].2) {
            Some(a) => prev.push(a),
            None => prev,
        }
    }
}

/// The enabled accounts of the account-list page, in page order; an error when there is none.
pub open spec fn game_accounts_spec(html: Seq<char>) -> Result<Seq<(Seq<char>, Seq<char>, Seq<char>)>, Seq<char>> {
    let ms = regex_matches(GAME_ROW_RE@, html);
    let accounts = accounts_upto(ms, ms.len());
    if accounts.len() == 0 {
        Err("No game accounts found"@)
    } else {
        Ok(accounts)
    }
}

/// How many of the row matches describe an account.
pub open spec fn enabled_rows(ms: Seq<(int, int, Seq<Option<Seq<char>>>)>) -> nat
    decreases ms.len(),
{
    if ms.len() == 0 {
        0
    } else {
        enabled_rows(ms.drop_last()) + if row_account(ms.last().2) is Some {
            1nat
        } else {
            0nat
        }
    }
}

proof fn lemma_accounts_upto(ms: Seq<(int, int, Seq<Option<Seq<char>>>)>, k: nat)
    requires
        k <= ms.len(),
    ensures
        accounts_upto(ms, k).len() == enabled_rows(ms.take(k as int)),
        forall|j: int|
            0 <= j < k && (#[trigger] row_account(ms[j].2)) is Some ==> enabled_rows(ms.take(j)) < accounts_upto(ms, k).len()
                && accounts_upto(ms, k)[enabled_rows(ms.take(j)) as int] == row_account(ms[j].2).unwrap(),
    decreases k,
{
    if k > 0 {
        lemma_accounts_upto(ms, (k - 1) as nat);
        assert(ms.take(k as int).drop_last() =~= ms.take(k - 1));
        assert(ms.take(k as int).last() == ms[k - 1]);
    } else {
        assert(ms.take(0) =~= Seq::<(int, int, Seq<Option<Seq<char>>>)>::empty());
    }
}

/// Every row of the page that describes an account is listed, once and in
/// page order, with no bound on how many: there are as many accounts as
/// such rows, the row `j` gives the account after those of the rows before
/// it, and a page without such a row is refused.
pub proof fn law_every_enabled_row_is_listed(html: Seq<char>)
    ensures
        ({
            let ms = regex_matches(GAME_ROW_RE@, html);
            match game_accounts_spec(html) {
                Ok(accounts) => enabled_rows(ms) > 0 && accounts.len() == enabled_rows(ms) && forall|j: int|
                    0 <= j < ms.len() && (#[trigger] row_account(ms[j].2)) is Some ==> accounts[enabled_rows(
                        ms.take(j),
                    ) as int] == row_account(ms[j].2).unwrap(),
                Err(_) => enabled_rows(ms) == 0,
            }
        }),
{
    let ms = regex_matches(GAME_ROW_RE@, html);
    lemma_accounts_upto(ms, ms.len());
    assert(ms.take(ms.len() as int) =~= ms);
}

/// Read the enabled game accounts off `game_server_account_list.aspx`.
pub fn parse_game_accounts(html: &str) -> (r: Result<Vec<GameAccount>, BeanfunError>)
    ensures
        match (r, game_accounts_spec(html@)) {
            (Ok(v), Ok(s)) => v@.map_values(|a: GameAccount| a@) == s,
            (Err(e), Err(m)) => parse_error(e, m),
            _ => false,
        },
{
    let ms = regex_all(GAME_ROW_RE, html);
    let ghost views = ms@.map_values(|m: RegexMatch| m@);
    let mut accounts: Vec<GameAccount> = Vec::new();
    let mut k: usize = 0;
    while k < ms.len()
        invariant
            k <= ms@.len(),
            views == ms@.map_values(|m: RegexMatch| m@),
            views == regex_matches(GAME_ROW_RE@, html@),
            accounts@.map_values(|a: GameAccount| a@) == accounts_upto(views, k as nat),
        decreases ms@.len() - k,
    {
        let m = &ms[k];
        assert(views[k as int] == m@);
        let sid = group_of(m, 1);
        let sn = group_of(m, 2);
        let name = group_of(m, 3);
        if let (Some(sid), Some(sn), Some(name)) = (sid, sn, name) {
            if !sid.as_str().is_empty() && !sn.as_str().is_empty() && !name.as_str().is_empty() {
                let account = GameAccount { sn, sid, sname: html_decode(name.as_str()) };
                accounts.push(account);
            }
        }
        k = k + 1;
        assert(accounts@.map_values(|a: GameAccount| a@) =~= accounts_upto(views, k as nat));
    }
    if accounts.len() == 0 {
        return Err(BeanfunError::Parse("No game accounts found".to_owned()));
    }
    Ok(accounts)
}

/// Every `<input ...>` tag.
pub const INPUT_RE: &'static str = "(?is)<input[^>]+>";

/// A tag's `name` attribute.
pub const NAME_RE: &'static str = "(?i)name\\s*=\\s*['\"]([^'\"]+)['\"]";

/// A tag's `value` attribute.
pub const VALUE_RE: &'static str = "(?i)value\\s*=\\s*['\"]([^'\"]*)['\"]";

/// A submit button.
pub const SUBMIT_RE: &'static str = "(?i)type\\s*=\\s*[\"']submit[\"']";

/// The `(name, value)` a tag posts: none for a submit button, nor for a tag
/// missing either attribute.
pub open spec fn posted_field(tag: Seq<char>) -> Option<(Seq<char>, Seq<char>)> {
    if regex_matches(SUBMIT_RE@, tag).len() > 0 {
        None
    } else {
        match (first_group(NAME_RE@, tag, 1), first_group(VALUE_RE@, tag, 1)) {
            (Some(n), Some(v)) => Some((n, v)),
            _ => None,
        }
    }
}

/// The fields posted by the first `k` input tags of `html`.
pub open spec fn fields_upto(html: Seq<char>, ms: Seq<(int, int, Seq<Option<Seq<char>>>)>, k: nat) -> Seq<(Seq<char>, Seq<char>)>
    decreases k,
{
    if k == 0 {
        Seq::empty()
    } else {
        let prev = fields_upto(html, ms, (k - 1) as nat);
        match posted_field(html.subrange(ms[k - 1].0, ms[k - 1].1)) {
            Some(f) => prev.push(f),
            None => prev,
        }
    }
}

/// The form fields of a page, in page order.
pub open spec fn hidden_inputs_spec(html: Seq<char>) -> Seq<(Seq<char>, Seq<char>)> {
    let ms = regex_matches(INPUT_RE@, html);
    fields_upto(html, ms, ms.len())
}

/// The `(name, value)` of every input of a form page except its submit
/// buttons, to be posted back as the page would.
pub fn extract_hidden_inputs(html: &str) -> (r: Vec<(String, String)>)
    ensures
        r.deep_view() == hidden_inputs_spec(html@),
{
    let cs = chars_of(html);
    let ms = regex_all(INPUT_RE, html);
    let ghost views = ms@.map_values(|m: RegexMatch| m@);
    let mut fields: Vec<(String, String)> = Vec::new();
    let mut k: usize = 0;
    while k < ms.len()
        invariant
            k <= ms@.len(),
            cs@ == html@,
            views == ms@.map_values(|m: RegexMatch| m@),
            views == regex_matches(INPUT_RE@, html@),
            well_placed(views, html@),
            fields.deep_view() == fields_upto(html@, views, k as nat),
        decreases ms@.len() - k,
    {
        let m = &ms[k];
        assert(views[k as int] == m@);
        let tag = substring(cs.as_slice(), m.start, m.end);
        if !is_match(SUBMIT_RE, tag.as_str()) {
            if let Some(name) = capture(NAME_RE, tag.as_str(), 1) {
                if let Some(value) = capture(VALUE_RE, tag.as_str(), 1) {
                    fields.push((name, value));
                }
            }
        }
        k = k + 1;
        assert(fields.deep_view() =~= fields_upto(html@, views, k as nat));
    }
    fields
}

/// The pattern for one `"key": "value"` member of the page's `m_objData` literal.
pub open spec fn objdata_pattern(key: Seq<char>) -> Seq<char> {
    "\""@ + key + "\"\\s*:\\s*\"([^\"]*)\""@
}

/// The non-empty value of member `key` of `m_objData`.
pub open spec fn objdata_field(html: Seq<char>, key: Seq<char>) -> Option<Seq<char>> {
    match first_group(objdata_pattern(key), html, 1) {
        Some(v) => if v.len() > 0 {
            Some(v)
        } else {
            None
        },
        None => None,
    }
}

/// `(region, sn, data)` of the launch page, or the message when one is missing.
pub open spec fn objdata_spec(html: Seq<char>) -> Result<(Seq<char>, Seq<char>, Seq<char>), Seq<char>> {
    match (objdata_field(html, "region"@), objdata_field(html, "sn"@), objdata_field(html, "data"@)) {
        (Some(region), Some(sn), Some(data)) => Ok((region, sn, data)),
        _ => Err("遊戲啟動頁沒有 m_objData（beanfun 可能改版）"@),
    }
}

/// The non-empty value of member `key` of `m_objData`.
fn objdata_value(html: &str, key: &str) -> (r: Option<String>)
    ensures
        r.deep_view() == objdata_field(html@, key@),
{
    let mut pattern = concat("\"", key);
    push_str(&mut pattern, "\"\\s*:\\s*\"([^\"]*)\"");
    assert(pattern@ == objdata_pattern(key@));
    match capture(pattern.as_str(), html, 1) {
        Some(v) => if v.as_str().is_empty() {
            None
        } else {
            Some(v)
        },
        None => None,
    }
}

/// `region`, `sn` and `data` of the `var m_objData = {...}` literal on the
/// game start page. Which of the ways a dead session shows up this is, is
/// not guessed here.
pub fn parse_m_objdata(html: &str) -> (r: Result<(String, String, String), BeanfunError>)
    ensures
        match (r, objdata_spec(html@)) {
            (Ok((a, b, c)), Ok((x, y, z))) => a@ == x && b@ == y && c@ == z,
            (Err(e), Err(m)) => parse_error(e, m),
            _ => false,
        },
{
    let region = objdata_value(html, "region");
    let sn = objdata_value(html, "sn");
    let data = objdata_value(html, "data");
    match (region, sn, data) {
        (Some(region), Some(sn), Some(data)) => Ok((region, sn, data)),
        _ => Err(BeanfunError::Parse("遊戲啟動頁沒有 m_objData（beanfun 可能改版）".to_owned())),
    }
}

/// The session key in the address the portal's redirects end on.
pub const URL_KEY_RE: &'static str = "[sp][Ss]?[Kk]ey=([^&]+)";

/// The session key the page declares in its own script.
pub const BODY_KEY_RE: &'static str = "strSessionKey\\s*=\\s*\"([^\"]+)\"";

/// The session key: from the final address first, else from the page.
pub open spec fn session_key_spec(final_url: Seq<char>, body: Seq<char>) -> Result<Seq<char>, Seq<char>> {
    match first_group(URL_KEY_RE@, final_url, 1) {
        Some(k) => Ok(k),
        None => match first_group(BODY_KEY_RE@, body, 1) {
            Some(k) => Ok(k),
            None => Err("pSKey not found in redirect URL: "@ + clip_spec(final_url, 200)),
        },
    }
}

/// The session key of the portal's login entry point, read from where its
/// redirects ended and from the page they ended on.
pub fn session_key_from(final_url: &str, body: &str) -> (r: Result<String, BeanfunError>)
    ensures
        match (r, session_key_spec(final_url@, body@)) {
            (Ok(k), Ok(s)) => k@ == s,
            (Err(e), Err(m)) => parse_error(e, m),
            _ => false,
        },
{
    if let Some(k) = capture(URL_KEY_RE, final_url, 1) {
        return Ok(k);
    }
    match capture(BODY_KEY_RE, body, 1) {
        Some(k) => Ok(k),
        None => Err(BeanfunError::Parse(concat("pSKey not found in redirect URL: ", clip(final_url, 200).as_str()))),
    }
}

/// The anti-forgery token on the login page.
pub const TOKEN_RE: &'static str = "__RequestVerificationToken[^>]+value=\"([^\"]+)\"";

/// The login page's anti-forgery token, empty when it has none.
pub open spec fn verification_token_spec(index_body: Seq<char>) -> Seq<char> {
    match first_group(TOKEN_RE@, index_body, 1) {
        Some(t) => t,
        None => Seq::empty(),
    }
}

/// The login page for session key `skey`.
pub open spec fn login_index_url_spec(skey: Seq<char>) -> Seq<char> {
    "https://login.beanfun.com/Login/Index?pSKey="@ + skey
}

/// The login page for session key `skey`.
pub fn login_index_url(skey: &str) -> (r: String)
    ensures
        r@ == login_index_url_spec(skey@),
{
    concat("https://login.beanfun.com/Login/Index?pSKey=", skey)
}

impl LoginPage {
    /// The address of this login page.
    pub fn url(&self) -> (r: String)
        ensures
            r@ == login_index_url_spec(self.skey@),
    {
        login_index_url(self.skey.as_str())
    }
}

/// `o` with an empty text taken as absent.
pub open spec fn non_empty(o: Option<String>) -> Option<Seq<char>> {
    match o {
        Some(s) => if s@.len() > 0 {
            Some(s@)
        } else {
            None
        },
        None => None,
    }
}

fn filter_non_empty(o: Option<String>) -> (r: Option<String>)
    ensures
        r.deep_view() == non_empty(o),
{
    match o {
        Some(s) => if s.as_str().is_empty() {
            None
        } else {
            Some(s)
        },
        None => None,
    }
}

/// The login page as both login methods need it, from the page itself and
/// from what `InitLogin` answered (`Err` holding serde's message when that
/// answer did not read).
pub fn login_page_from(skey: &str, index_body: &str, init: Result<InitLogin, String>) -> (r: Result<LoginPage, BeanfunError>)
    ensures
        match init {
            Err(e) => r matches Err(x) && parse_error(x, "Login init JSON parse failed: "@ + e@),
            Ok(i) => if i.result != Some(0i64) {
                r matches Err(x) && parse_error(x, "Login init result error"@)
            } else {
                match i.result_data {
                    None => r matches Err(x) && parse_error(x, "No ResultData"@),
                    Some(d) => r matches Ok(p) && p.skey@ == skey@ && p.verification_token@
                        == verification_token_spec(index_body@) && p.captcha_site_key@ == match d.captcha_site_key {
                        Some(k) => k@,
                        None => Seq::<char>::empty(),
                    } && p.qr_image.deep_view() == non_empty(d.qr_image) && p.deeplink.deep_view()
                        == non_empty(d.deep_link),
                }
            },
        },
{
    let verification_token = match capture(TOKEN_RE, index_body, 1) {
        Some(t) => t,
        None => String::new(),
    };
    let init = match init {
        Ok(i) => i,
        Err(e) => {
            return Err(BeanfunError::Parse(concat("Login init JSON parse failed: ", e.as_str())));
        },
    };
    let ok = match init.result {
        Some(code) => code == 0,
        None => false,
    };
    if !ok {
        return Err(BeanfunError::Parse("Login init result error".to_owned()));
    }
    let data = match init.result_data {
        Some(d) => d,
        None => {
            return Err(BeanfunError::Parse("No ResultData".to_owned()));
        },
    };
    Ok(LoginPage {
        skey: skey.to_owned(),
        verification_token,
        captcha_site_key: match data.captcha_site_key {
            Some(k) => k,
            None => String::new(),
        },
        qr_image: filter_non_empty(data.qr_image),
        deeplink: filter_non_empty(data.deep_link),
    })
}

/// What a QR login shows, from the login page: an error when the page has no QR image.
pub fn qr_init_from(page: LoginPage) -> (r: Result<QrInit, BeanfunError>)
    ensures
        match page.qr_image {
            None => r matches Err(x) && parse_error(x, "QRImage empty"@),
            Some(img) => r matches Ok(q) && q.skey == page.skey && q.bitmap_base64@ == "data:image/png;base64,"@
                + img@ && q.deeplink == page.deeplink && q.verification_token == page.verification_token,
        },
{
    let qr_image = match page.qr_image {
        Some(img) => img,
        None => {
            return Err(BeanfunError::Parse("QRImage empty".to_owned()));
        },
    };
    Ok(QrInit {
        skey: page.skey,
        bitmap_base64: concat("data:image/png;base64,", qr_image.as_str()),
        deeplink: page.deeplink,
        verification_token: page.verification_token,
    })
}

/// How `{:?}` writes an optional text (`None`, or `Some("...")` with the
/// text escaped).
pub uninterp spec fn debug_text_spec(value: Option<Seq<char>>) -> Seq<char>;

/// `format!("{:?}", value.as_deref())`.
#[verifier::external_body]
fn debug_text(value: &Option<String>) -> (r: String)
    ensures
        r@ == debug_text_spec(value.deep_view()),
        value is None ==> r@ == "None"@,
{
    format!("{:?}", value.as_deref())
}

/// What a poll of the QR login says, from its `ResultMessage` (`None` when the
/// reply did not read as JSON of that shape, `Some(None)` when it carried no
/// message).
pub open spec fn qr_outcome_spec(parsed: Option<Option<Seq<char>>>, body: Seq<char>) -> Result<QrPollOutcome, Seq<char>> {
    match parsed {
        None => Err("QR poll JSON parse failed: "@ + clip_spec(body, 200)),
        Some(Some(m)) => if m == "Failed"@ || m == "Wait Login"@ {
            Ok(QrPollOutcome::Waiting)
        } else if m == "Token Expired"@ {
            Ok(QrPollOutcome::Expired)
        } else if m == "Success"@ {
            Ok(QrPollOutcome::Approved)
        } else {
            Err("Unknown QR status: "@ + debug_text_spec(Some(m)))
        },
        Some(None) => Err("Unknown QR status: "@ + debug_text_spec(None)),
    }
}

/// Decide a QR poll from its reply.
pub fn qr_outcome(parsed: Option<Option<String>>, body: &str) -> (r: Result<QrPollOutcome, BeanfunError>)
    ensures
        match (r, qr_outcome_spec(parsed.deep_view(), body@)) {
            (Ok(o), Ok(s)) => o == s,
            (Err(e), Err(m)) => parse_error(e, m),
            _ => false,
        },
{
    let message = match parsed {
        Some(m) => m,
        None => {
            return Err(BeanfunError::Parse(concat("QR poll JSON parse failed: ", clip(body, 200).as_str())));
        },
    };
    if let Some(m) = &message {
        if str_eq(m.as_str(), "Failed") || str_eq(m.as_str(), "Wait Login") {
            return Ok(QrPollOutcome::Waiting);
        } else if str_eq(m.as_str(), "Token Expired") {
            return Ok(QrPollOutcome::Expired);
        } else if str_eq(m.as_str(), "Success") {
            return Ok(QrPollOutcome::Approved);
        }
    }
    Err(BeanfunError::Parse(concat("Unknown QR status: ", debug_text(&message).as_str())))
}

} // verus!
