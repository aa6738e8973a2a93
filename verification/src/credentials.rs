//! Remembered password-login credentials: the list and what may be done to it.
use crate::text::{eq_ignore_ascii_case, eq_ignore_case, ascii_lower};
use vstd::prelude::*;

verus! {

/// One remembered login.
#[derive(Debug, Clone, PartialEq, Eq)]
pub struct SavedLogin {
    pub account: String,
    pub password: String,
    /// Unix seconds of the last successful login; orders the list.
    pub last_used: i64,
}

impl View for SavedLogin {
    type V = (Seq<char>, Seq<char>, i64);

    /// `(account, password, last_used)`.
    open spec fn view(&self) -> (Seq<char>, Seq<char>, i64) {
        (self.account@, self.password@, self.last_used)
    }
}

/// The list as plain values.
pub open spec fn logins_view(ls: Seq<SavedLogin>) -> Seq<(Seq<char>, Seq<char>, i64)> {
    ls.map_values(|l: SavedLogin| l@)
}

/// beanfun does not tell "Abc" from "abc", so neither does the list.
pub open spec fn same_account_spec(a: Seq<char>, b: Seq<char>) -> bool {
    eq_ignore_case(a, b)
}

/// Whether two account names name the same account.
pub fn same_account(a: &str, b: &str) -> (r: bool)
    ensures
        r == same_account_spec(a@, b@),
{
    eq_ignore_ascii_case(a, b)
}

/// Where the first entry for `account` stands.
pub open spec fn position_of(ls: Seq<(Seq<char>, Seq<char>, i64)>, account: Seq<char>) -> Option<int>
    decreases ls.len(),
{
    if ls.len() == 0 {
        None
    } else if same_account_spec(ls[0].0, account) {
        Some(0)
    } else {
        match position_of(ls.drop_first(), account) {
            Some(i) => Some(i + 1),
            None => None,
        }
    }
}

pub proof fn lemma_position_of(ls: Seq<(Seq<char>, Seq<char>, i64)>, account: Seq<char>)
    ensures
        match position_of(ls, account) {
            Some(i) => 0 <= i < ls.len() && same_account_spec(ls[i].0, account) && forall|j: int|
                0 <= j < i ==> !same_account_spec(#[trigger] ls[j].0, account),
            None => forall|j: int| 0 <= j < ls.len() ==> !same_account_spec(#[trigger] ls[j].0, account),
        },
    decreases ls.len(),
{
    if ls.len() > 0 && !same_account_spec(ls[0].0, account) {
        let rest = ls.drop_first();
        lemma_position_of(rest, account);
        match position_of(rest, account) {
            Some(i) => {
                assert(ls[i + 1] == rest[i]);
                assert forall|j: int| 0 <= j < i + 1 implies !same_account_spec(#[trigger] ls[j].0, account) by {
                    if j > 0 {
                        assert(ls[j] == rest[j - 1]);
                    }
                }
            },
            None => {
                assert forall|j: int| 0 <= j < ls.len() implies !same_account_spec(#[trigger] ls[j].0, account) by {
                    if j > 0 {
                        assert(ls[j] == rest[j - 1]);
                    }
                }
            },
        }
    }
}

/// A copy of a saved login.
fn copied(l: &SavedLogin) -> (r: SavedLogin)
    ensures
        r@ == l@,
{
    SavedLogin { account: l.account.clone(), password: l.password.clone(), last_used: l.last_used }
}

/// The list after a successful login as `account` with `password` at time
/// `at`: the account's entry (whatever case it was saved in) takes the new
/// spelling, password and time; an account not yet listed is added at the end.
pub open spec fn upsert_spec(ls: Seq<(Seq<char>, Seq<char>, i64)>, account: Seq<char>, password: Seq<char>, at: i64) -> Seq<(Seq<char>, Seq<char>, i64)> {
    match position_of(ls, account) {
        Some(i) => ls.update(i, (account, password, at)),
        None => ls.push((account, password, at)),
    }
}

/// Record a successful login.
pub fn upsert(logins: &mut Vec<SavedLogin>, account: &str, password: &str, at: i64)
    ensures
        logins_view(final(logins)@) == upsert_spec(logins_view(old(logins)@), account@, password@, at),
{
    let ghost before = logins_view(logins@);
    proof { lemma_position_of(before, account@); }
    let mut i: usize = 0;
    while i < logins.len()
        invariant
            i <= logins@.len(),
            before == logins_view(logins@),
            before == logins_view(old(logins)@),
            forall|j: int| 0 <= j < i ==> !same_account_spec(#[trigger] before[j].0, account@),
        decreases logins@.len() - i,
    {
        assert(before[i as int] == logins@[i as int]@);
        if same_account(logins[i].account.as_str(), account) {
            proof {
                lemma_position_of(before, account@);
                match position_of(before, account@) {
                    Some(p) => {
                        if p < i {
                            assert(!same_account_spec(before[p].0, account@));
                        }
                        if p > i {
                            assert(!same_account_spec(before[i as int].0, account@));
                        }
                    },
                    None => {
                        assert(!same_account_spec(before[i as int].0, account@));
                    },
                }
            }
            logins[i] = SavedLogin { account: account.to_owned(), password: password.to_owned(), last_used: at };
            assert(logins_view(logins@) =~= upsert_spec(before, account@, password@, at));
            return;
        }
        i = i + 1;
    }
    proof {
        lemma_position_of(before, account@);
        if let Some(p) = position_of(before, account@) {
            assert(!same_account_spec(before[p].0, account@));
        }
    }
    logins.push(SavedLogin { account: account.to_owned(), password: password.to_owned(), last_used: at });
    assert(logins_view(logins@) =~= upsert_spec(before, account@, password@, at));
}

/// The list without any entry for `account`, in any case; the rest in order.
pub open spec fn remove_spec(ls: Seq<(Seq<char>, Seq<char>, i64)>, account: Seq<char>) -> Seq<(Seq<char>, Seq<char>, i64)>
    decreases ls.len(),
{
    if ls.len() == 0 {
        ls
    } else {
        let prev = remove_spec(ls.drop_last(), account);
        if same_account_spec(ls.last().0, account) {
            prev
        } else {
            prev.push(ls.last())
        }
    }
}

/// Forget an account.
pub fn remove(logins: &mut Vec<SavedLogin>, account: &str)
    ensures
        logins_view(final(logins)@) == remove_spec(logins_view(old(logins)@), account@),
{
    let ghost before = logins_view(logins@);
    let mut kept: Vec<SavedLogin> = Vec::new();
    let mut i: usize = 0;
    while i < logins.len()
        invariant
            i <= logins@.len(),
            before == logins_view(logins@),
            logins_view(kept@) == remove_spec(before.take(i as int), account@),
        decreases logins@.len() - i,
    {
        assert(before.take(i + 1).drop_last() =~= before.take(i as int));
        assert(before.take(i + 1).last() == logins@[i as int]@);
        if !same_account(logins[i].account.as_str(), account) {
            kept.push(copied(&logins[i]));
        }
        i = i + 1;
        assert(logins_view(kept@) =~= remove_spec(before.take(i as int), account@));
    }
    assert(before.take(logins@.len() as int) =~= before);
    *logins = kept;
}

/// Entry `a` of `ls` goes before entry `b` in the recent-first order: used
/// later, or used at the same time and listed earlier.
pub open spec fn goes_before(ls: Seq<(Seq<char>, Seq<char>, i64)>, a: int, b: int) -> bool {
    ls[a].2 > ls[b].2 || (ls[a].2 == ls[b].2 && a < b)
}

/// `out` is `ls` ordered most recent first, keeping the listed order among
/// entries used at the same time: `out[k]` is `ls[idx[k]]`, and the order is
/// that of [`goes_before`].
pub open spec fn recent_first_by(ls: Seq<(Seq<char>, Seq<char>, i64)>, out: Seq<(Seq<char>, Seq<char>, i64)>, idx: Seq<int>) -> bool {
    &&& idx.len() == ls.len()
    &&& out.len() == ls.len()
    &&& forall|k: int| 0 <= k < idx.len() ==> 0 <= #[trigger] idx[k] < ls.len() && out[k] == ls[idx[k]]
    &&& forall|k1: int, k2: int| 0 <= k1 < k2 < idx.len() ==> goes_before(ls, #[trigger] idx[k1], #[trigger] idx[k2])
}

/// Most recent first: `out` is a stable reordering of `ls` by descending use time.
pub open spec fn is_recent_first(ls: Seq<(Seq<char>, Seq<char>, i64)>, out: Seq<(Seq<char>, Seq<char>, i64)>) -> bool {
    exists|idx: Seq<int>| recent_first_by(ls, out, idx)
}

/// Order the list most recently used first; entries used at the same time
/// keep their order.
pub fn sort_recent_first(logins: &mut Vec<SavedLogin>)
    ensures
        is_recent_first(logins_view(old(logins)@), logins_view(final(logins)@)),
        logins_view(final(logins)@).to_multiset() == logins_view(old(logins)@).to_multiset(),
        forall|i: int, j: int|
            0 <= i < j < final(logins)@.len() ==> (#[trigger] final(logins)@[i]).last_used >= (#[trigger] final(logins)@[j]).last_used,
{
    broadcast use vstd::seq_lib::group_to_multiset_ensures;
    let ghost ls = logins_view(logins@);
    let mut out: Vec<SavedLogin> = Vec::new();
    let ghost mut idx: Seq<int> = Seq::empty();
    let mut i: usize = 0;
    while i < logins.len()
        invariant
            i <= logins@.len(),
            ls == logins_view(logins@),
            idx.len() == i,
            out@.len() == i,
            forall|k: int| 0 <= k < i ==> 0 <= #[trigger] idx[k] < i && logins_view(out@)[k] == ls[idx[k]],
            forall|k1: int, k2: int| 0 <= k1 < k2 < i ==> goes_before(ls, #[trigger] idx[k1], #[trigger] idx[k2]),
            logins_view(out@).to_multiset() == ls.take(i as int).to_multiset(),
        decreases logins@.len() - i,
    {
        let x = copied(&logins[i]);
        assert(x@ == ls[i as int]);
        let mut pos: usize = 0;
        while pos < out.len() && out[pos].last_used >= x.last_used
            invariant
                pos <= out@.len(),
                out@.len() == i,
                i < ls.len(),
                x@ == ls[i as int],
                forall|k: int| 0 <= k < pos ==> (#[trigger] out@[k]).last_used >= x.last_used,
            decreases out@.len() - pos,
        {
            pos = pos + 1;
        }
        let ghost old_out = logins_view(out@);
        let ghost old_idx = idx;
        proof {
            assert forall|k: int| 0 <= k < pos implies goes_before(ls, #[trigger] old_idx[k], i as int) by {
                assert(out@[k]@ == old_out[k]);
                assert(old_out[k] == ls[old_idx[k]]);
            }
            assert forall|k: int| pos <= k < i implies goes_before(ls, i as int, #[trigger] old_idx[k]) by {
                assert(out@[pos as int]@ == old_out[pos as int]);
                assert(old_out[pos as int] == ls[old_idx[pos as int]]);
                assert(old_out[k] == ls[old_idx[k]]);
                if k > pos {
                    assert(goes_before(ls, old_idx[pos as int], old_idx[k]));
                }
            }
        }
        out.insert(pos, x);
        proof {
            idx = old_idx.insert(pos as int, i as int);
            assert(logins_view(out@) =~= old_out.insert(pos as int, ls[i as int]));
            assert forall|k: int| 0 <= k < i + 1 implies 0 <= #[trigger] idx[k] < i + 1 && logins_view(out@)[k] == ls[idx[k]] by {
                if k < pos {
                    assert(idx[k] == old_idx[k]);
                } else if k > pos {
                    assert(idx[k] == old_idx[k - 1]);
                }
            }
            assert forall|k1: int, k2: int| 0 <= k1 < k2 < i + 1 implies goes_before(ls, #[trigger] idx[k1], #[trigger] idx[k2]) by {
                if k1 < pos && k2 < pos {
                    assert(idx[k1] == old_idx[k1] && idx[k2] == old_idx[k2]);
                } else if k1 < pos && k2 == pos {
                    assert(idx[k1] == old_idx[k1]);
                } else if k1 < pos && k2 > pos {
                    assert(idx[k1] == old_idx[k1] && idx[k2] == old_idx[k2 - 1]);
                } else if k1 == pos {
                    assert(idx[k2] == old_idx[k2 - 1]);
                } else {
                    assert(idx[k1] == old_idx[k1 - 1] && idx[k2] == old_idx[k2 - 1]);
                }
            }
            assert(ls.take(i + 1) =~= ls.take(i as int).push(ls[i as int]));
            vstd::seq_lib::to_multiset_insert(old_out, pos as int, ls[i as int]);
            vstd::seq_lib::to_multiset_build(ls.take(i as int), ls[i as int]);
        }
        i = i + 1;
    }
    proof {
        assert(ls.take(ls.len() as int) =~= ls);
        assert(recent_first_by(ls, logins_view(out@), idx));
        assert forall|a: int, b: int| 0 <= a < b < out@.len() implies (#[trigger] out@[a]).last_used >= (#[trigger] out@[b]).last_used by {
            assert(logins_view(out@)[a] == out@[a]@);
            assert(logins_view(out@)[b] == out@[b]@);
            assert(goes_before(ls, idx[a], idx[b]));
        }
    }
    *logins = out;
}

/// No two entries of the list name the same account.
pub open spec fn accounts_unique(ls: Seq<(Seq<char>, Seq<char>, i64)>) -> bool {
    forall|i: int, j: int| 0 <= i < j < ls.len() ==> !same_account_spec(#[trigger] ls[i].0, #[trigger] ls[j].0)
}

proof fn lemma_same_account_equivalence(a: Seq<char>, b: Seq<char>, c: Seq<char>)
    ensures
        same_account_spec(a, a),
        same_account_spec(a, b) ==> same_account_spec(b, a),
        same_account_spec(a, b) && same_account_spec(b, c) ==> same_account_spec(a, c),
{
    if same_account_spec(a, b) && same_account_spec(b, c) {
        assert forall|i: int| 0 <= i < a.len() implies ascii_lower(#[trigger] a[i]) == ascii_lower(c[i]) by {
            assert(ascii_lower(a[i]) == ascii_lower(b[i]));
            assert(ascii_lower(b[i]) == ascii_lower(c[i]));
        }
    }
}

/// Saving a login never lists an account twice: a list without repeats
/// stays without repeats.
pub proof fn law_upsert_keeps_accounts_unique(ls: Seq<(Seq<char>, Seq<char>, i64)>, account: Seq<char>, password: Seq<char>, at: i64)
    requires
        accounts_unique(ls),
    ensures
        accounts_unique(upsert_spec(ls, account, password, at)),
{
    lemma_position_of(ls, account);
    let out = upsert_spec(ls, account, password, at);
    assert forall|i: int, j: int| 0 <= i < j < out.len() implies !same_account_spec(#[trigger] out[i].0, #[trigger] out[j].0) by {
        match position_of(ls, account) {
            Some(p) => {
                if i == p {
                    lemma_same_account_equivalence(ls[p].0, account, out[j].0);
                    lemma_same_account_equivalence(account, ls[p].0, out[j].0);
                    assert(!same_account_spec(ls[p].0, ls[j].0));
                } else if j == p {
                    lemma_same_account_equivalence(out[i].0, account, ls[p].0);
                    lemma_same_account_equivalence(account, ls[p].0, account);
                    assert(!same_account_spec(ls[i].0, ls[p].0));
                }
            },
            None => {
                if j == ls.len() {
                    lemma_same_account_equivalence(out[i].0, account, account);
                }
            },
        }
    }
}

/// After a login is saved, the list's entry for that account is the one just saved.
pub proof fn law_upsert_then_lookup(ls: Seq<(Seq<char>, Seq<char>, i64)>, account: Seq<char>, password: Seq<char>, at: i64)
    ensures
        ({
            let out = upsert_spec(ls, account, password, at);
            match position_of(out, account) {
                Some(i) => out[i] == (account, password, at),
                None => false,
            }
        }),
{
    let out = upsert_spec(ls, account, password, at);
    lemma_position_of(ls, account);
    lemma_position_of(out, account);
    lemma_same_account_equivalence(account, account, account);
    match position_of(ls, account) {
        Some(p) => {
            assert(out[p].0 == account);
            if let Some(q) = position_of(out, account) {
                if q < p {
                    assert(out[q] == ls[q]);
                }
                if q > p {
                    assert(!same_account_spec(out[p].0, account));
                }
            }
        },
        None => {
            assert(out[ls.len() as int].0 == account);
            if let Some(q) = position_of(out, account) {
                if q < ls.len() {
                    assert(out[q] == ls[q]);
                }
            }
        },
    }
}

/// Saving a login for an account already listed touches nothing but its
/// entry: the first entry naming it (in any case), at `p`, becomes the new
/// one, every other entry stays as it was, and the list keeps its length.
pub proof fn law_upsert_replaces_only_that_entry(ls: Seq<(Seq<char>, Seq<char>, i64)>, account: Seq<char>, password: Seq<char>, at: i64, p: int)
    requires
        0 <= p < ls.len(),
        same_account_spec(ls[p].0, account),
        forall|k: int| 0 <= k < p ==> !same_account_spec(#[trigger] ls[k].0, account),
    ensures
        upsert_spec(ls, account, password, at).len() == ls.len(),
        upsert_spec(ls, account, password, at)[p] == (account, password, at),
        forall|j: int| 0 <= j < ls.len() && j != p ==> #[trigger] upsert_spec(ls, account, password, at)[j] == ls[j],
{
    lemma_position_of(ls, account);
    match position_of(ls, account) {
        Some(q) => {
            if q < p {
                assert(!same_account_spec(ls[q].0, account));
            }
            if q > p {
                assert(!same_account_spec(ls[p].0, account));
            }
        },
        None => {
            assert(!same_account_spec(ls[p].0, account));
        },
    }
}

/// Saving a login for an account not listed adds it at the end and keeps
/// every entry there was.
pub proof fn law_upsert_adds_a_new_account(ls: Seq<(Seq<char>, Seq<char>, i64)>, account: Seq<char>, password: Seq<char>, at: i64)
    requires
        forall|j: int| 0 <= j < ls.len() ==> !same_account_spec(#[trigger] ls[j].0, account),
    ensures
        upsert_spec(ls, account, password, at) == ls.push((account, password, at)),
{
    lemma_position_of(ls, account);
    if let Some(q) = position_of(ls, account) {
        assert(!same_account_spec(ls[q].0, account));
    }
}

/// No account is lost by saving a login: every account listed before is
/// still listed after, in some case.
pub proof fn law_upsert_keeps_every_account(ls: Seq<(Seq<char>, Seq<char>, i64)>, account: Seq<char>, password: Seq<char>, at: i64, j: int)
    requires
        0 <= j < ls.len(),
    ensures
        exists|k: int|
            0 <= k < upsert_spec(ls, account, password, at).len() && same_account_spec(
                #[trigger] upsert_spec(ls, account, password, at)[k].0,
                ls[j].0,
            ),
{
    let out = upsert_spec(ls, account, password, at);
    lemma_position_of(ls, account);
    match position_of(ls, account) {
        Some(p) => {
            if j == p {
                lemma_same_account_equivalence(ls[p].0, account, account);
                assert(same_account_spec(out[p].0, ls[j].0));
            } else {
                lemma_same_account_equivalence(ls[j].0, ls[j].0, ls[j].0);
                assert(same_account_spec(out[j].0, ls[j].0));
            }
        },
        None => {
            lemma_same_account_equivalence(ls[j].0, ls[j].0, ls[j].0);
            assert(out[j] == ls[j]);
            assert(same_account_spec(out[j].0, ls[j].0));
        },
    }
}

/// After an account is forgotten, no entry of the list names it, in any case.
pub proof fn law_remove_forgets(ls: Seq<(Seq<char>, Seq<char>, i64)>, account: Seq<char>)
    ensures
        position_of(remove_spec(ls, account), account) is None,
        forall|i: int|
            0 <= i < remove_spec(ls, account).len() ==> !same_account_spec(
                #[trigger] remove_spec(ls, account)[i].0,
                account,
            ),
    decreases ls.len(),
{
    if ls.len() > 0 {
        law_remove_forgets(ls.drop_last(), account);
    }
    let out = remove_spec(ls, account);
    lemma_position_of(out, account);
    if let Some(p) = position_of(out, account) {
        assert(!same_account_spec(out[p].0, account));
    }
}

/// Encrypting the list for this Windows user (DPAPI). There is no such store
/// off Windows, where this is always refused.
pub fn protect(plain: &[u8]) -> (r: Result<Vec<u8>, String>)
    ensures
        r matches Err(m) && m@ == "只支援 Windows"@,
{
    Err("只支援 Windows".to_owned())
}

/// Decrypting a list encrypted by [`protect`]; always refused off Windows.
pub fn unprotect(cipher: &[u8]) -> (r: Result<Vec<u8>, String>)
    ensures
        r matches Err(m) && m@ == "只支援 Windows"@,
{
    Err("只支援 Windows".to_owned())
}

} // verus!
