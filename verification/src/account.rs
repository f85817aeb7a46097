//! Accounts, credential snapshots and the persisted account store.
//!
//! A [`Account`] is an immutable snapshot of one mail account's credentials.
//! [`needs_refresh`] is the single authoritative expiry check: a token is
//! stale exactly when it is absent or its expiry has passed. [`AuthStore`]
//! is the in-memory form of the persisted account list with its "active
//! account" pointer; the surrounding application loads it from and writes it
//! back to disk unchanged.

use vstd::prelude::*;

verus! {

/// One mail account's credential snapshot: identity, bearer tokens and
/// token expiry (epoch seconds).
#[derive(Debug, Clone)]
pub struct Account {
    pub id: String,
    pub email: String,
    pub provider: String,
    pub access_token: String,
    pub refresh_token: String,
    pub expires_at: i64,
    pub last_sync: Option<i64>,
    pub profile_name: String,
    pub profile_picture: String,
}

/// The user-facing identity slice of an [`Account`].
#[derive(Debug, Clone)]
pub struct UserProfile {
    pub email: String,
    pub name: String,
    pub picture: String,
    pub provider: String,
}

impl From<Account> for UserProfile {
    fn from(account: Account) -> (r: Self) {
        Self {
            email: account.email,
            name: account.profile_name,
            picture: account.profile_picture,
            provider: account.provider,
        }
    }
}

impl vstd::std_specs::convert::FromSpecImpl<Account> for UserProfile {
    open spec fn obeys_from_spec() -> bool {
        true
    }

    open spec fn from_spec(account: Account) -> Self {
        UserProfile {
            email: account.email,
            name: account.profile_name,
            picture: account.profile_picture,
            provider: account.provider,
        }
    }
}

/// Whether a credential snapshot must be refreshed before use, judged
/// against the caller's current time: true exactly when the access token
/// is empty or already expired.
pub open spec fn spec_needs_refresh(token: Seq<char>, expires_at: int, now: int) -> bool {
    token.len() == 0 || expires_at <= now
}

/// Expiry check for a credential snapshot at time `now` (epoch seconds).
pub fn needs_refresh(account: &Account, now: i64) -> (r: bool)
    ensures
        r == spec_needs_refresh(account.access_token@, account.expires_at as int, now as int),
{
    account.access_token.as_str().is_empty() || account.expires_at <= now
}

/// Mathematical view of an [`Account`].
pub ghost struct AccountView {
    pub id: Seq<char>,
    pub email: Seq<char>,
    pub provider: Seq<char>,
    pub access_token: Seq<char>,
    pub refresh_token: Seq<char>,
    pub expires_at: int,
    pub last_sync: Option<int>,
    pub profile_name: Seq<char>,
    pub profile_picture: Seq<char>,
}

impl View for Account {
    type V = AccountView;

    open spec fn view(&self) -> AccountView {
        AccountView {
            id: self.id@,
            email: self.email@,
            provider: self.provider@,
            access_token: self.access_token@,
            refresh_token: self.refresh_token@,
            expires_at: self.expires_at as int,
            last_sync: match self.last_sync {
                Some(t) => Some(t as int),
                None => None,
            },
            profile_name: self.profile_name@,
            profile_picture: self.profile_picture@,
        }
    }
}

/// A field-for-field copy of an account snapshot; the copy denotes the
/// same account.
pub fn clone_account(a: &Account) -> (r: Account)
    ensures
        r@ == a@,
{
    Account {
        id: a.id.clone(),
        email: a.email.clone(),
        provider: a.provider.clone(),
        access_token: a.access_token.clone(),
        refresh_token: a.refresh_token.clone(),
        expires_at: a.expires_at,
        last_sync: a.last_sync,
        profile_name: a.profile_name.clone(),
        profile_picture: a.profile_picture.clone(),
    }
}

pub open spec fn account_views(s: Seq<Account>) -> Seq<AccountView> {
    s.map_values(|a: Account| a@)
}

/// Index of the first account with this id, or `-1` when none has it.
pub open spec fn spec_find_idx(s: Seq<Account>, id: Seq<char>) -> int
    decreases s.len(),
{
    if s.len() == 0 {
        -1
    } else if s[0].id@ == id {
        0
    } else {
        let r = spec_find_idx(s.skip(1), id);
        if r < 0 {
            -1
        } else {
            r + 1
        }
    }
}

pub proof fn lemma_find_idx(s: Seq<Account>, id: Seq<char>)
    ensures
        spec_find_idx(s, id) >= 0 ==> 0 <= spec_find_idx(s, id) < s.len() && s[spec_find_idx(
            s,
            id,
        )].id@ == id,
        spec_find_idx(s, id) < 0 ==> forall|i: int| 0 <= i < s.len() ==> (#[trigger] s[i]).id@ != id,
    decreases s.len(),
{
    if s.len() > 0 && s[0].id@ != id {
        lemma_find_idx(s.skip(1), id);
        if spec_find_idx(s, id) < 0 {
            assert forall|i: int| 0 <= i < s.len() implies (#[trigger] s[i]).id@ != id by {
                if i > 0 {
                    assert(s.skip(1)[i - 1] == s[i]);
                }
            }
        }
    }
}

/// The view of the account list after removing every account with the
/// given id, order preserved.
pub open spec fn spec_retain_others(s: Seq<Account>, id: Seq<char>) -> Seq<AccountView>
    decreases s.len(),
{
    if s.len() == 0 {
        Seq::empty()
    } else if s[0].id@ == id {
        spec_retain_others(s.skip(1), id)
    } else {
        seq![s[0]@] + spec_retain_others(s.skip(1), id)
    }
}

/// The persisted account list with its active-account pointer, as the
/// surrounding application reads it from and writes it back to disk.
pub struct AuthStore {
    pub accounts: Vec<Account>,
    pub active_account_id: Option<String>,
}

pub open spec fn view_opt_string(o: Option<String>) -> Option<Seq<char>> {
    match o {
        Some(s) => Some(s@),
        None => None,
    }
}

impl AuthStore {
    /// An empty store: no accounts, no active session.
    pub fn new() -> (r: Self)
        ensures
            r.accounts@.len() == 0,
            r.active_account_id is None,
    {
        AuthStore { accounts: Vec::new(), active_account_id: None }
    }

    fn find_account(&self, id: &str) -> (r: Option<usize>)
        ensures
            r is Some ==> r->0 as int == spec_find_idx(self.accounts@, id@),
            r is None ==> spec_find_idx(self.accounts@, id@) < 0,
    {
        let n = self.accounts.len();
        let mut i: usize = 0;
        proof {
            assert(self.accounts@.skip(0) =~= self.accounts@);
        }
        while i < n
            invariant
                n == self.accounts@.len(),
                0 <= i <= n,
                spec_find_idx(self.accounts@, id@) == (if spec_find_idx(
                    self.accounts@.skip(i as int),
                    id@,
                ) < 0 {
                    -1
                } else {
                    i + spec_find_idx(self.accounts@.skip(i as int), id@)
                }),
            decreases n - i,
        {
            let ghost rest = self.accounts@.skip(i as int);
            proof {
                assert(rest[0] == self.accounts@[i as int]);
                assert(rest.skip(1) =~= self.accounts@.skip(i + 1));
            }
            if crate::text::str_eq(self.accounts[i].id.as_str(), id) {
                return Some(i);
            }
            i += 1;
        }
        proof {
            assert(self.accounts@.skip(n as int) =~= Seq::<Account>::empty());
        }
        None
    }

    /// Commits an account: replaces the first record with the same id
    /// or appends a new one, and makes it active when asked to (or when
    /// no account was active yet).
    pub fn save_account(&mut self, account: Account, set_active: bool)
        ensures
            account_views(final(self).accounts@) == (if spec_find_idx(
                old(self).accounts@,
                account.id@,
            ) >= 0 {
                account_views(old(self).accounts@).update(
                    spec_find_idx(old(self).accounts@, account.id@),
                    account@,
                )
            } else {
                account_views(old(self).accounts@).push(account@)
            }),
            view_opt_string(final(self).active_account_id) == (if set_active || old(
                self,
            ).active_account_id is None {
                Some(account.id@)
            } else {
                view_opt_string(old(self).active_account_id)
            }),
    {
        let id_copy = account.id.clone();
        match self.find_account(account.id.as_str()) {
            Some(j) => {
                proof {
                    lemma_find_idx(self.accounts@, account.id@);
                }
                let ghost pre = self.accounts@;
                self.accounts.remove(j);
                self.accounts.insert(j, account);
                proof {
                    assert(self.accounts@ =~= pre.update(j as int, account));
                    assert(account_views(self.accounts@) =~= account_views(pre).update(
                        j as int,
                        account@,
                    ));
                }
            },
            None => {
                let ghost pre = self.accounts@;
                self.accounts.push(account);
                proof {
                    assert(account_views(self.accounts@) =~= account_views(pre).push(
                        self.accounts@.last()@,
                    ));
                }
            },
        }
        let make_active = set_active || matches!(self.active_account_id, None);
        if make_active {
            self.active_account_id = Some(id_copy);
        }
    }

    /// All stored accounts, in storage order.
    pub fn load_accounts(&self) -> (r: Vec<Account>)
        ensures
            account_views(r@) == account_views(self.accounts@),
    {
        let n = self.accounts.len();
        let mut out: Vec<Account> = Vec::new();
        let mut i: usize = 0;
        while i < n
            invariant
                n == self.accounts@.len(),
                0 <= i <= n,
                out@.len() == i,
                forall|x: int| 0 <= x < i ==> out@[x]@ == #[trigger] self.accounts@[x]@,
            decreases n - i,
        {
            out.push(clone_account(&self.accounts[i]));
            i += 1;
        }
        proof {
            assert(account_views(out@) =~= account_views(self.accounts@));
        }
        out
    }

    /// The account currently marked active, if the pointer names one
    /// that is stored.
    pub fn get_active_account(&self) -> (r: Option<Account>)
        ensures
            match view_opt_string(self.active_account_id) {
                None => r is None,
                Some(id) => {
                    if spec_find_idx(self.accounts@, id) >= 0 {
                        r is Some && r->0@ == self.accounts@[spec_find_idx(self.accounts@, id)]@
                    } else {
                        r is None
                    }
                },
            },
    {
        let id = match &self.active_account_id {
            Some(id) => id,
            None => {
                return None;
            },
        };
        match self.find_account(id.as_str()) {
            Some(j) => {
                proof {
                    lemma_find_idx(self.accounts@, id@);
                }
                Some(clone_account(&self.accounts[j]))
            },
            None => None,
        }
    }

    /// Switches the active session to the named account; an unknown id
    /// is rejected and changes nothing.
    pub fn set_active_account(&mut self, account_id: String) -> (r: Result<(), String>)
        ensures
            r is Ok <==> spec_find_idx(old(self).accounts@, account_id@) >= 0,
            r is Ok ==> view_opt_string(final(self).active_account_id) == Some(account_id@)
                && final(self).accounts == old(self).accounts,
            r is Err ==> *final(self) == *old(self) && r->Err_0@ == "Account not found"@,
    {
        match self.find_account(account_id.as_str()) {
            Some(_) => {
                self.active_account_id = Some(account_id);
                Ok(())
            },
            None => Err(String::from_str("Account not found")),
        }
    }

    /// Removes every record with this id; if the removed account was
    /// active, the first remaining account (if any) becomes active.
    pub fn remove_account(&mut self, account_id: String)
        ensures
            account_views(final(self).accounts@) == spec_retain_others(
                old(self).accounts@,
                account_id@,
            ),
            view_opt_string(final(self).active_account_id) == (if view_opt_string(
                old(self).active_account_id,
            ) == Some(account_id@) {
                if account_views(final(self).accounts@).len() == 0 {
                    None
                } else {
                    Some(account_views(final(self).accounts@)[0].id)
                }
            } else {
                view_opt_string(old(self).active_account_id)
            }),
    {
        let n = self.accounts.len();
        let mut kept: Vec<Account> = Vec::new();
        let mut i: usize = 0;
        proof {
            assert(self.accounts@.skip(0) =~= self.accounts@);
        }
        while i < n
            invariant
                n == self.accounts@.len(),
                0 <= i <= n,
                spec_retain_others(self.accounts@, account_id@) == account_views(kept@)
                    + spec_retain_others(self.accounts@.skip(i as int), account_id@),
            decreases n - i,
        {
            let ghost rest = self.accounts@.skip(i as int);
            proof {
                assert(rest[0] == self.accounts@[i as int]);
                assert(rest.skip(1) =~= self.accounts@.skip(i + 1));
            }
            if !crate::text::str_eq(self.accounts[i].id.as_str(), account_id.as_str()) {
                let ghost pre = kept@;
                kept.push(clone_account(&self.accounts[i]));
                proof {
                    assert(account_views(kept@) =~= account_views(pre) + seq![
                        self.accounts@[i as int]@,
                    ]);
                }
            }
            i += 1;
        }
        proof {
            assert(self.accounts@.skip(n as int) =~= Seq::<Account>::empty());
            assert(spec_retain_others(self.accounts@, account_id@) =~= account_views(kept@));
        }
        let was_active = match &self.active_account_id {
            Some(id) => crate::text::str_eq(id.as_str(), account_id.as_str()),
            None => false,
        };
        self.accounts = kept;
        if was_active {
            if self.accounts.len() == 0 {
                self.active_account_id = None;
            } else {
                self.active_account_id = Some(self.accounts[0].id.clone());
            }
        }
    }
}

/// Mathematical view of a [`UserProfile`].
pub ghost struct UserProfileView {
    pub email: Seq<char>,
    pub name: Seq<char>,
    pub picture: Seq<char>,
    pub provider: Seq<char>,
}

impl View for UserProfile {
    type V = UserProfileView;

    open spec fn view(&self) -> UserProfileView {
        UserProfileView {
            email: self.email@,
            name: self.name@,
            picture: self.picture@,
            provider: self.provider@,
        }
    }
}

/// What validating the active account reports: its profile, if any, and
/// whether its credentials must be refreshed before use.
#[derive(Debug)]
pub struct BootstrapResult {
    pub user: Option<UserProfile>,
    pub needs_refresh: bool,
}

/// Validates an active-account snapshot against the given time, with no
/// network work: reports the profile and whether a refresh is needed.
pub fn bootstrap_check(active: Option<&Account>, now: i64) -> (r: BootstrapResult)
    ensures
        match active {
            Some(a) => r.user is Some && r.user->0@ == (UserProfileView {
                email: a.email@,
                name: a.profile_name@,
                picture: a.profile_picture@,
                provider: a.provider@,
            }) && r.needs_refresh == spec_needs_refresh(
                a.access_token@,
                a.expires_at as int,
                now as int,
            ),
            None => r.user is None && !r.needs_refresh,
        },
{
    match active {
        Some(a) => {
            let refresh = needs_refresh(a, now);
            let copy = clone_account(a);
            BootstrapResult { user: Some(UserProfile::from(copy)), needs_refresh: refresh }
        },
        None => BootstrapResult { user: None, needs_refresh: false },
    }
}

/// Relies on chrono's `Utc::now` and `DateTime::timestamp` for the
/// current time as epoch seconds. `Utc::now` aborts when the system
/// clock reads before the Unix epoch, so a value it does return is
/// non-negative.
#[verifier::external_body]
fn now_epoch_seconds() -> (r: i64)
    ensures
        r >= 0,
{
    chrono::Utc::now().timestamp()
}

/// Validates the active account of the store against the current time.
/// The profile reported is the active account's whatever the clock
/// says; with no active account no refresh is ever requested, and an
/// active account with an empty token always needs one.
pub fn bootstrap_accounts(store: &AuthStore) -> (r: BootstrapResult)
    ensures
        match view_opt_string(store.active_account_id) {
            None => r.user is None && !r.needs_refresh,
            Some(id) => {
                if spec_find_idx(store.accounts@, id) >= 0 {
                    let a = store.accounts@[spec_find_idx(store.accounts@, id)]@;
                    r.user is Some && r.user->0@ == (UserProfileView {
                        email: a.email,
                        name: a.profile_name,
                        picture: a.profile_picture,
                        provider: a.provider,
                    }) && (a.access_token.len() == 0 ==> r.needs_refresh)
                } else {
                    r.user is None && !r.needs_refresh
                }
            },
        },
{
    let active = store.get_active_account();
    let now = now_epoch_seconds();
    match active {
        Some(a) => bootstrap_check(Some(&a), now),
        None => bootstrap_check(None, now),
    }
}

} // verus!
