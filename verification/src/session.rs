//! Sessions of the admin interface.
use vstd::prelude::*;

use crate::auth::{nonempty_trimmed, trimmed_or_none};
use crate::error::AdminError;
use crate::password::{bcrypt_verdict, is_hex, is_uuid, new_request_id, verify_password};
use crate::table::{distinct, entries_map, lemma_entries_len, lemma_entries_pop, Table};
use crate::text::{
    after_prefix, chars_of, concat3, decimal, digits, law_prefix_is_taken_off, option_text, pieces,
    split, split_on, strip_prefix, text_of, trim, trimmed,
};
use crate::types::{AdminAuthContext, UserConfig};

verus! {

/// How long a session lasts, in seconds.
pub const SESSION_MAX_AGE_SECS: i64 = 86_400;

/// The number of expired sessions that are removed at once, at most.
pub const SWEEP_LIMIT: usize = 64;

/// Whose session it is, and when it began, in seconds of Unix time.
#[derive(Debug, Clone, Copy, PartialEq, Eq, Structural)]
pub struct Session {
    pub user_id: i64,
    pub created_at: i64,
}

/// The session has not expired.
pub open spec fn live(s: Session, now: i64) -> bool {
    now - s.created_at <= SESSION_MAX_AGE_SECS
}

/// The token belongs to a session that has not expired.
pub open spec fn valid_at(sessions: Map<Seq<char>, Session>, token: Seq<char>, now: i64) -> bool {
    sessions.contains_key(token) && live(sessions[token], now)
}

/// `after` is `before` without `removed` expired sessions: all of them, or as many as are removed
/// at once.
pub open spec fn swept(
    before: Map<Seq<char>, Session>,
    after: Map<Seq<char>, Session>,
    now: i64,
    removed: nat,
) -> bool {
    &&& forall|k: Seq<char>| #[trigger]
        after.contains_key(k) ==> before.contains_key(k) && after[k] == before[k]
    &&& forall|k: Seq<char>| #[trigger]
        before.contains_key(k) && !after.contains_key(k) ==> !live(before[k], now)
    &&& removed <= SWEEP_LIMIT
    &&& removed < SWEEP_LIMIT ==> forall|k: Seq<char>| #[trigger]
        after.contains_key(k) ==> live(after[k], now)
    &&& before.dom().finite()
    &&& after.dom().finite()
    &&& before.dom().len() == after.dom().len() + removed
}

/// `after` is `before` with expired sessions swept.
pub open spec fn sweeps(
    before: Map<Seq<char>, Session>,
    after: Map<Seq<char>, Session>,
    now: i64,
) -> bool {
    exists|removed: nat| swept(before, after, now, removed)
}

/// Sweeping removes no session that has not expired.
pub proof fn law_sweep_keeps_live_sessions(
    before: Map<Seq<char>, Session>,
    after: Map<Seq<char>, Session>,
    now: i64,
    token: Seq<char>,
)
    requires
        sweeps(before, after, now),
        valid_at(before, token, now),
    ensures
        valid_at(after, token, now),
        after[token] == before[token],
{
}

/// A session is valid from its beginning until it is over its age, and its token no longer once
/// it was removed.
pub proof fn law_session_lifetime(
    sessions: Map<Seq<char>, Session>,
    token: Seq<char>,
    user_id: i64,
    created_at: i64,
    now: i64,
)
    ensures
        valid_at(sessions.insert(token, Session { user_id, created_at }), token, now) <==> now
            - created_at <= SESSION_MAX_AGE_SECS,
        !valid_at(sessions.remove(token), token, now),
{
}

/// The sessions of the admin interface, by their tokens.
pub struct SessionStore {
    sessions: Table<String, Session>,
}

impl View for SessionStore {
    type V = Map<Seq<char>, Session>;

    closed spec fn view(&self) -> Map<Seq<char>, Session> {
        self.sessions@
    }
}

/// A store without sessions.
pub fn new_session_store() -> (r: SessionStore)
    ensures
        r@ == Map::<Seq<char>, Session>::empty(),
{
    SessionStore { sessions: Table::new() }
}

impl SessionStore {
    /// Begins a session.
    pub fn open(&mut self, token: String, user_id: i64, now: i64)
        ensures
            final(self)@ == old(self)@.insert(token@, (Session { user_id, created_at: now })),
    {
        self.sessions.insert(token, Session { user_id, created_at: now });
    }

    /// Ends a session.
    pub fn close(&mut self, token: &str)
        ensures
            final(self)@ == old(self)@.remove(token@),
    {
        let _ended = self.sessions.remove(&token.to_owned());
    }

    /// Removes expired sessions, up to the limit.
    pub fn sweep(&mut self, now: i64)
        ensures
            sweeps(old(self)@, final(self)@, now),
    {
        let ghost all = self@;
        let mut source: Table<String, Session> = Table::new();
        std::mem::swap(&mut source, &mut self.sessions);
        let mut rest = source.take_entries();
        proof {
            lemma_entries_len(rest@);
        }
        let mut kept: Table<String, Session> = Table::new();
        let mut removed: usize = 0;
        while rest.len() > 0
            invariant
                distinct(rest@),
                removed <= SWEEP_LIMIT,
                all.dom().finite(),
                kept@.dom().finite(),
                all.dom().len() == kept@.dom().len() + rest@.len() + removed,
                forall|k: Seq<char>| #[trigger]
                    entries_map(rest@).contains_key(k) ==> all.contains_key(k) && all[k]
                        == entries_map(rest@)[k],
                forall|k: Seq<char>| #[trigger]
                    kept@.contains_key(k) ==> all.contains_key(k) && kept@[k] == all[k]
                        && !entries_map(rest@).contains_key(k),
                forall|k: Seq<char>| #[trigger]
                    all.contains_key(k) && !kept@.contains_key(k) && !entries_map(
                        rest@,
                    ).contains_key(k) ==> !live(all[k], now),
                removed < SWEEP_LIMIT ==> forall|k: Seq<char>| #[trigger]
                    kept@.contains_key(k) ==> live(kept@[k], now),
            decreases rest@.len(),
        {
            let ghost before = rest@;
            let ghost so_far = kept@;
            proof {
                lemma_entries_pop(before);
            }
            match rest.pop() {
                Some((token, session)) => {
                    proof {
                        assert(rest@ == before.drop_last());
                        assert(entries_map(before).contains_key(token@));
                        assert(!so_far.contains_key(token@));
                    }
                    let expired = now as i128 - session.created_at as i128
                        > SESSION_MAX_AGE_SECS as i128;
                    if expired && removed < SWEEP_LIMIT {
                        removed = removed + 1;
                    } else {
                        kept.insert(token, session);
                    }
                },
                None => {},
            }
        }
        self.sessions = kept;
        proof {
            assert(swept(all, self@, now, removed as nat));
        }
    }

    /// The user of a session. A token without one, or whose session has expired, is forgotten.
    /// Either way expired sessions are swept.
    pub fn authenticate(&mut self, token: &str, now: i64) -> (r: Option<i64>)
        ensures
            r == if valid_at(old(self)@, token@, now) {
                Some(old(self)@[token@].user_id)
            } else {
                None
            },
            sweeps(
                if valid_at(old(self)@, token@, now) {
                    old(self)@
                } else {
                    old(self)@.remove(token@)
                },
                final(self)@,
                now,
            ),
    {
        let user_id: Option<i64> = match self.sessions.get(&token.to_owned()) {
            Some(s) => if now as i128 - s.created_at as i128 <= SESSION_MAX_AGE_SECS as i128 {
                Some(s.user_id)
            } else {
                None
            },
            None => None,
        };
        if user_id.is_none() {
            self.close(token);
        }
        self.sweep(now);
        user_id
    }
}

/// Why a login is refused, given the account of the name, its password hash, and whether the
/// password matches it.
pub open spec fn login_refusal(
    user: Option<UserConfig>,
    has_hash: bool,
    matches_hash: bool,
    e: AdminError,
) -> bool {
    match user {
        None => e is Unauthorized && e.spec_message() == "invalid credentials"@,
        Some(u) => if u.status != 1 {
            e is Unauthorized && e.spec_message() == "account is disabled"@
        } else if !has_hash {
            e is Internal && e.spec_message() == "password hash missing"@
        } else {
            !matches_hash && e is Unauthorized && e.spec_message() == "invalid credentials"@
        },
    }
}

/// The account may log in.
pub open spec fn may_log_in(user: Option<UserConfig>, has_hash: bool, matches_hash: bool) -> bool {
    match user {
        None => false,
        Some(u) => u.status == 1 && has_hash && matches_hash,
    }
}

/// Decides on a login: the account has to exist, be enabled, have a password hash, and the
/// password has to match it.
pub fn decide_login(user: Option<&UserConfig>, has_hash: bool, matches_hash: bool) -> (r: Result<
    i64,
    AdminError,
>)
    ensures
        match r {
            Ok(id) => may_log_in(user_value(user), has_hash, matches_hash) && id == user->0.id,
            Err(e) => !may_log_in(user_value(user), has_hash, matches_hash) && login_refusal(
                user_value(user),
                has_hash,
                matches_hash,
                e,
            ),
        },
{
    match user {
        None => Err(AdminError::Unauthorized("invalid credentials".to_owned())),
        Some(u) => {
            if u.status != 1 {
                return Err(AdminError::Unauthorized("account is disabled".to_owned()));
            }
            if !has_hash {
                return Err(AdminError::Internal("password hash missing".to_owned()));
            }
            if !matches_hash {
                return Err(AdminError::Unauthorized("invalid credentials".to_owned()));
            }
            Ok(u.id)
        },
    }
}

/// An optional account by value.
pub open spec fn user_value(user: Option<&UserConfig>) -> Option<UserConfig> {
    match user {
        Some(u) => Some(*u),
        None => None,
    }
}

/// The password matches the hash, if there is one.
pub open spec fn password_matches(password: Seq<char>, hash: Option<&str>) -> bool {
    match hash {
        Some(h) => bcrypt_verdict(password, h@) == Some(true),
        None => false,
    }
}

/// Decides on a login with a password.
pub fn log_in(user: Option<&UserConfig>, hash: Option<&str>, password: &str) -> (r: Result<
    i64,
    AdminError,
>)
    ensures
        match r {
            Ok(id) => may_log_in(
                user_value(user),
                hash is Some,
                password_matches(password@, hash),
            ) && id == user->0.id,
            Err(e) => !may_log_in(
                user_value(user),
                hash is Some,
                password_matches(password@, hash),
            ) && login_refusal(
                user_value(user),
                hash is Some,
                password_matches(password@, hash),
                e,
            ),
        },
{
    let matches_hash = match hash {
        Some(h) => verify_password(password, h),
        None => false,
    };
    decide_login(user, hash.is_some(), matches_hash)
}

/// Why a request to the admin interface is refused.
#[derive(Debug, Clone, Copy, PartialEq, Eq, Structural)]
pub enum SessionRefusal {
    /// It carries no token.
    NotAuthenticated,
    /// Its token has no session, or one that has expired.
    InvalidSession,
    UserNotFound,
    AccountDisabled,
}

impl SessionRefusal {
    /// The text of the refusal.
    pub fn message(&self) -> (r: &'static str)
        ensures
            r@ == match self {
                SessionRefusal::NotAuthenticated => "not authenticated"@,
                SessionRefusal::InvalidSession => "invalid or expired session"@,
                SessionRefusal::UserNotFound => "user not found"@,
                SessionRefusal::AccountDisabled => "account is disabled"@,
            },
    {
        match self {
            SessionRefusal::NotAuthenticated => "not authenticated",
            SessionRefusal::InvalidSession => "invalid or expired session",
            SessionRefusal::UserNotFound => "user not found",
            SessionRefusal::AccountDisabled => "account is disabled",
        }
    }
}

/// The account that a session acts for, which has to exist and be enabled.
pub fn session_user(user: Option<UserConfig>) -> (r: Result<AdminAuthContext, SessionRefusal>)
    ensures
        r == match user {
            None => Err(SessionRefusal::UserNotFound),
            Some(u) => if u.status == 1 {
                Ok(AdminAuthContext { user: u })
            } else {
                Err(SessionRefusal::AccountDisabled)
            },
        },
{
    match user {
        None => Err(SessionRefusal::UserNotFound),
        Some(u) => if u.status == 1 {
            Ok(AdminAuthContext { user: u })
        } else {
            Err(SessionRefusal::AccountDisabled)
        },
    }
}

/// The cookie that carries a session's token.
pub open spec fn cookie_of(token: Seq<char>, secure: bool) -> Seq<char> {
    let plain = "chennix_session="@ + token
        + "; Path=/; HttpOnly; SameSite=Strict; Max-Age=86400"@;
    if secure {
        plain + "; Secure"@
    } else {
        plain
    }
}

/// A cookie lasts as long as its session.
pub proof fn law_cookie_lasts_as_long_as_its_session(token: Seq<char>)
    ensures
        cookie_of(token, false) == "chennix_session="@ + token
            + "; Path=/; HttpOnly; SameSite=Strict; Max-Age="@ + decimal(
            SESSION_MAX_AGE_SECS as int,
        ),
        cookie_of(token, true) == cookie_of(token, false) + "; Secure"@,
{
    reveal_strlit("; Path=/; HttpOnly; SameSite=Strict; Max-Age=86400");
    reveal_strlit("; Path=/; HttpOnly; SameSite=Strict; Max-Age=");
    reveal_with_fuel(digits, 6);
    let front = "; Path=/; HttpOnly; SameSite=Strict; Max-Age="@;
    assert(digits(86400) =~= seq!['8', '6', '4', '0', '0']);
    assert(front + digits(86400) =~= "; Path=/; HttpOnly; SameSite=Strict; Max-Age=86400"@);
    assert(cookie_of(token, false) =~= "chennix_session="@ + token + front + digits(86400));
}

/// The cookie that carries a session's token; over TLS only where the server speaks it.
pub fn session_cookie(token: &str, secure: bool) -> (r: String)
    ensures
        r@ == cookie_of(token@, secure),
{
    let mut r = concat3(
        "chennix_session=",
        token,
        "; Path=/; HttpOnly; SameSite=Strict; Max-Age=86400",
    );
    if secure {
        r.append("; Secure");
    }
    r
}

/// The cookie that makes a browser forget its session.
pub fn cleared_cookie() -> (r: &'static str)
    ensures
        r@ == "chennix_session=; Path=/; HttpOnly; SameSite=Strict; Max-Age=0"@,
{
    "chennix_session=; Path=/; HttpOnly; SameSite=Strict; Max-Age=0"
}

/// The session token in one pair of a cookie header.
pub open spec fn token_in_pair(pair: Seq<char>) -> Option<Seq<char>> {
    match strip_prefix(trim(pair), "chennix_session="@) {
        Some(value) => nonempty_trimmed(value),
        None => None,
    }
}

/// The session token in the first pair that has one.
pub open spec fn token_in_pairs(pairs: Seq<Seq<char>>) -> Option<Seq<char>>
    decreases pairs.len(),
{
    if pairs.len() == 0 {
        None
    } else {
        match token_in_pair(pairs[0]) {
            Some(t) => Some(t),
            None => token_in_pairs(pairs.drop_first()),
        }
    }
}

/// The session token in a cookie header.
pub open spec fn token_in_cookies(header: Seq<char>) -> Option<Seq<char>> {
    token_in_pairs(split_on(header, ';'))
}

/// The session token in a cookie header.
pub fn extract_session_token(header: &str) -> (r: Option<String>)
    ensures
        option_text(r) == token_in_cookies(header@),
{
    let pairs = split(&chars_of(header), ';');
    let ghost all = split_on(header@, ';');
    let mut i: usize = 0;
    proof {
        assert(all.skip(0) =~= all);
    }
    while i < pairs.len()
        invariant
            all == split_on(header@, ';'),
            pieces(pairs@) == all,
            i <= pairs@.len(),
            token_in_pairs(all.skip(i as int)) == token_in_pairs(all),
        decreases pairs@.len() - i,
    {
        let n: usize = pairs[i].len();
        let pair = text_of(&pairs[i], 0, n);
        proof {
            assert(all.skip(i as int)[0] == pairs@[i as int]@);
            assert(pair@ =~= pairs@[i as int]@);
            assert(all.skip(i as int).drop_first() =~= all.skip(i + 1));
        }
        if let Some(value) = after_prefix(trimmed(pair.as_str()).as_str(), "chennix_session=") {
            let token = trimmed_or_none(value.as_str());
            if token.is_some() {
                return token;
            }
        }
        i = i + 1;
    }
    None
}

/// The token of a session is read back from the cookie that a browser returns.
pub proof fn law_cookie_round_trip(token: Seq<char>)
    requires
        token.len() > 0,
        trim(token) == token,
        forall|i: int| 0 <= i < token.len() ==> token[i] != ';',
    ensures
        token_in_cookies("chennix_session="@ + token) == Some(token),
{
    reveal_strlit("chennix_session=");
    crate::text::lemma_trimmed_ends(token);
    let h = "chennix_session="@ + token;
    let n = "chennix_session="@.len() as int;
    assert(forall|i: int| 0 <= i < n ==> h[i] == "chennix_session="@[i]);
    assert forall|i: int| 0 <= i < h.len() implies h[i] != ';' by {
        if i >= n {
            assert(h[i] == token[i - n]);
        }
    }
    crate::text::lemma_find_char_unique(h, ';', h.len() as int);
    assert(split_on(h, ';') =~= seq![h]);
    assert(h[0] == 'c');
    assert(h.last() == token.last());
    assert(trim(h) == h);
    assert(h.subrange(0, n) =~= "chennix_session="@);
    assert(h.subrange(n, h.len() as int) =~= token);
    assert(seq![h][0] == h);
}

impl SessionStore {
    /// Begins a session for a user who has logged in, under a new token; gives its cookie.
    pub fn begin(&mut self, user_id: i64, secure: bool, now: i64) -> (r: String)
        ensures
            exists|token: Seq<char>|
                #![trigger cookie_of(token, secure)]
                {
                    &&& is_uuid(token)
                    &&& r@ == cookie_of(token, secure)
                    &&& final(self)@ == old(self)@.insert(
                        token,
                        (Session { user_id, created_at: now }),
                    )
                },
    {
        let token = new_request_id();
        let cookie = session_cookie(token.as_str(), secure);
        self.open(token, user_id, now);
        cookie
    }

    /// The user on whose behalf a request with the given cookies acts. Expired sessions are swept
    /// where it carries a token.
    pub fn identify(&mut self, cookies: Option<&str>, now: i64) -> (r: Result<i64, SessionRefusal>)
        ensures
            match carried_token(cookies) {
                None => r == Err::<i64, SessionRefusal>(SessionRefusal::NotAuthenticated)
                    && final(self)@ == old(self)@,
                Some(token) => if valid_at(old(self)@, token, now) {
                    r == Ok::<i64, SessionRefusal>(old(self)@[token].user_id) && sweeps(
                        old(self)@,
                        final(self)@,
                        now,
                    )
                } else {
                    r == Err::<i64, SessionRefusal>(SessionRefusal::InvalidSession) && sweeps(
                        old(self)@.remove(token),
                        final(self)@,
                        now,
                    )
                },
            },
    {
        let token = match cookies {
            Some(header) => extract_session_token(header),
            None => None,
        };
        match token {
            None => Err(SessionRefusal::NotAuthenticated),
            Some(t) => match self.authenticate(t.as_str(), now) {
                Some(user_id) => Ok(user_id),
                None => Err(SessionRefusal::InvalidSession),
            },
        }
    }

    /// Ends the session whose token the cookies carry.
    pub fn end(&mut self, cookies: Option<&str>)
        ensures
            final(self)@ == match carried_token(cookies) {
                Some(token) => old(self)@.remove(token),
                None => old(self)@,
            },
    {
        let token = match cookies {
            Some(header) => extract_session_token(header),
            None => None,
        };
        if let Some(t) = token {
            self.close(t.as_str());
        }
    }
}

/// The session token that cookies carry.
pub open spec fn carried_token(cookies: Option<&str>) -> Option<Seq<char>> {
    match cookies {
        Some(header) => token_in_cookies(header@),
        None => None,
    }
}

/// Whoever returns the cookie of a session that has not expired is recognized as its user.
pub proof fn law_session_is_recognized(
    sessions: Map<Seq<char>, Session>,
    token: Seq<char>,
    user_id: i64,
    created_at: i64,
    now: i64,
)
    requires
        is_uuid(token),
        now - created_at <= SESSION_MAX_AGE_SECS,
    ensures
        token_in_cookies("chennix_session="@ + token) == Some(token),
        valid_at(sessions.insert(token, Session { user_id, created_at }), token, now),
        sessions.insert(token, Session { user_id, created_at })[token].user_id == user_id,
{
    assert(is_hex(token[0]) && is_hex(token[35]));
    assert(trim(token) == token);
    assert forall|i: int| 0 <= i < token.len() implies token[i] != ';' by {
        assert(is_hex(token[i]) || token[i] == '-');
    }
    law_cookie_round_trip(token);
}

/// A session that has ended stays ended, and one that lives lived at every moment before.
pub proof fn law_sessions_end_for_good(s: Session, now: i64, later: i64)
    requires
        now <= later,
    ensures
        live(s, later) ==> live(s, now),
        now - s.created_at <= 24 * 60 * 60 <==> live(s, now),
{
}

/// A sweep takes out at most sixty-four sessions, all of which have ended; where it takes out
/// fewer, none that has ended is left. What it leaves is as it was.
pub proof fn law_sweep_takes_out_ended_sessions(
    before: Map<Seq<char>, Session>,
    after: Map<Seq<char>, Session>,
    now: i64,
    removed: nat,
    token: Seq<char>,
)
    requires
        swept(before, after, now, removed),
    ensures
        removed <= 64,
        before.dom().len() == after.dom().len() + removed,
        after.contains_key(token) ==> before.contains_key(token) && after[token] == before[token],
        before.contains_key(token) && !after.contains_key(token) ==> now - before[token].created_at
            > 24 * 60 * 60,
        removed < 64 && after.contains_key(token) ==> now - after[token].created_at <= 24 * 60 * 60,
{
}

/// A user logs in exactly where they are known and enabled, have a password and give it.
pub proof fn law_logins(user: Option<UserConfig>, has_hash: bool, matches_hash: bool, e: AdminError)
    ensures
        may_log_in(user, has_hash, matches_hash) <==> (user matches Some(u) && u.status == 1
            && has_hash && matches_hash),
        login_refusal(user, has_hash, matches_hash, e) ==> {
            &&& !may_log_in(user, has_hash, matches_hash)
            &&& e is Internal <==> (user matches Some(u) && u.status == 1 && !has_hash)
            &&& e !is Internal ==> e is Unauthorized
        },
{
}

/// The token of a request is that of the first of its cookies that carries one.
pub proof fn law_first_session_cookie_counts(pairs: Seq<Seq<char>>, i: int)
    requires
        0 <= i <= pairs.len(),
        forall|j: int| 0 <= j < i ==> token_in_pair(#[trigger] pairs[j]) is None,
        i < pairs.len() ==> token_in_pair(pairs[i]) is Some,
    ensures
        i < pairs.len() ==> token_in_pairs(pairs) == token_in_pair(pairs[i]),
        i == pairs.len() ==> token_in_pairs(pairs) is None,
    decreases pairs.len(),
{
    if i > 0 {
        let rest = pairs.drop_first();
        assert(token_in_pair(pairs[0]) is None);
        assert forall|j: int| 0 <= j < i - 1 implies token_in_pair(#[trigger] rest[j]) is None by {
            assert(rest[j] == pairs[j + 1]);
        }
        law_first_session_cookie_counts(rest, i - 1);
    }
}

/// A cookie carries a token exactly where it is the session cookie and is not empty.
pub proof fn law_session_cookies_carry_their_token(pair: Seq<char>, value: Seq<char>)
    ensures
        trim(pair) == "chennix_session="@ + value ==> {
            &&& trim(value).len() > 0 ==> token_in_pair(pair) == Some(trim(value))
            &&& trim(value).len() == 0 ==> token_in_pair(pair) is None
        },
        token_in_pair(pair) is Some ==> exists|v: Seq<char>|
            trim(pair) == #[trigger] ("chennix_session="@ + v),
{
    law_prefix_is_taken_off("chennix_session="@, value, trim(pair));
    if let Some(v) = strip_prefix(trim(pair), "chennix_session="@) {
        assert(trim(pair) == "chennix_session="@ + v);
    }
}

/// A password matches where there is a hash that it verifies against.
pub proof fn law_passwords_match_their_hash(password: Seq<char>, hash: Option<&str>)
    ensures
        hash is None ==> !password_matches(password, hash),
        hash matches Some(h) ==> (password_matches(password, hash) <==> bcrypt_verdict(password, h@)
            == Some(true)),
{
}

/// A request carries the token of its cookies; without cookies it carries none.
pub proof fn law_requests_carry_the_token_of_their_cookies(cookies: Option<&str>)
    ensures
        cookies is None ==> carried_token(cookies) is None,
        cookies matches Some(h) ==> carried_token(cookies) == token_in_pairs(split_on(h@, ';')),
{
}

} // verus!
