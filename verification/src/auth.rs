//! Who makes a request: bearer tokens, client addresses and roles.
use vstd::prelude::*;

use crate::text::{
    after_prefix, chars_of, find_from, law_prefix_is_taken_off, lemma_find_char, option_text,
    split_on, strip_prefix, text_of, trim, trim_bounds, trimmed,
};
use crate::types::{AdminAuthContext, AuthContext, TokenConfig, UserConfig};

verus! {

/// The text without the white space around it; nothing where nothing is left.
pub open spec fn nonempty_trimmed(s: Seq<char>) -> Option<Seq<char>> {
    if trim(s).len() == 0 {
        None
    } else {
        Some(trim(s))
    }
}

/// The text without the white space around it; nothing where nothing is left.
pub fn trimmed_or_none(s: &str) -> (r: Option<String>)
    ensures
        option_text(r) == nonempty_trimmed(s@),
{
    let t = trimmed(s);
    if t.as_str().is_empty() {
        None
    } else {
        Some(t)
    }
}

/// The token of an `Authorization` header: what follows the scheme, which may be written with a
/// capital or a small letter.
pub open spec fn bearer_of(header: Seq<char>) -> Option<Seq<char>> {
    match strip_prefix(header, "Bearer "@) {
        Some(rest) => nonempty_trimmed(rest),
        None => match strip_prefix(header, "bearer "@) {
            Some(rest) => nonempty_trimmed(rest),
            None => None,
        },
    }
}

/// The token of an `Authorization` header.
pub fn extract_bearer(header: Option<&str>) -> (r: Option<String>)
    ensures
        option_text(r) == match header {
            Some(h) => bearer_of(h@),
            None => None,
        },
{
    match header {
        None => None,
        Some(h) => match after_prefix(h, "Bearer ") {
            Some(rest) => trimmed_or_none(rest.as_str()),
            None => match after_prefix(h, "bearer ") {
                Some(rest) => trimmed_or_none(rest.as_str()),
                None => None,
            },
        },
    }
}

/// A token is read back from the header that carries it.
pub proof fn law_bearer_round_trip(token: Seq<char>)
    requires
        trim(token) == token,
        token.len() > 0,
    ensures
        bearer_of("Bearer "@ + token) == Some(token),
{
    let h = "Bearer "@ + token;
    let n = "Bearer "@.len() as int;
    assert(h.subrange(0, n) =~= "Bearer "@);
    assert(h.subrange(n, h.len() as int) =~= token);
}

/// The first of the addresses that a forwarding header lists.
pub open spec fn first_forwarded(header: Seq<char>) -> Option<Seq<char>> {
    nonempty_trimmed(split_on(header, ',')[0])
}

/// The address of a client: the first that `X-Forwarded-For` lists, or else `X-Real-IP`.
pub open spec fn client_ip_of(
    forwarded_for: Option<Seq<char>>,
    real_ip: Option<Seq<char>>,
) -> Option<Seq<char>> {
    let first = match forwarded_for {
        Some(h) => first_forwarded(h),
        None => None,
    };
    match first {
        Some(ip) => Some(ip),
        None => match real_ip {
            Some(h) => nonempty_trimmed(h),
            None => None,
        },
    }
}

/// The view of a header that may be absent.
pub open spec fn header_view(h: Option<&str>) -> Option<Seq<char>> {
    match h {
        Some(s) => Some(s@),
        None => None,
    }
}

/// The address of a client.
pub fn extract_client_ip(forwarded_for: Option<&str>, real_ip: Option<&str>) -> (r: Option<String>)
    ensures
        option_text(r) == client_ip_of(header_view(forwarded_for), header_view(real_ip)),
{
    if let Some(h) = forwarded_for {
        let v = chars_of(h);
        let p = find_from(&v, 0, ',');
        proof {
            assert(v@.subrange(0, v@.len() as int) =~= v@);
            lemma_find_char(v@, ',');
            assert(split_on(h@, ',')[0] =~= v@.subrange(0, p as int));
        }
        let b = trim_bounds(&v, 0, p);
        if b.0 < b.1 {
            return Some(text_of(&v, b.0, b.1));
        }
    }
    match real_ip {
        Some(h) => trimmed_or_none(h),
        None => None,
    }
}

/// A token admits a request: it and its user are enabled, it has not expired, and where it is
/// bound to addresses the request comes from one of them.
pub open spec fn admits(
    user: UserConfig,
    token: TokenConfig,
    client_ip: Option<String>,
    now: i64,
) -> bool {
    &&& user.status == 1
    &&& token.status == 1
    &&& !token.spec_is_expired(now)
    &&& match client_ip {
        Some(ip) => token.spec_allows_ip(ip@),
        None => token.allow_ips is None,
    }
}

/// Who makes a request that carries a token; nobody where the token does not admit it.
pub fn validate_token(
    user: UserConfig,
    token: TokenConfig,
    client_ip: Option<String>,
    now: i64,
) -> (r: Option<AuthContext>)
    ensures
        r == if admits(user, token, client_ip, now) {
            Some(AuthContext { user, token, client_ip })
        } else {
            None
        },
{
    let from_there = match &client_ip {
        Some(ip) => token.allows_ip(ip.as_str()),
        None => token.allow_ips.is_none(),
    };
    if user.is_enabled() && token.is_enabled() && !token.is_expired(now) && from_there {
        Some(AuthContext { user, token, client_ip })
    } else {
        None
    }
}

/// Whether a request may pass.
#[derive(Debug, Clone, Copy, PartialEq, Eq, Structural)]
pub enum RoleVerdict {
    Pass,
    Forbidden,
    Unauthenticated,
}

/// A guard that lets users of a role and above pass.
#[derive(Debug, Clone, Copy, PartialEq, Eq, Structural)]
pub struct RequireRoleLayer {
    pub min_role: i32,
}

/// A service behind the guard.
pub struct RequireRoleService<S> {
    pub inner: S,
    pub min_role: i32,
}

/// The guard for a role.
pub fn require_role(min_role: i32) -> (r: RequireRoleLayer)
    ensures
        r.min_role == min_role,
{
    RequireRoleLayer { min_role }
}

/// What the guard says of the roles of an admin session and of a client token: the session counts
/// where there is one.
pub open spec fn role_verdict(
    min_role: i32,
    session_role: Option<i32>,
    token_role: Option<i32>,
) -> RoleVerdict {
    let role = if session_role is Some {
        session_role
    } else {
        token_role
    };
    match role {
        Some(r) => if r >= min_role {
            RoleVerdict::Pass
        } else {
            RoleVerdict::Forbidden
        },
        None => RoleVerdict::Unauthenticated,
    }
}

/// The role of a session.
pub open spec fn session_role(session: Option<&AdminAuthContext>) -> Option<i32> {
    match session {
        Some(c) => Some(c.user.role),
        None => None,
    }
}

/// The role of a token's user.
pub open spec fn token_role(token: Option<&AuthContext>) -> Option<i32> {
    match token {
        Some(c) => Some(c.user.role),
        None => None,
    }
}

impl RequireRoleLayer {
    /// The guard in front of a service.
    pub fn layer<S>(&self, inner: S) -> (r: RequireRoleService<S>)
        ensures
            r.inner == inner,
            r.min_role == self.min_role,
    {
        RequireRoleService { inner, min_role: self.min_role }
    }
}

impl<S> RequireRoleService<S> {
    /// Whether a request may pass the guard.
    pub fn check(&self, session: Option<&AdminAuthContext>, token: Option<&AuthContext>) -> (r:
        RoleVerdict)
        ensures
            r == role_verdict(self.min_role, session_role(session), token_role(token)),
    {
        let role: Option<i32> = match session {
            Some(c) => Some(c.user.role),
            None => match token {
                Some(c) => Some(c.user.role),
                None => None,
            },
        };
        match role {
            Some(r) => if r >= self.min_role {
                RoleVerdict::Pass
            } else {
                RoleVerdict::Forbidden
            },
            None => RoleVerdict::Unauthenticated,
        }
    }
}

/// A bearer header, with the name of the scheme in either of its spellings, gives the token behind
/// it without the space around it; an empty token is none, and so is any other header.
pub proof fn law_bearer_headers(rest: Seq<char>, header: Seq<char>)
    ensures
        trim(rest).len() > 0 ==> {
            &&& bearer_of("Bearer "@ + rest) == Some(trim(rest))
            &&& bearer_of("bearer "@ + rest) == Some(trim(rest))
        },
        trim(rest).len() == 0 ==> {
            &&& bearer_of("Bearer "@ + rest) is None
            &&& bearer_of("bearer "@ + rest) is None
        },
        bearer_of(header) is Some ==> exists|t: Seq<char>|
            #![trigger "Bearer "@ + t]
            header == "Bearer "@ + t || header == "bearer "@ + t,
{
    law_prefix_is_taken_off("Bearer "@, rest, header);
    law_prefix_is_taken_off("bearer "@, rest, header);
    reveal_strlit("Bearer ");
    reveal_strlit("bearer ");
    let small = "bearer "@ + rest;
    if strip_prefix(small, "Bearer "@) is Some {
        assert(small.subrange(0, 7)[0] == "Bearer "@[0]);
        assert(small[0] == 'b');
    }
    if let Some(t) = strip_prefix(header, "Bearer "@) {
        assert(header == "Bearer "@ + t);
    } else if let Some(t) = strip_prefix(header, "bearer "@) {
        let full = "Bearer "@ + t;
        assert(header == "bearer "@ + t);
    }
}

/// The address of a client is the first one that it was forwarded for; only where there is none,
/// the one that the proxy names. The space around it is left out, and an empty one is none.
pub proof fn law_client_addresses(
    forwarded_for: Option<Seq<char>>,
    real_ip: Option<Seq<char>>,
    header: Seq<char>,
)
    ensures
        forwarded_for == Some(header) && trim(split_on(header, ',')[0]).len() > 0 ==> client_ip_of(
            forwarded_for,
            real_ip,
        ) == Some(trim(split_on(header, ',')[0])),
        forwarded_for == Some(header) && trim(split_on(header, ',')[0]).len() == 0 ==> client_ip_of(
            forwarded_for,
            real_ip,
        ) == client_ip_of(None, real_ip),
        real_ip == Some(header) && trim(header).len() > 0 ==> client_ip_of(None, real_ip) == Some(
            trim(header),
        ),
        real_ip == Some(header) && trim(header).len() == 0 ==> client_ip_of(None, real_ip) is None,
        client_ip_of(None, None) is None,
{
}

/// A token admits its user exactly where both are enabled, it has not expired and the address of
/// the client is among those it lists, if it lists any.
pub proof fn law_admitted_tokens(
    user: UserConfig,
    token: TokenConfig,
    client_ip: Option<String>,
    now: i64,
)
    ensures
        admits(user, token, client_ip, now) <==> {
            &&& user.status == 1
            &&& token.status == 1
            &&& token.expired_time == -1 || now < token.expired_time
            &&& token.allow_ips matches Some(ips) ==> (client_ip matches Some(ip) && exists|i: int|
                0 <= i < ips@.len() && (#[trigger] ips@[i])@ == ip@)
        },
{
    if let Some(ip) = client_ip {
        crate::types::law_listed_addresses_are_allowed(token, ip@);
    }
}

/// A role passes where it is at least the one required. The role of the session counts where there
/// is one, and only otherwise that of the token; without either nobody is known.
pub proof fn law_roles_pass_from_the_least(
    min_role: i32,
    session: Option<i32>,
    token: Option<i32>,
    role: i32,
)
    ensures
        session == Some(role) || (session is None && token == Some(role)) ==> {
            &&& role >= min_role <==> role_verdict(min_role, session, token) == RoleVerdict::Pass
            &&& role < min_role <==> role_verdict(min_role, session, token)
                == RoleVerdict::Forbidden
        },
        role_verdict(min_role, session, token) == RoleVerdict::Unauthenticated <==> session is None
            && token is None,
{
}

/// The role of a session or a token is that of its user.
pub proof fn law_roles_are_those_of_the_users(
    session: Option<&AdminAuthContext>,
    token: Option<&AuthContext>,
)
    ensures
        session matches Some(s) ==> session_role(session) == Some(s.user.role),
        session is None ==> session_role(session) is None,
        token matches Some(t) ==> token_role(token) == Some(t.user.role),
        token is None ==> token_role(token) is None,
{
}

} // verus!
