//! Charging requests on two layers: the quota of the user and the quota of the token.
use vstd::prelude::*;

use crate::error::{ProxyError, ProxyResult};
use crate::table::Table;
use crate::text::{decimal, push_decimal};

verus! {

/// A request that was charged in advance and is to be settled or refunded.
#[derive(Debug, Clone, Copy, PartialEq, Eq, Structural)]
pub struct BillingSession {
    pub user_id: i64,
    pub token_id: i64,
    pub pre_charged: i64,
    pub settled: bool,
    pub token_unlimited: bool,
}

/// The quota of a user and how much of it is used.
#[derive(Debug, Clone, Copy, PartialEq, Eq, Structural)]
pub struct UserAccount {
    pub quota: i64,
    pub used_quota: i64,
}

/// The quota of a token: what remains of it, what is used, and whether it is unlimited.
#[derive(Debug, Clone, Copy, PartialEq, Eq, Structural)]
pub struct TokenAccount {
    pub remain_quota: i64,
    pub used_quota: i64,
    pub unlimited_quota: bool,
    pub status: i32,
}

/// The status of a token that has nothing left.
pub const TOKEN_EXHAUSTED: i32 = 3;

/// The accounts of users and tokens.
pub struct Ledger {
    pub users: Table<i64, UserAccount>,
    pub tokens: Table<i64, TokenAccount>,
}

/// The accounts as maps.
#[verifier::ext_equal]
pub struct Accounts {
    pub users: Map<i64, UserAccount>,
    pub tokens: Map<i64, TokenAccount>,
}

impl View for Ledger {
    type V = Accounts;

    open spec fn view(&self) -> Accounts {
        Accounts { users: self.users@, tokens: self.tokens@ }
    }
}

impl Accounts {
    /// The user exists and has at least `amount` left.
    pub open spec fn user_affords(self, user_id: i64, amount: int) -> bool {
        self.users.contains_key(user_id) && self.users[user_id].quota
            - self.users[user_id].used_quota >= amount
    }

    /// The token exists and has at least `amount` left.
    pub open spec fn token_affords(self, token_id: i64, amount: int) -> bool {
        self.tokens.contains_key(token_id) && self.tokens[token_id].remain_quota >= amount
    }

    /// Both layers can pay `amount`; an unlimited token always can.
    pub open spec fn affords(
        self,
        user_id: i64,
        token_id: i64,
        amount: int,
        token_unlimited: bool,
    ) -> bool {
        self.user_affords(user_id, amount) && (token_unlimited || self.token_affords(
            token_id,
            amount,
        ))
    }

    /// The user's account after `delta` more was used.
    pub open spec fn charge_user(self, user_id: i64, delta: int) -> Map<i64, UserAccount> {
        if self.users.contains_key(user_id) {
            let u = self.users[user_id];
            self.users.insert(user_id, UserAccount { used_quota: (u.used_quota + delta) as i64, ..u })
        } else {
            self.users
        }
    }

    /// The token's account after `delta` more was used.
    pub open spec fn charge_token(self, token_id: i64, delta: int) -> Map<i64, TokenAccount> {
        if self.tokens.contains_key(token_id) {
            let t = self.tokens[token_id];
            self.tokens.insert(
                token_id,
                TokenAccount {
                    remain_quota: (t.remain_quota - delta) as i64,
                    used_quota: (t.used_quota + delta) as i64,
                    ..t
                },
            )
        } else {
            self.tokens
        }
    }

    /// The accounts after `delta` more was used on both layers; an unlimited token is left alone.
    pub open spec fn charge(
        self,
        user_id: i64,
        token_id: i64,
        delta: int,
        token_unlimited: bool,
    ) -> Accounts {
        Accounts {
            users: self.charge_user(user_id, delta),
            tokens: if token_unlimited {
                self.tokens
            } else {
                self.charge_token(token_id, delta)
            },
        }
    }

    /// The numbers of the accounts after a charge fit their types.
    pub open spec fn charge_fits(
        self,
        user_id: i64,
        token_id: i64,
        delta: int,
        token_unlimited: bool,
    ) -> bool {
        &&& self.users.contains_key(user_id) ==> i64::MIN <= self.users[user_id].used_quota + delta
            <= i64::MAX
        &&& !token_unlimited && self.tokens.contains_key(token_id) ==> {
            &&& i64::MIN <= self.tokens[token_id].used_quota + delta <= i64::MAX
            &&& i64::MIN <= self.tokens[token_id].remain_quota - delta <= i64::MAX
        }
    }

    /// The accounts with a token marked as exhausted where it has nothing left.
    pub open spec fn mark_exhausted(self, token_id: i64) -> Accounts {
        if self.tokens.contains_key(token_id) && self.tokens[token_id].remain_quota <= 0 {
            Accounts {
                tokens: self.tokens.insert(
                    token_id,
                    TokenAccount { status: TOKEN_EXHAUSTED, ..self.tokens[token_id] },
                ),
                ..self
            }
        } else {
            self
        }
    }

    /// The accounts after a session was settled at a cost.
    pub open spec fn settle(self, session: BillingSession, actual_cost: int) -> Accounts {
        let charged = self.charge(
            session.user_id,
            session.token_id,
            actual_cost - session.pre_charged,
            session.token_unlimited,
        );
        if session.token_unlimited {
            charged
        } else {
            charged.mark_exhausted(session.token_id)
        }
    }

    /// The accounts after a session was refunded.
    pub open spec fn refund(self, session: BillingSession) -> Accounts {
        self.charge(
            session.user_id,
            session.token_id,
            -session.pre_charged,
            session.token_unlimited,
        )
    }
}

/// The error is a configuration error with the given text.
pub open spec fn is_config_error(e: ProxyError, text: Seq<char>) -> bool {
    match e {
        ProxyError::Config(m) => m@ == text,
        _ => false,
    }
}

/// The text of an error about an account that cannot pay.
pub open spec fn insufficient_text(front: Seq<char>, id: i64, amount: i64) -> Seq<char> {
    front + decimal(id as int) + " needed="@ + decimal(amount as int)
}

fn insufficient(front: &str, id: i64, amount: i64) -> (r: ProxyError)
    ensures
        is_config_error(r, insufficient_text(front@, id, amount)),
{
    let mut m = front.to_owned();
    push_decimal(&mut m, id);
    m.append(" needed=");
    push_decimal(&mut m, amount);
    ProxyError::Config(m)
}

/// Whether a number fits the type of a quota.
fn in_range(n: i128) -> (r: bool)
    ensures
        r == (i64::MIN <= n <= i64::MAX),
{
    i64::MIN as i128 <= n && n <= i64::MAX as i128
}

impl Ledger {
    pub fn new() -> (r: Self)
        ensures
            r@.users == Map::<i64, UserAccount>::empty(),
            r@.tokens == Map::<i64, TokenAccount>::empty(),
    {
        Ledger { users: Table::new(), tokens: Table::new() }
    }

    /// What a user has left.
    pub fn get_user_quota(&self, user_id: i64) -> (r: Option<i128>)
        ensures
            r == if self@.users.contains_key(user_id) {
                Some((self@.users[user_id].quota - self@.users[user_id].used_quota) as i128)
            } else {
                None
            },
    {
        match self.users.get(&user_id) {
            Some(u) => Some(u.quota as i128 - u.used_quota as i128),
            None => None,
        }
    }

    /// What a token has left.
    pub fn get_token_remain_quota(&self, token_id: i64) -> (r: Option<i64>)
        ensures
            r == if self@.tokens.contains_key(token_id) {
                Some(self@.tokens[token_id].remain_quota)
            } else {
                None
            },
    {
        match self.tokens.get(&token_id) {
            Some(t) => Some(t.remain_quota),
            None => None,
        }
    }

    /// Whether a token is unlimited.
    pub fn get_token_unlimited(&self, token_id: i64) -> (r: Option<bool>)
        ensures
            r == if self@.tokens.contains_key(token_id) {
                Some(self@.tokens[token_id].unlimited_quota)
            } else {
                None
            },
    {
        match self.tokens.get(&token_id) {
            Some(t) => Some(t.unlimited_quota),
            None => None,
        }
    }

    /// Sets the status of a token.
    pub fn update_token_status(&mut self, token_id: i64, status: i32)
        ensures
            final(self)@.users == old(self)@.users,
            final(self)@.tokens == if old(self)@.tokens.contains_key(token_id) {
                old(self)@.tokens.insert(
                    token_id,
                    (TokenAccount { status, ..old(self)@.tokens[token_id] }),
                )
            } else {
                old(self)@.tokens
            },
    {
        let account: Option<TokenAccount> = match self.tokens.get(&token_id) {
            Some(t) => Some(*t),
            None => None,
        };
        if let Some(t) = account {
            self.tokens.insert(
                token_id,
                TokenAccount {
                    remain_quota: t.remain_quota,
                    used_quota: t.used_quota,
                    unlimited_quota: t.unlimited_quota,
                    status,
                },
            );
        }
    }

    /// Whether the numbers of the accounts fit their types after a charge.
    pub fn can_charge(
        &self,
        user_id: i64,
        token_id: i64,
        delta: i128,
        token_unlimited: bool,
    ) -> (r: bool)
        requires
            -0x1_0000_0000_0000_0000 <= delta <= 0x1_0000_0000_0000_0000,
        ensures
            r == self@.charge_fits(user_id, token_id, delta as int, token_unlimited),
    {
        let user_fits = match self.users.get(&user_id) {
            Some(u) => in_range(u.used_quota as i128 + delta),
            None => true,
        };
        if !user_fits || token_unlimited {
            return user_fits;
        }
        match self.tokens.get(&token_id) {
            Some(t) => in_range(t.used_quota as i128 + delta) && in_range(
                t.remain_quota as i128 - delta,
            ),
            None => true,
        }
    }

    /// Charges `delta`, which may be negative, on both layers without asking what is left.
    pub fn settle_atomic(&mut self, user_id: i64, token_id: i64, delta: i64, token_unlimited: bool)
        requires
            old(self)@.charge_fits(user_id, token_id, delta as int, token_unlimited),
        ensures
            final(self)@ == old(self)@.charge(user_id, token_id, delta as int, token_unlimited),
    {
        let user: Option<UserAccount> = match self.users.get(&user_id) {
            Some(u) => Some(*u),
            None => None,
        };
        if let Some(u) = user {
            self.users.insert(
                user_id,
                UserAccount { quota: u.quota, used_quota: u.used_quota + delta },
            );
        }
        if !token_unlimited {
            let token: Option<TokenAccount> = match self.tokens.get(&token_id) {
                Some(t) => Some(*t),
                None => None,
            };
            if let Some(t) = token {
                self.tokens.insert(
                    token_id,
                    TokenAccount {
                        remain_quota: t.remain_quota - delta,
                        used_quota: t.used_quota + delta,
                        unlimited_quota: t.unlimited_quota,
                        status: t.status,
                    },
                );
            }
        }
        proof {
            assert(self@ =~= old(self)@.charge(user_id, token_id, delta as int, token_unlimited));
        }
    }

    /// Charges `amount` on both layers where both can pay; otherwise nothing changes.
    pub fn pre_charge_atomic(
        &mut self,
        user_id: i64,
        token_id: i64,
        amount: i64,
        token_unlimited: bool,
    ) -> (r: ProxyResult<()>)
        requires
            amount >= 0,
            !token_unlimited && old(self)@.tokens.contains_key(token_id) ==> old(
                self,
            )@.tokens[token_id].used_quota + amount <= i64::MAX,
        ensures
            ({
                let before = old(self)@;
                &&& before.users.contains_key(user_id)
                &&& before.users[user_id].quota - before.users[user_id].used_quota >= amount
                &&& token_unlimited || (before.tokens.contains_key(token_id)
                    && before.tokens[token_id].remain_quota >= amount)
            }) <==> r is Ok,
            r is Ok ==> final(self)@.users[user_id].used_quota == old(
                self,
            )@.users[user_id].used_quota + amount,
            match r {
                Ok(_) => old(self)@.affords(user_id, token_id, amount as int, token_unlimited)
                    && final(self)@ == old(self)@.charge(
                    user_id,
                    token_id,
                    amount as int,
                    token_unlimited,
                ),
                Err(e) => {
                    &&& !old(self)@.affords(user_id, token_id, amount as int, token_unlimited)
                    &&& *final(self) == *old(self)
                    &&& is_config_error(
                        e,
                        if !old(self)@.user_affords(user_id, amount as int) {
                            insufficient_text(
                                "insufficient user quota: user_id="@,
                                user_id,
                                amount,
                            )
                        } else {
                            insufficient_text(
                                "insufficient token quota: token_id="@,
                                token_id,
                                amount,
                            )
                        },
                    )
                },
            },
    {
        let user_pays = match self.get_user_quota(user_id) {
            Some(left) => left >= amount as i128,
            None => false,
        };
        if !user_pays {
            return Err(insufficient("insufficient user quota: user_id=", user_id, amount));
        }
        if !token_unlimited {
            let token_pays = match self.get_token_remain_quota(token_id) {
                Some(left) => left >= amount,
                None => false,
            };
            if !token_pays {
                return Err(insufficient("insufficient token quota: token_id=", token_id, amount));
            }
        }
        self.settle_atomic(user_id, token_id, amount, token_unlimited);
        Ok(())
    }

    /// Gives `amount` back on both layers.
    pub fn refund_atomic(
        &mut self,
        user_id: i64,
        token_id: i64,
        amount: i64,
        token_unlimited: bool,
    )
        requires
            amount > i64::MIN,
            old(self)@.charge_fits(user_id, token_id, -amount, token_unlimited),
        ensures
            final(self)@ == old(self)@.charge(user_id, token_id, -amount, token_unlimited),
    {
        self.settle_atomic(user_id, token_id, -amount, token_unlimited);
    }
}

/// The charging of requests.
pub struct BillingManager;

impl BillingManager {
    pub fn new() -> (r: Self) {
        BillingManager
    }

    /// Charges the estimated cost of a request in advance. A negative cost is refused, and so is
    /// an unknown token and a cost that one of the layers cannot pay; then nothing changes.
    pub fn pre_charge(
        ledger: &mut Ledger,
        user_id: i64,
        token_id: i64,
        estimated_cost: i64,
    ) -> (r: ProxyResult<BillingSession>)
        requires
            old(ledger)@.tokens.contains_key(token_id) && !old(
                ledger,
            )@.tokens[token_id].unlimited_quota ==> old(ledger)@.tokens[token_id].used_quota
                + estimated_cost <= i64::MAX,
        ensures
            ({
                let before = old(ledger)@;
                &&& estimated_cost >= 0
                &&& before.tokens.contains_key(token_id)
                &&& estimated_cost > 0 ==> {
                    &&& before.users.contains_key(user_id)
                    &&& before.users[user_id].quota - before.users[user_id].used_quota
                        >= estimated_cost
                    &&& before.tokens[token_id].unlimited_quota
                        || before.tokens[token_id].remain_quota >= estimated_cost
                }
            }) <==> r is Ok,
            r is Ok && old(ledger)@.users.contains_key(user_id) ==> final(ledger)@.users[user_id].used_quota == old(ledger)@.users[user_id].used_quota
                + estimated_cost,
            match r {
                Ok(session) => {
                    let unlimited = old(ledger)@.tokens[token_id].unlimited_quota;
                    &&& estimated_cost >= 0
                    &&& old(ledger)@.tokens.contains_key(token_id)
                    &&& session == (BillingSession {
                        user_id,
                        token_id,
                        pre_charged: estimated_cost,
                        settled: false,
                        token_unlimited: unlimited,
                    })
                    &&& estimated_cost > 0 ==> old(ledger)@.affords(
                        user_id,
                        token_id,
                        estimated_cost as int,
                        unlimited,
                    )
                    &&& final(ledger)@ == old(ledger)@.charge(
                        user_id,
                        token_id,
                        estimated_cost as int,
                        unlimited,
                    )
                },
                Err(e) => {
                    &&& *final(ledger) == *old(ledger)
                    &&& if estimated_cost < 0 {
                        is_config_error(
                            e,
                            "estimated_cost must be non-negative, got "@ + decimal(
                                estimated_cost as int,
                            ),
                        )
                    } else if !old(ledger)@.tokens.contains_key(token_id) {
                        is_config_error(e, "token "@ + decimal(token_id as int) + " not found"@)
                    } else {
                        &&& estimated_cost > 0
                        &&& !old(ledger)@.affords(
                            user_id,
                            token_id,
                            estimated_cost as int,
                            old(ledger)@.tokens[token_id].unlimited_quota,
                        )
                        &&& is_config_error(
                            e,
                            if !old(ledger)@.user_affords(user_id, estimated_cost as int) {
                                insufficient_text(
                                    "insufficient user quota: user_id="@,
                                    user_id,
                                    estimated_cost,
                                )
                            } else {
                                insufficient_text(
                                    "insufficient token quota: token_id="@,
                                    token_id,
                                    estimated_cost,
                                )
                            },
                        )
                    }
                },
            },
    {
        if estimated_cost < 0 {
            let mut m = "estimated_cost must be non-negative, got ".to_owned();
            push_decimal(&mut m, estimated_cost);
            return Err(ProxyError::Config(m));
        }
        let unlimited = match ledger.get_token_unlimited(token_id) {
            Some(u) => u,
            None => {
                let mut m = "token ".to_owned();
                push_decimal(&mut m, token_id);
                m.append(" not found");
                return Err(ProxyError::Config(m));
            },
        };
        let session = BillingSession {
            user_id,
            token_id,
            pre_charged: estimated_cost,
            settled: false,
            token_unlimited: unlimited,
        };
        if estimated_cost == 0 {
            proof {
                law_charging_nothing_changes_nothing(ledger@, user_id, token_id, unlimited);
            }
            return Ok(session);
        }
        match ledger.pre_charge_atomic(user_id, token_id, estimated_cost, unlimited) {
            Ok(_) => Ok(session),
            Err(e) => Err(e),
        }
    }

    /// Settles a session at the actual cost: charges or gives back the difference to what was
    /// charged in advance, and marks a limited token that has nothing left as exhausted. A session
    /// that was settled before is refused, and so is a negative cost; then nothing changes.
    pub fn settle(
        ledger: &mut Ledger,
        session: &mut BillingSession,
        actual_cost: i64,
    ) -> (r: ProxyResult<()>)
        requires
            actual_cost >= 0 && !old(session).settled ==> {
                &&& i64::MIN <= actual_cost - old(session).pre_charged <= i64::MAX
                &&& old(ledger)@.charge_fits(
                    old(session).user_id,
                    old(session).token_id,
                    actual_cost - old(session).pre_charged,
                    old(session).token_unlimited,
                )
            },
        ensures
            match r {
                Ok(_) => {
                    &&& !old(session).settled
                    &&& actual_cost >= 0
                    &&& final(ledger)@ == old(ledger)@.settle(*old(session), actual_cost as int)
                    &&& *final(session) == (BillingSession { settled: true, ..*old(session) })
                },
                Err(e) => {
                    &&& *final(ledger) == *old(ledger)
                    &&& *final(session) == *old(session)
                    &&& old(session).settled || actual_cost < 0
                    &&& is_config_error(
                        e,
                        if old(session).settled {
                            "billing session already settled"@
                        } else {
                            "actual_cost must be non-negative, got "@ + decimal(actual_cost as int)
                        },
                    )
                },
            },
    {
        if session.settled {
            return Err(ProxyError::Config("billing session already settled".to_owned()));
        }
        if actual_cost < 0 {
            let mut m = "actual_cost must be non-negative, got ".to_owned();
            push_decimal(&mut m, actual_cost);
            return Err(ProxyError::Config(m));
        }
        let delta: i64 = actual_cost - session.pre_charged;
        if delta != 0 {
            ledger.settle_atomic(
                session.user_id,
                session.token_id,
                delta,
                session.token_unlimited,
            );
        } else {
            proof {
                law_charging_nothing_changes_nothing(
                    ledger@,
                    session.user_id,
                    session.token_id,
                    session.token_unlimited,
                );
            }
        }
        if !session.token_unlimited {
            let remaining = ledger.get_token_remain_quota(session.token_id);
            if let Some(left) = remaining {
                if left <= 0 {
                    ledger.update_token_status(session.token_id, TOKEN_EXHAUSTED);
                }
            }
        }
        session.settled = true;
        proof {
            assert(ledger@ =~= old(ledger)@.settle(*old(session), actual_cost as int));
        }
        Ok(())
    }

    /// Gives back what was charged in advance.
    pub fn refund(ledger: &mut Ledger, session: BillingSession)
        requires
            session.pre_charged > i64::MIN,
            old(ledger)@.charge_fits(
                session.user_id,
                session.token_id,
                -session.pre_charged,
                session.token_unlimited,
            ),
        ensures
            final(ledger)@ == old(ledger)@.refund(session),
    {
        if session.pre_charged == 0 {
            proof {
                law_charging_nothing_changes_nothing(
                    ledger@,
                    session.user_id,
                    session.token_id,
                    session.token_unlimited,
                );
            }
            return;
        }
        ledger.refund_atomic(
            session.user_id,
            session.token_id,
            session.pre_charged,
            session.token_unlimited,
        );
    }
}

impl Default for BillingManager {
    fn default() -> (r: Self) {
        BillingManager::new()
    }
}

/// A charge of nothing changes no account.
pub proof fn law_charging_nothing_changes_nothing(
    a: Accounts,
    user_id: i64,
    token_id: i64,
    token_unlimited: bool,
)
    ensures
        a.charge(user_id, token_id, 0, token_unlimited) == a,
{
    let b = a.charge(user_id, token_id, 0, token_unlimited);
    assert(b.users =~= a.users);
    assert(b.tokens =~= a.tokens);
}

/// Charging one amount and then another is charging their sum.
pub proof fn law_charges_add_up(
    a: Accounts,
    user_id: i64,
    token_id: i64,
    first: int,
    second: int,
    token_unlimited: bool,
)
    requires
        a.charge_fits(user_id, token_id, first, token_unlimited),
    ensures
        a.charge(user_id, token_id, first, token_unlimited).charge(
            user_id,
            token_id,
            second,
            token_unlimited,
        ) == a.charge(user_id, token_id, first + second, token_unlimited),
{
    let b = a.charge(user_id, token_id, first, token_unlimited).charge(
        user_id,
        token_id,
        second,
        token_unlimited,
    );
    let c = a.charge(user_id, token_id, first + second, token_unlimited);
    assert(b.users =~= c.users);
    assert(b.tokens =~= c.tokens);
}

/// A refund undoes the charge made in advance: both layers are as they were.
pub proof fn law_refund_undoes_pre_charge(a: Accounts, session: BillingSession)
    requires
        a.charge_fits(
            session.user_id,
            session.token_id,
            session.pre_charged as int,
            session.token_unlimited,
        ),
    ensures
        a.charge(
            session.user_id,
            session.token_id,
            session.pre_charged as int,
            session.token_unlimited,
        ).refund(session) == a,
{
    law_charges_add_up(
        a,
        session.user_id,
        session.token_id,
        session.pre_charged as int,
        -session.pre_charged,
        session.token_unlimited,
    );
    law_charging_nothing_changes_nothing(
        a,
        session.user_id,
        session.token_id,
        session.token_unlimited,
    );
}

/// After a charge in advance and a settlement the user has paid exactly the actual cost, and a
/// limited token too, whatever was charged in advance.
pub proof fn law_settlement_charges_actual_cost(
    a: Accounts,
    session: BillingSession,
    actual_cost: int,
)
    requires
        a.charge_fits(
            session.user_id,
            session.token_id,
            session.pre_charged as int,
            session.token_unlimited,
        ),
    ensures
        ({
            let settled = a.charge(
                session.user_id,
                session.token_id,
                session.pre_charged as int,
                session.token_unlimited,
            ).settle(session, actual_cost);
            let direct = a.charge(
                session.user_id,
                session.token_id,
                actual_cost,
                session.token_unlimited,
            );
            &&& settled.users == direct.users
            &&& session.token_unlimited ==> settled.tokens == a.tokens
            &&& !session.token_unlimited ==> settled == direct.mark_exhausted(session.token_id)
        }),
{
    law_charges_add_up(
        a,
        session.user_id,
        session.token_id,
        session.pre_charged as int,
        actual_cost - session.pre_charged,
        session.token_unlimited,
    );
}

/// What a token has used and what remains of it add up to the same before and after a charge.
pub proof fn law_token_quota_is_conserved(
    a: Accounts,
    user_id: i64,
    token_id: i64,
    delta: int,
    token_unlimited: bool,
    any_token: i64,
)
    requires
        a.charge_fits(user_id, token_id, delta, token_unlimited),
        a.tokens.contains_key(any_token),
    ensures
        ({
            let b = a.charge(user_id, token_id, delta, token_unlimited);
            &&& b.tokens.contains_key(any_token)
            &&& b.tokens[any_token].used_quota + b.tokens[any_token].remain_quota
                == a.tokens[any_token].used_quota + a.tokens[any_token].remain_quota
        }),
{
}

/// A charge touches no user and no token but those it names.
pub proof fn law_charge_touches_only_its_accounts(
    a: Accounts,
    user_id: i64,
    token_id: i64,
    delta: int,
    token_unlimited: bool,
    other: i64,
)
    ensures
        ({
            let b = a.charge(user_id, token_id, delta, token_unlimited);
            &&& other != user_id && a.users.contains_key(other) ==> b.users[other] == a.users[other]
            &&& other != token_id && a.tokens.contains_key(other) ==> b.tokens[other]
                == a.tokens[other]
            &&& b.users.dom() == a.users.dom()
            &&& b.tokens.dom() == a.tokens.dom()
        }),
{
    let b = a.charge(user_id, token_id, delta, token_unlimited);
    assert(b.users.dom() =~= a.users.dom());
    assert(b.tokens.dom() =~= a.tokens.dom());
}

/// A charge made in advance leaves no user over their quota and no limited token below zero.
pub proof fn law_pre_charge_never_overdraws(
    a: Accounts,
    user_id: i64,
    token_id: i64,
    amount: int,
    token_unlimited: bool,
)
    requires
        amount >= 0,
        a.affords(user_id, token_id, amount, token_unlimited),
        a.charge_fits(user_id, token_id, amount, token_unlimited),
    ensures
        ({
            let b = a.charge(user_id, token_id, amount, token_unlimited);
            &&& b.users[user_id].used_quota <= b.users[user_id].quota
            &&& !token_unlimited ==> b.tokens[token_id].remain_quota >= 0
        }),
{
}

/// An unlimited token pays nothing and needs no quota of its own, but its user pays all the same
/// and has to afford it.
pub proof fn law_unlimited_token_charges_its_user(
    a: Accounts,
    user_id: i64,
    token_id: i64,
    amount: int,
)
    requires
        a.charge_fits(user_id, token_id, amount, true),
    ensures
        a.affords(user_id, token_id, amount, true) <==> a.user_affords(user_id, amount),
        a.charge(user_id, token_id, amount, true).tokens == a.tokens,
        a.users.contains_key(user_id) ==> a.charge(
            user_id,
            token_id,
            amount,
            true,
        ).users[user_id].used_quota == a.users[user_id].used_quota + amount,
{
}

/// A charge that both layers can pay is accepted, to the last unit of what they have left; one
/// that exceeds what a limited layer has left is not.
pub proof fn law_payable_charge_is_accepted(
    a: Accounts,
    user_id: i64,
    token_id: i64,
    amount: int,
    token_unlimited: bool,
)
    requires
        a.users.contains_key(user_id),
        a.tokens.contains_key(token_id),
    ensures
        ({
            let left = a.users[user_id].quota - a.users[user_id].used_quota;
            let remain = a.tokens[token_id].remain_quota;
            &&& amount <= left && token_unlimited ==> a.affords(user_id, token_id, amount, true)
            &&& amount <= left && amount <= remain ==> a.affords(
                user_id,
                token_id,
                amount,
                token_unlimited,
            )
            &&& amount > left ==> !a.affords(user_id, token_id, amount, token_unlimited)
            &&& amount > remain ==> !a.affords(user_id, token_id, amount, false)
            &&& amount <= left <==> a.user_affords(user_id, amount)
        }),
{
}

/// An unknown user pays nothing, and neither does an unknown token with a limit.
pub proof fn law_unknown_accounts_pay_nothing(
    a: Accounts,
    user_id: i64,
    token_id: i64,
    amount: int,
    token_unlimited: bool,
)
    ensures
        !a.users.contains_key(user_id) ==> !a.affords(user_id, token_id, amount, token_unlimited),
        !a.tokens.contains_key(token_id) ==> !a.affords(user_id, token_id, amount, false),
{
}

/// After a charge, what can still be paid is what could be paid before less the charge.
pub proof fn law_charge_lowers_what_can_be_paid(
    a: Accounts,
    user_id: i64,
    token_id: i64,
    amount: int,
    more: int,
    token_unlimited: bool,
)
    requires
        a.charge_fits(user_id, token_id, amount, token_unlimited),
    ensures
        a.charge(user_id, token_id, amount, token_unlimited).affords(
            user_id,
            token_id,
            more,
            token_unlimited,
        ) <==> a.affords(user_id, token_id, amount + more, token_unlimited),
{
}

/// A charge adds to what the user has used. From a limited token it takes as much as it adds to
/// what the token has used. Quotas, limits and states stay.
pub proof fn law_charge_moves_its_amount(
    a: Accounts,
    user_id: i64,
    token_id: i64,
    amount: int,
    token_unlimited: bool,
)
    requires
        a.users.contains_key(user_id),
        a.tokens.contains_key(token_id),
        i64::MIN <= a.users[user_id].used_quota + amount <= i64::MAX,
        i64::MIN <= a.tokens[token_id].used_quota + amount <= i64::MAX,
        i64::MIN <= a.tokens[token_id].remain_quota - amount <= i64::MAX,
    ensures
        a.charge_fits(user_id, token_id, amount, token_unlimited),
        ({
            let b = a.charge(user_id, token_id, amount, token_unlimited);
            &&& b.users[user_id].used_quota == a.users[user_id].used_quota + amount
            &&& b.users[user_id].quota == a.users[user_id].quota
            &&& !token_unlimited ==> b.tokens[token_id].used_quota == a.tokens[token_id].used_quota
                + amount
            &&& !token_unlimited ==> b.tokens[token_id].remain_quota
                == a.tokens[token_id].remain_quota - amount
            &&& token_unlimited ==> b.tokens[token_id] == a.tokens[token_id]
            &&& b.tokens[token_id].unlimited_quota == a.tokens[token_id].unlimited_quota
            &&& b.tokens[token_id].status == a.tokens[token_id].status
        }),
{
}

/// A settlement leaves the user charged with the actual cost. A limited token that then has
/// nothing left is exhausted, and any other token keeps its state.
pub proof fn law_settlement_exhausts_empty_tokens(
    a: Accounts,
    session: BillingSession,
    actual_cost: int,
)
    requires
        a.users.contains_key(session.user_id),
        a.tokens.contains_key(session.token_id),
        a.charge_fits(
            session.user_id,
            session.token_id,
            actual_cost - session.pre_charged,
            session.token_unlimited,
        ),
    ensures
        ({
            let b = a.settle(session, actual_cost);
            let delta = actual_cost - session.pre_charged;
            let before = a.tokens[session.token_id];
            let after = b.tokens[session.token_id];
            &&& b.users[session.user_id].used_quota == a.users[session.user_id].used_quota + delta
            &&& b.users[session.user_id].quota == a.users[session.user_id].quota
            &&& session.token_unlimited ==> after == before
            &&& !session.token_unlimited ==> after.remain_quota == before.remain_quota - delta
            &&& !session.token_unlimited ==> after.used_quota == before.used_quota + delta
            &&& !session.token_unlimited && before.remain_quota - delta <= 0 ==> after.status == 3
            &&& !session.token_unlimited && before.remain_quota - delta > 0 ==> after.status
                == before.status
        }),
{
}

/// A refund gives the user and a limited token back what was charged in advance.
pub proof fn law_refund_gives_back_what_was_charged(a: Accounts, session: BillingSession)
    requires
        a.users.contains_key(session.user_id),
        a.tokens.contains_key(session.token_id),
        a.charge_fits(
            session.user_id,
            session.token_id,
            -session.pre_charged,
            session.token_unlimited,
        ),
    ensures
        ({
            let b = a.refund(session);
            let before = a.tokens[session.token_id];
            let after = b.tokens[session.token_id];
            &&& b.users[session.user_id].used_quota == a.users[session.user_id].used_quota
                - session.pre_charged
            &&& session.token_unlimited ==> after == before
            &&& !session.token_unlimited ==> after.remain_quota == before.remain_quota
                + session.pre_charged
            &&& !session.token_unlimited ==> after.used_quota == before.used_quota
                - session.pre_charged
            &&& after.status == before.status
        }),
{
}

/// A refused charge is a configuration error whose message ends with its text.
pub proof fn law_refused_charges_tell_why(e: ProxyError, text: Seq<char>)
    requires
        is_config_error(e, text),
    ensures
        e is Config,
        crate::error::ends_with(e.spec_message(), text),
{
    crate::error::law_message_ends_with_its_text(e, text);
}

/// What a refused charge says ends with the amount that was needed.
pub proof fn law_refused_charges_tell_the_amount(front: Seq<char>, id: i64, amount: i64)
    ensures
        insufficient_text(front, id, amount) == front + decimal(id as int) + " needed="@ + decimal(
            amount as int,
        ),
        crate::error::ends_with(insufficient_text(front, id, amount), decimal(amount as int)),
{
    let whole = insufficient_text(front, id, amount);
    let n = decimal(amount as int).len();
    assert(whole.subrange(whole.len() - n, whole.len() as int) =~= decimal(amount as int));
}

} // verus!
