use chennix::billing::{BillingManager, BillingSession, Ledger, TokenAccount, UserAccount};
use chennix::error::ProxyError;

fn ledger() -> Ledger {
    let mut l = Ledger::new();
    l.users.insert(1, UserAccount { quota: 1000, used_quota: 0 });
    l.tokens.insert(
        10,
        TokenAccount { remain_quota: 500, used_quota: 0, unlimited_quota: false, status: 1 },
    );
    l
}

fn user_used(l: &Ledger) -> i64 {
    l.users.get(&1).unwrap().used_quota
}

fn token(l: &Ledger) -> TokenAccount {
    *l.tokens.get(&10).unwrap()
}

#[test]
fn test_pre_charge_success() {
    let mut repo = ledger();
    let session = BillingManager::pre_charge(&mut repo, 1, 10, 100).unwrap();

    assert_eq!(session.user_id, 1);
    assert_eq!(session.token_id, 10);
    assert_eq!(session.pre_charged, 100);
    assert!(!session.settled);
    assert!(!session.token_unlimited);

    assert_eq!(user_used(&repo), 100, "user used_quota should be 100");
    assert_eq!(token(&repo).remain_quota, 400, "token remain should drop by 100");
    assert_eq!(token(&repo).used_quota, 100, "token used should rise by 100");
    assert_eq!(token(&repo).status, 1, "token still enabled");
}

#[test]
fn test_pre_charge_insufficient_user_quota() {
    let mut repo = ledger();
    // user has 1000 - 0 = 1000 available; ask for 2000
    let err = BillingManager::pre_charge(&mut repo, 1, 10, 2000).unwrap_err();
    assert!(matches!(err, ProxyError::Config(_)), "got {:?}", err);

    // No side effects
    assert_eq!(user_used(&repo), 0);
    assert_eq!(token(&repo).remain_quota, 500);
    assert_eq!(token(&repo).used_quota, 0);
}

#[test]
fn test_pre_charge_insufficient_token_quota() {
    let mut repo = ledger();
    // user has 1000, token has 500. Ask for 800: user OK, token fails.
    let err = BillingManager::pre_charge(&mut repo, 1, 10, 800).unwrap_err();
    assert!(matches!(err, ProxyError::Config(_)), "got {:?}", err);

    // No side effects on either layer
    assert_eq!(user_used(&repo), 0, "user layer must not be touched");
    assert_eq!(token(&repo).remain_quota, 500, "token layer must not be touched");
    assert_eq!(token(&repo).used_quota, 0);
}

#[test]
fn test_settle_refund_when_actual_below_pre_charge() {
    let mut repo = ledger();
    let mut session = BillingManager::pre_charge(&mut repo, 1, 10, 100).unwrap();

    // actual usage only 30: refund 70 to both layers
    BillingManager::settle(&mut repo, &mut session, 30).unwrap();
    assert!(session.settled);

    // user: charged 100 then refunded 70, net 30
    assert_eq!(user_used(&repo), 30);
    // token: remain 500 - 100 + 70 = 470, used 100 - 70 = 30
    assert_eq!(token(&repo).remain_quota, 470);
    assert_eq!(token(&repo).used_quota, 30);
    // token still has remain > 0: status unchanged
    assert_eq!(token(&repo).status, 1);
}

#[test]
fn test_settle_extra_charge_when_actual_exceeds_pre_charge() {
    let mut repo = ledger();
    let mut session = BillingManager::pre_charge(&mut repo, 1, 10, 100).unwrap();

    // actual usage 250: charge 150 more to both layers
    BillingManager::settle(&mut repo, &mut session, 250).unwrap();
    assert!(session.settled);

    assert_eq!(user_used(&repo), 250);
    assert_eq!(token(&repo).remain_quota, 250); // 500 - 250
    assert_eq!(token(&repo).used_quota, 250);
    // still has remain > 0
    assert_eq!(token(&repo).status, 1);
}

#[test]
fn test_settle_marks_token_exhausted_when_remain_hits_zero() {
    let mut repo = ledger();
    // Pre-charge exactly the token remain (500) so settle to actual=500
    // leaves token_remain at 0.
    let mut session = BillingManager::pre_charge(&mut repo, 1, 10, 500).unwrap();
    BillingManager::settle(&mut repo, &mut session, 500).unwrap();

    assert_eq!(token(&repo).remain_quota, 0);
    assert_eq!(token(&repo).status, 3, "token must be marked exhausted (status=3)");
}

#[test]
fn test_refund_returns_full_pre_charge() {
    let mut repo = ledger();
    let session = BillingManager::pre_charge(&mut repo, 1, 10, 100).unwrap();

    BillingManager::refund(&mut repo, session);
    assert_eq!(user_used(&repo), 0, "user layer refunded");
    assert_eq!(token(&repo).remain_quota, 500, "token layer refunded");
    assert_eq!(token(&repo).used_quota, 0);
}

#[test]
fn test_pre_charge_unlimited_token_skips_token_layer() {
    let mut repo = ledger();
    repo.tokens.insert(
        10,
        TokenAccount { remain_quota: 500, used_quota: 0, unlimited_quota: true, status: 1 },
    );
    let session = BillingManager::pre_charge(&mut repo, 1, 10, 100).unwrap();
    assert!(session.token_unlimited);

    assert_eq!(user_used(&repo), 100, "user layer deducted");
    assert_eq!(token(&repo).remain_quota, 500, "token remain untouched (unlimited)");
    assert_eq!(token(&repo).used_quota, 0);

    // settle with refund should also skip token layer
    let mut session = session;
    BillingManager::settle(&mut repo, &mut session, 30).unwrap();
    assert_eq!(user_used(&repo), 30, "user layer refunded");
    assert_eq!(token(&repo).remain_quota, 500, "token layer untouched on refund");
    assert_eq!(token(&repo).used_quota, 0);
}

#[test]
fn test_pre_charge_zero_cost_no_side_effects() {
    let mut repo = ledger();
    let session = BillingManager::pre_charge(&mut repo, 1, 10, 0).unwrap();
    assert_eq!(session.pre_charged, 0);
    assert_eq!(user_used(&repo), 0);
    assert_eq!(token(&repo).remain_quota, 500);

    // refund should also be a no-op
    BillingManager::refund(&mut repo, session);
    assert_eq!(user_used(&repo), 0);
}

#[test]
fn test_settle_double_settle_rejected() {
    let mut repo = ledger();
    let mut session = BillingManager::pre_charge(&mut repo, 1, 10, 100).unwrap();
    BillingManager::settle(&mut repo, &mut session, 50).unwrap();
    let err = BillingManager::settle(&mut repo, &mut session, 50).unwrap_err();
    assert!(matches!(err, ProxyError::Config(_)));
}

fn alice() -> Ledger {
    let mut l = Ledger::new();
    l.users.insert(1, UserAccount { quota: 1000, used_quota: 0 });
    l.tokens.insert(
        1,
        TokenAccount { remain_quota: 500, used_quota: 0, unlimited_quota: false, status: 1 },
    );
    l
}

#[test]
fn test_billing_repo_user_quota() {
    let repo = alice();
    // alice has quota=1000, used=0: remaining 1000
    assert_eq!(repo.get_user_quota(1), Some(1000));
}

#[test]
fn test_billing_repo_pre_charge_atomic() {
    let mut repo = alice();
    repo.pre_charge_atomic(1, 1, 200, false).unwrap();
    assert_eq!(repo.get_user_quota(1), Some(800), "user remaining should drop by 200");
    assert_eq!(repo.get_token_remain_quota(1), Some(300), "token remain should drop by 200");
}

#[test]
fn test_billing_repo_pre_charge_atomic_insufficient() {
    let mut repo = alice();
    let err = repo.pre_charge_atomic(1, 1, 2000, false).unwrap_err();
    assert!(matches!(err, ProxyError::Config(_)));
    assert_eq!(repo.get_user_quota(1), Some(1000), "user layer must not be touched on failure");
    assert_eq!(repo.get_token_remain_quota(1), Some(500), "token layer must not be touched on failure");
}

#[test]
fn test_billing_repo_token_remain_quota() {
    let repo = alice();
    assert_eq!(repo.get_token_remain_quota(1), Some(500));
}

#[test]
fn test_billing_repo_token_unlimited() {
    let repo = alice();
    assert_eq!(repo.get_token_unlimited(1), Some(false));
}

#[test]
fn test_billing_repo_missing_user_returns_none() {
    let repo = alice();
    assert_eq!(repo.get_user_quota(999), None);
}

#[test]
fn a_negative_cost_is_refused() {
    let mut repo = ledger();
    let err = BillingManager::pre_charge(&mut repo, 1, 10, -1).unwrap_err();
    assert_eq!(err, ProxyError::Config("estimated_cost must be non-negative, got -1".into()));
    let mut session = BillingManager::pre_charge(&mut repo, 1, 10, 5).unwrap();
    let err = BillingManager::settle(&mut repo, &mut session, -1).unwrap_err();
    assert_eq!(err, ProxyError::Config("actual_cost must be non-negative, got -1".into()));
    assert!(!session.settled);
    assert_eq!(user_used(&repo), 5);
}

#[test]
fn an_unknown_token_is_refused() {
    let mut repo = ledger();
    let err = BillingManager::pre_charge(&mut repo, 1, 77, 1).unwrap_err();
    assert_eq!(err, ProxyError::Config("token 77 not found".into()));
    assert_eq!(user_used(&repo), 0);
}

#[test]
fn a_settlement_may_overdraw() {
    let mut repo = ledger();
    let mut session = BillingManager::pre_charge(&mut repo, 1, 10, 400).unwrap();
    BillingManager::settle(&mut repo, &mut session, 700).unwrap();
    assert_eq!(token(&repo).remain_quota, -200);
    assert_eq!(token(&repo).used_quota, 700);
    assert_eq!(token(&repo).status, 3);
    assert_eq!(user_used(&repo), 700);
}

#[test]
fn charges_leave_other_accounts_alone() {
    let mut repo = ledger();
    repo.users.insert(2, UserAccount { quota: 7, used_quota: 3 });
    let session = BillingManager::pre_charge(&mut repo, 1, 10, 100).unwrap();
    assert_eq!(repo.users.get(&2), Some(&UserAccount { quota: 7, used_quota: 3 }));
    BillingManager::refund(&mut repo, session);
    assert_eq!(repo.users.get(&2), Some(&UserAccount { quota: 7, used_quota: 3 }));
}

#[test]
fn a_settled_session_is_refunded_like_any_other() {
    let mut repo = ledger();
    let session = BillingSession {
        user_id: 1,
        token_id: 10,
        pre_charged: 0,
        settled: true,
        token_unlimited: false,
    };
    BillingManager::refund(&mut repo, session);
    assert_eq!(user_used(&repo), 0);
    let mut again = session;
    assert!(BillingManager::settle(&mut repo, &mut again, 3).is_err());
}

#[test]
fn the_status_of_a_token_is_set() {
    let mut repo = ledger();
    repo.update_token_status(10, 2);
    assert_eq!(token(&repo).status, 2);
    assert_eq!(token(&repo).remain_quota, 500);
    repo.update_token_status(11, 2);
    assert!(repo.tokens.get(&11).is_none());
}

#[test]
fn an_unlimited_token_charges_its_user_alone() {
    let mut repo = ledger();
    let mut t = token(&repo);
    t.unlimited_quota = true;
    t.remain_quota = 0;
    repo.tokens.insert(10, t);
    let before = user_used(&repo);
    BillingManager::pre_charge(&mut repo, 1, 10, 100).unwrap();
    assert_eq!(user_used(&repo), before + 100);
    assert_eq!(token(&repo), t);
}

#[test]
fn charges_that_do_not_fit_are_told() {
    let repo = ledger();
    assert!(repo.can_charge(1, 10, 100, false));
    assert!(repo.can_charge(1, 10, -100, false));
    assert!(!repo.can_charge(1, 10, i64::MAX as i128 + 1, false));
    assert!(!repo.can_charge(1, 10, i64::MIN as i128 - 1, true));
    assert!(repo.can_charge(77, 78, i64::MAX as i128 + 1, false));
}

#[test]
fn atomic_settlement_moves_both_layers() {
    let mut l = ledger();
    l.settle_atomic(1, 10, 40, false);
    assert_eq!(user_used(&l), 40);
    assert_eq!(token(&l).remain_quota, 460);
    assert_eq!(token(&l).used_quota, 40);
    // An unlimited token is left alone, and so is every other account.
    l.settle_atomic(1, 10, -15, true);
    assert_eq!(user_used(&l), 25);
    assert_eq!(token(&l).remain_quota, 460);
    l.settle_atomic(2, 11, 5, false);
    assert_eq!(user_used(&l), 25);
    assert_eq!(token(&l).used_quota, 40);
}

#[test]
fn atomic_refund_undoes_an_atomic_charge() {
    let mut l = ledger();
    l.pre_charge_atomic(1, 10, 120, false).unwrap();
    assert_eq!(token(&l).remain_quota, 380);
    l.refund_atomic(1, 10, 120, false);
    assert_eq!(user_used(&l), 0);
    assert_eq!(token(&l).remain_quota, 500);
    assert_eq!(token(&l).used_quota, 0);
}
