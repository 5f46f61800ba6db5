use luckypool::account::Account;
use luckypool::codec::{Challenge, Cryptogram};
use luckypool::codec::Ed25519Message;
use luckypool::ops::{
    airdrop, harvest_begin, harvest_complete, luckydraw_begin, luckydraw_commit, luckydraw_draw,
    luckydraw_refund_done, luckydraw_required_balance, luckydraw_scale, luckydraw_settle,
    prize_begin, prize_complete, Error,
};
use luckypool::pool::{AirdropState, LuckyPool};
use luckypool::prize::Prize;
use luckypool::types::{ChallengeCode, ChallengeState};
use luckypool::{TOKEN_1, TRANS_FEE};
use sha3::{Digest, Sha3_256};

const AIRDROP_KEY: &[u8] = b"airdrop key material";
const PRIZE_KEY: &[u8] = b"prize key material";
const NO_PK: [u8; 32] = [0u8; 32];

fn fresh_pool() -> LuckyPool {
    LuckyPool::new(100, 1_000_000 * TOKEN_1)
}

fn register(pool: &mut LuckyPool, who: &Account, now: u64) -> u32 {
    let voucher = Prize(0, now as u32, 60, 0, 0).encode(AIRDROP_KEY, Some(who));
    let out = airdrop(pool, who, None, &voucher, None, &NO_PK, AIRDROP_KEY, now).unwrap();
    out.lucky_code.unwrap()
}

#[test]
fn airdrop_claim_is_idempotent() {
    let mut pool = fresh_pool();
    let alice = Account::new(vec![1, 2, 3]);
    let now: u64 = 5_000;
    let voucher = Prize(0, now as u32, 60, 0, 0).encode(AIRDROP_KEY, Some(&alice));
    let first = airdrop(&mut pool, &alice, None, &voucher, None, &NO_PK, AIRDROP_KEY, now).unwrap();
    assert_eq!(first.claimed, 0);
    assert_eq!(first.claimable, 100 * TOKEN_1);
    let count = pool.state.total_airdrop_count;
    let second =
        airdrop(&mut pool, &alice, None, &voucher, None, &NO_PK, AIRDROP_KEY, now).unwrap();
    assert_eq!(first, second);
    assert_eq!(pool.state.total_airdrop_count, count);
    assert_eq!(pool.accounts.len(), 1);
}

#[test]
fn airdrop_referral_bonus() {
    let mut pool = fresh_pool();
    let alice = Account::new(vec![1]);
    let bob = Account::new(vec![2]);
    let now: u64 = 5_000;
    let alice_code = register(&mut pool, &alice, now);
    // a user-issued voucher carries the referrer's code, no amount
    let voucher = Prize(alice_code, now as u32, 60, 0, 5).encode(AIRDROP_KEY, None);
    let out = airdrop(&mut pool, &bob, None, &voucher, None, &NO_PK, AIRDROP_KEY, now).unwrap();
    assert_eq!(out.claimable, 150 * TOKEN_1);
    assert_eq!(out.claimed, 0);
}

#[test]
fn airdrop_rejects_garbage_and_expired() {
    let mut pool = fresh_pool();
    let alice = Account::new(vec![1]);
    let now: u64 = 100_000;
    let r = airdrop(&mut pool, &alice, None, "not a voucher", None, &NO_PK, AIRDROP_KEY, now);
    assert_eq!(r.unwrap_err(), Error::InvalidPrize);
    // expired system voucher: issued long ago with a one-minute window
    let stale = Prize(0, 1, 1, 0, 0).encode(AIRDROP_KEY, Some(&alice));
    let r = airdrop(&mut pool, &alice, None, &stale, None, &NO_PK, AIRDROP_KEY, now);
    assert_eq!(r.unwrap_err(), Error::PrizeRejected);
}

#[test]
fn airdrop_pool_empty_rejected() {
    let mut pool = LuckyPool::new(100, 10 * TOKEN_1);
    let alice = Account::new(vec![1]);
    let now: u64 = 5_000;
    let voucher = Prize(0, now as u32, 60, 0, 0).encode(AIRDROP_KEY, Some(&alice));
    let r = airdrop(&mut pool, &alice, None, &voucher, None, &NO_PK, AIRDROP_KEY, now);
    assert_eq!(r.unwrap_err(), Error::AirdropPoolEmpty);
}

#[test]
fn airdrop_by_identity_linkage_binds_once() {
    let mut pool = fresh_pool();
    let alice = Account::new(vec![1]);
    let bob = Account::new(vec![2]);
    let now: u64 = 5_000;
    let seed: [u8; 32] = Sha3_256::digest(b"issuer seed").into();
    let pk = ed25519_dalek::VerifyingKey::from(&ed25519_dalek::SigningKey::from_bytes(&seed))
        .to_bytes();
    let st = ChallengeState { account: alice.duplicate(), id: b"xid-1".to_vec(), expire_at: now };
    let msg = st.sign_to(&seed);
    let out = airdrop(&mut pool, &alice, Some(&msg), "", None, &pk, AIRDROP_KEY, now).unwrap();
    assert_eq!(out.claimable, 100 * TOKEN_1);
    // the same external id cannot be bound to a second account
    let st2 = ChallengeState { account: bob.duplicate(), id: b"xid-1".to_vec(), expire_at: now };
    let msg2 = st2.sign_to(&seed);
    let r = airdrop(&mut pool, &bob, Some(&msg2), "", None, &pk, AIRDROP_KEY, now);
    assert_eq!(r.unwrap_err(), Error::XAuthExists);
    // a stale linkage is rejected
    let st3 = ChallengeState { account: bob.duplicate(), id: b"xid-2".to_vec(), expire_at: now - 1 };
    let msg3 = st3.sign_to(&seed);
    let r = airdrop(&mut pool, &bob, Some(&msg3), "", None, &pk, AIRDROP_KEY, now);
    assert_eq!(r.unwrap_err(), Error::InvalidChallenge);
}

#[test]
fn harvest_moves_exactly_the_amount() {
    let mut pool = fresh_pool();
    let alice = Account::new(vec![1]);
    let now: u64 = 5_000;
    register(&mut pool, &alice, now);
    harvest_begin(&mut pool, &alice, 40 * TOKEN_1).unwrap();
    let out = harvest_complete(&mut pool, &alice, 40 * TOKEN_1, now, true).unwrap();
    assert_eq!(out.claimed, 40 * TOKEN_1);
    assert_eq!(out.claimable, 60 * TOKEN_1);
    assert_eq!(
        pool.state.airdrop_balance,
        1_000_000 * TOKEN_1 - 40 * TOKEN_1 - TRANS_FEE
    );
}

#[test]
fn harvest_bounds_enforced() {
    let mut pool = fresh_pool();
    let alice = Account::new(vec![1]);
    let now: u64 = 5_000;
    register(&mut pool, &alice, now);
    assert_eq!(
        harvest_begin(&mut pool, &alice, TOKEN_1 / 2).unwrap_err(),
        Error::AmountTooSmall
    );
    assert_eq!(
        harvest_begin(&mut pool, &alice, 101 * TOKEN_1).unwrap_err(),
        Error::InsufficientClaimable
    );
    let stranger = Account::new(vec![9]);
    assert_eq!(
        harvest_begin(&mut pool, &stranger, TOKEN_1).unwrap_err(),
        Error::NoAirdropState
    );
}

#[test]
fn harvest_failed_transfer_leaves_state() {
    let mut pool = fresh_pool();
    let alice = Account::new(vec![1]);
    let now: u64 = 5_000;
    register(&mut pool, &alice, now);
    harvest_begin(&mut pool, &alice, 10 * TOKEN_1).unwrap();
    let r = harvest_complete(&mut pool, &alice, 10 * TOKEN_1, now, false);
    assert_eq!(r.unwrap_err(), Error::TransferFailed);
    // nothing moved, and the account can try again
    harvest_begin(&mut pool, &alice, 10 * TOKEN_1).unwrap();
    let out = harvest_complete(&mut pool, &alice, 10 * TOKEN_1, now, true).unwrap();
    assert_eq!(out.claimable, 90 * TOKEN_1);
}

#[test]
fn banned_account_rejected() {
    let mut pool = fresh_pool();
    let alice = Account::new(vec![1]);
    let now: u64 = 5_000;
    register(&mut pool, &alice, now);
    pool.update_account(&alice, AirdropState(0, 0, 100 * TOKEN_1));
    assert_eq!(
        harvest_begin(&mut pool, &alice, TOKEN_1).unwrap_err(),
        Error::Banned
    );
}

#[test]
fn second_request_rejected_while_first_in_flight() {
    let mut pool = fresh_pool();
    let alice = Account::new(vec![1]);
    let now: u64 = 5_000;
    register(&mut pool, &alice, now);
    // the first harvest is suspended awaiting the ledger transfer
    harvest_begin(&mut pool, &alice, 10 * TOKEN_1).unwrap();
    assert_eq!(
        harvest_begin(&mut pool, &alice, 10 * TOKEN_1).unwrap_err(),
        Error::TryAgainLater
    );
    let voucher = Prize(1, now as u32, 60, 5, 3).encode(PRIZE_KEY, None);
    assert_eq!(
        prize_begin(&mut pool, &alice, &voucher, PRIZE_KEY, now).unwrap_err(),
        Error::TryAgainLater
    );
    // once the first request settles, the next goes through
    harvest_complete(&mut pool, &alice, 10 * TOKEN_1, now, true).unwrap();
    harvest_begin(&mut pool, &alice, 10 * TOKEN_1).unwrap();
    harvest_complete(&mut pool, &alice, 10 * TOKEN_1, now, true).unwrap();
}

#[test]
fn prize_credit_and_single_redemption() {
    let mut pool = fresh_pool();
    let alice = Account::new(vec![1]);
    let bob = Account::new(vec![2]);
    let now: u64 = 5_000;
    let alice_code = register(&mut pool, &alice, now);
    register(&mut pool, &bob, now);
    let voucher = Prize(alice_code, now as u32, 60, 5, 1).encode(PRIZE_KEY, None);
    let prefixed = format!("PRIZE:{}", voucher);
    let pend = prize_begin(&mut pool, &bob, &prefixed, PRIZE_KEY, now).unwrap();
    assert!(!pend.need_balance);
    let out = prize_complete(&mut pool, &bob, pend, None, now).unwrap();
    assert_eq!(out.claimable, 105 * TOKEN_1);
    assert_eq!(pool.state.total_prize, 5 * TOKEN_1);
    assert_eq!(pool.state.total_prize_count, 1);
    // the same voucher cannot be redeemed by the same account twice
    let pend = prize_begin(&mut pool, &bob, &voucher, PRIZE_KEY, now).unwrap();
    assert_eq!(
        prize_complete(&mut pool, &bob, pend, None, now).unwrap_err(),
        Error::PrizeClaimFailed
    );
    // quantity 1 is exhausted for everyone else too
    let pend = prize_begin(&mut pool, &alice, &voucher, PRIZE_KEY, now).unwrap();
    assert_eq!(
        prize_complete(&mut pool, &alice, pend, None, now).unwrap_err(),
        Error::PrizeClaimFailed
    );
}

#[test]
fn prize_low_balance_gate() {
    let mut pool = fresh_pool();
    let alice = Account::new(vec![1]);
    let bob = Account::new(vec![2]);
    let now: u64 = 5_000;
    let alice_code = register(&mut pool, &alice, now);
    register(&mut pool, &bob, now);
    // drain bob down to five claimable tokens
    harvest_begin(&mut pool, &bob, 95 * TOKEN_1).unwrap();
    harvest_complete(&mut pool, &bob, 95 * TOKEN_1, now, true).unwrap();
    let voucher = Prize(alice_code, now as u32, 60, 5, 3).encode(PRIZE_KEY, None);
    let pend = prize_begin(&mut pool, &bob, &voucher, PRIZE_KEY, now).unwrap();
    assert!(pend.need_balance);
    let r = prize_complete(&mut pool, &bob, pend, Some(4 * TOKEN_1), now);
    assert_eq!(r.unwrap_err(), Error::LowBalance);
    let pend = prize_begin(&mut pool, &bob, &voucher, PRIZE_KEY, now).unwrap();
    let out = prize_complete(&mut pool, &bob, pend, Some(5 * TOKEN_1), now).unwrap();
    assert_eq!(out.claimable, 10 * TOKEN_1);
}

#[test]
fn prize_rejects_unattributed_or_valueless() {
    let mut pool = fresh_pool();
    let alice = Account::new(vec![1]);
    let now: u64 = 5_000;
    register(&mut pool, &alice, now);
    let no_issuer = Prize(0, now as u32, 60, 5, 3).encode(PRIZE_KEY, None);
    assert_eq!(
        prize_begin(&mut pool, &alice, &no_issuer, PRIZE_KEY, now).unwrap_err(),
        Error::PrizeRejected
    );
    let no_amount = Prize(9, now as u32, 60, 0, 3).encode(PRIZE_KEY, None);
    assert_eq!(
        prize_begin(&mut pool, &alice, &no_amount, PRIZE_KEY, now).unwrap_err(),
        Error::PrizeRejected
    );
}

#[test]
fn luckydraw_pool_cap_rejects_any_wager() {
    let mut pool = fresh_pool();
    let alice = Account::new(vec![1]);
    pool.state.total_luckydraw = 420_000_000 * TOKEN_1;
    assert_eq!(
        luckydraw_begin(&mut pool, &alice, 1, None).unwrap_err(),
        Error::DrawPoolEmpty
    );
    assert_eq!(
        luckydraw_begin(&mut pool, &alice, 100, None).unwrap_err(),
        Error::DrawPoolEmpty
    );
    assert_eq!(
        luckydraw_begin(&mut pool, &alice, 0, Some(TOKEN_1)).unwrap_err(),
        Error::DrawPoolEmpty
    );
    pool.state.total_luckydraw = 420_000_000 * TOKEN_1 - 1;
    assert!(luckydraw_begin(&mut pool, &alice, 1, None).is_ok());
}

#[test]
fn luckydraw_wager_range() {
    let mut pool = fresh_pool();
    let alice = Account::new(vec![1]);
    assert_eq!(
        luckydraw_begin(&mut pool, &alice, 0, None).unwrap_err(),
        Error::InvalidIcpAmount
    );
    assert_eq!(
        luckydraw_begin(&mut pool, &alice, 0, Some(TOKEN_1 / 100)).unwrap_err(),
        Error::InvalidIcpAmount
    );
    assert_eq!(
        luckydraw_begin(&mut pool, &alice, 101, None).unwrap_err(),
        Error::InvalidIcpAmount
    );
    let icp01 = luckydraw_begin(&mut pool, &alice, 0, Some(TOKEN_1 / 10)).unwrap();
    assert_eq!(icp01, 1);
}

#[test]
fn luckydraw_full_flow_pays_and_issues_voucher() {
    let mut pool = fresh_pool();
    let alice = Account::new(vec![1]);
    let now: u64 = 5_000;
    let icp01 = luckydraw_begin(&mut pool, &alice, 1, None).unwrap();
    assert_eq!(icp01, 10);
    let randomness = [7u8; 32];
    let (x, base) = luckydraw_draw(&randomness);
    let (icp, scaled) = luckydraw_scale(icp01, base);
    let balance: u64 = 1_000_000 * TOKEN_1;
    assert!(balance >= luckydraw_required_balance(icp01));
    let draw_amount = luckydraw_settle(icp01, scaled, balance);
    assert_eq!(draw_amount, scaled);
    let out = luckydraw_commit(
        &mut pool, &alice, now, icp01, x, base, scaled, draw_amount, icp, AIRDROP_KEY,
    );
    assert_eq!(out.amount, scaled);
    assert_eq!(out.random, x);
    assert!(!out.luckypool_empty);
    assert_eq!(pool.state.total_luckydraw, scaled + TRANS_FEE);
    assert_eq!(pool.state.total_luckydraw_count, 1);
    assert_eq!(pool.state.latest_luckydraw_logs.len(), 1);
    // the winner got registered on the fly and a referral voucher was issued
    let st = pool.state_of(&alice).unwrap();
    assert_ne!(st.0, 0);
    assert_eq!(st.2, 100 * TOKEN_1);
    let voucher = out.airdrop_cryptogram.unwrap();
    let p = Prize::decode(AIRDROP_KEY, None, &voucher).unwrap();
    assert_eq!(p.0, st.0);
    assert_eq!(p.2, 4320);
    assert_eq!(p.3, 0);
    assert_eq!(p.4, 50);
    // the guard was released
    assert!(pool.active.is_empty());
}

#[test]
fn luckydraw_payout_failure_refund_paths() {
    let mut pool = fresh_pool();
    let alice = Account::new(vec![1]);
    luckydraw_begin(&mut pool, &alice, 1, None).unwrap();
    // the pool balance fell below the floor: no payout, wager refunded
    let draw_amount = luckydraw_settle(10, 1000 * TOKEN_1, TOKEN_1);
    assert_eq!(draw_amount, 0);
    assert_eq!(
        luckydraw_refund_done(&mut pool, &alice, true).unwrap_err(),
        Error::DrawFailedRefunded
    );
    assert!(pool.active.is_empty());
    luckydraw_begin(&mut pool, &alice, 1, None).unwrap();
    assert_eq!(
        luckydraw_refund_done(&mut pool, &alice, false).unwrap_err(),
        Error::RefundFailed
    );
}

#[test]
fn luckydraw_draw_is_deterministic_in_the_randomness() {
    let a = luckydraw_draw(&[1u8; 32]);
    let b = luckydraw_draw(&[1u8; 32]);
    assert_eq!(a, b);
    let c = luckydraw_draw(&[2u8; 32]);
    assert!(a.0 < 344693032001 && c.0 < 344693032001);
}

#[test]
fn challenge_code_token_verifies() {
    let secret = b"captcha secret";
    let code = ChallengeCode { code: b"a1b2c3".to_vec() };
    let token = code.sign_to_base64(secret, 9_000);
    let raw = base64::Engine::decode(
        &base64::engine::general_purpose::URL_SAFE_NO_PAD,
        token.as_bytes(),
    )
    .unwrap();
    let payload: Vec<u8> = b"a1b2c3".to_vec();
    assert!(payload.verify(secret, 9_000, &raw).is_ok());
    assert!(payload.verify(secret, 9_001, &raw).is_err());
    let wrong: Vec<u8> = b"zzzzzz".to_vec();
    assert!(wrong.verify(secret, 9_000, &raw).is_err());
}

#[test]
fn recent_airdrop_window_caps_at_ten() {
    let mut pool = fresh_pool();
    let now: u64 = 5_000;
    for i in 0..12u8 {
        let who = Account::new(vec![100 + i]);
        register(&mut pool, &who, now);
    }
    assert_eq!(pool.state.latest_airdrop_logs.len(), 10);
    // most recent first: the twelfth registration leads the window
    assert_eq!(pool.state.latest_airdrop_logs[0].account.bytes, vec![111u8]);
    assert_eq!(pool.state.latest_airdrop_logs[9].account.bytes, vec![102u8]);
}

#[test]
fn luckiest_window_caps_at_three() {
    let mut pool = fresh_pool();
    let alice = Account::new(vec![1]);
    let jackpot = 100_000 * TOKEN_1;
    for i in 0..4u64 {
        luckydraw_begin(&mut pool, &alice, 1, None).unwrap();
        let out = luckydraw_commit(
            &mut pool,
            &alice,
            5_000 + i,
            10,
            i,
            jackpot,
            jackpot,
            jackpot,
            luckypool::ICP_1,
            AIRDROP_KEY,
        );
        assert_eq!(out.amount, jackpot);
        assert!(out.prize_cryptogram.is_none());
    }
    assert_eq!(pool.state.luckiest_luckydraw_logs.len(), 3);
    assert_eq!(pool.state.latest_luckydraw_logs.len(), 4);
    assert_eq!(pool.state.luckiest_luckydraw_logs[0].ts, 5_003);
}
