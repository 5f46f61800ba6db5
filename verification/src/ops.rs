//! The claim orchestrator: airdrop claims, prize redemption, harvests and
//! lucky draws as state transitions over the pool. Each operation holds the
//! caller's exclusivity guard for its full duration and releases it on every
//! exit path; the asynchronous collaborator calls (randomness, ledger
//! transfers, balance reads) happen between the phases, outside this crate,
//! and their results come back in as plain values.
use vstd::prelude::*;

use crate::account::Account;
use crate::codec::{
    lemma_cryptogram_subject_binding, spec_cryptogram_token, spec_pair_token, CborEncode,
    Cryptogram, Ed25519Message,
};
use crate::pool::{
    add_sat, sat_add, sat_sub, spec_claim_count, spec_claimed_by, spec_code_exists,
    spec_is_active, spec_state_of, spec_xauth_bound, sub_sat, AirdropLog, AirdropState,
    LuckyDrawLog, LuckyPool, XAuthEntry,
};
use crate::prize::{lemma_prize_cbor_injective, lemma_prize_cbor_len, Prize};
use crate::types::{lemma_challenge_state_cbor_views, ChallengeState};
use crate::crypto::{b64url_of, ed25519_valid, spec_strip_prize_prefix, strip_prize_prefix};
use crate::{ICP_1, TOKEN_1, TRANS_FEE};

verus! {

/// Why an operation was rejected.
#[derive(Clone, Copy, Debug, PartialEq, Eq, Structural)]
pub enum Error {
    /// The caller already has an operation in flight.
    TryAgainLater,
    /// The identity-linkage token failed to verify or is stale.
    InvalidChallenge,
    /// The external identity is already bound to an account.
    XAuthExists,
    /// The voucher failed to decode under either key.
    InvalidPrize,
    /// The voucher decoded but is expired or unfit for this operation.
    PrizeRejected,
    /// The airdrop pool cannot cover another award.
    AirdropPoolEmpty,
    /// The caller has no airdrop record.
    NoAirdropState,
    /// The caller's lucky code was forced to zero.
    Banned,
    /// Claiming needs a balance of at least ten whole tokens.
    LowBalance,
    /// A harvest must move at least one whole token.
    AmountTooSmall,
    /// A harvest cannot exceed the claimable balance.
    InsufficientClaimable,
    /// The external token transfer did not go through.
    TransferFailed,
    /// The wager must lie in the accepted range.
    InvalidIcpAmount,
    /// The cumulative draw payout has reached the hard cap.
    DrawPoolEmpty,
    /// The pool's own token balance cannot cover the draw.
    InsufficientPoolBalance,
    /// The voucher was already redeemed, or its quantity is exhausted.
    PrizeClaimFailed,
    /// The payout failed and the wager was refunded.
    DrawFailedRefunded,
    /// The payout failed and the refund failed too: manual reconciliation.
    RefundFailed,
}

/// What a caller learns about its airdrop record.
#[derive(Clone, Copy, Debug, PartialEq, Eq, Structural)]
pub struct AirdropStateOutput {
    pub lucky_code: Option<u32>,
    pub claimed: u64,
    pub claimable: u64,
}

/// The output view of a record.
pub open spec fn spec_output(st: AirdropState) -> AirdropStateOutput {
    AirdropStateOutput { lucky_code: Some(st.0), claimed: st.1, claimable: st.2 }
}

/// Whether `code` is the cryptogram of voucher `p` under `key`, bound to
/// `subj` when one is given.
pub open spec fn spec_is_voucher(
    code: Seq<char>,
    key: Seq<u8>,
    subj: Option<Seq<u8>>,
    p: Prize,
) -> bool {
    code == b64url_of(spec_cryptogram_token(p.spec_cbor(), key, subj))
}

/// The voucher a string reads as under `key` and `subj`, if any; canonical
/// encoding makes the reading unique.
pub open spec fn spec_decoded_voucher(code: Seq<char>, key: Seq<u8>, subj: Option<Seq<u8>>) -> Option<
    Prize,
> {
    if exists|p: Prize| spec_is_voucher(code, key, subj, p) {
        Some(choose|p: Prize| spec_is_voucher(code, key, subj, p))
    } else {
        None
    }
}

/// A decoded voucher is the unique spec-level reading of its cryptogram.
proof fn lemma_voucher_identify(code: Seq<char>, key: Seq<u8>, subj: Option<Seq<u8>>, v: Prize)
    requires
        code == b64url_of(spec_cryptogram_token(v.spec_cbor(), key, subj)),
        forall|d: Seq<u8>|
            b64url_of(d) == code ==> d == spec_cryptogram_token(v.spec_cbor(), key, subj),
    ensures
        spec_decoded_voucher(code, key, subj) == Some(v),
{
    assert(spec_is_voucher(code, key, subj, v));
    let p = choose|p: Prize| spec_is_voucher(code, key, subj, p);
    assert(spec_cryptogram_token(p.spec_cbor(), key, subj) == spec_cryptogram_token(
        v.spec_cbor(),
        key,
        subj,
    ));
    lemma_prize_cbor_len(p);
    lemma_prize_cbor_len(v);
    lemma_cryptogram_subject_binding(p.spec_cbor(), key, subj, v.spec_cbor(), key, subj);
    lemma_prize_cbor_injective(p, v);
}

/// How the claim credential reads when no identity linkage is supplied: the
/// subject-bound decode is tried first and only on its failure the bare one.
/// `Some(None)`: a valid system-issued voucher; `Some(Some(p))`: a valid
/// user-issued voucher `p`; `None`: rejected.
pub open spec fn spec_airdrop_credential(
    code: Seq<char>,
    key: Seq<u8>,
    caller: Seq<u8>,
    now_sec: u64,
) -> Option<Option<Prize>> {
    match spec_decoded_voucher(code, key, Some(caller)) {
        Some(p) => if p.spec_valid(now_sec) {
            Some(None)
        } else {
            None
        },
        None => match spec_decoded_voucher(code, key, None) {
            Some(p) => if p.spec_valid(now_sec) && p.3 == 0 && p.0 != 0 {
                Some(Some(p))
            } else {
                None
            },
            None => None,
        },
    }
}

/// A reading of a linkage token: it carries `st`'s encoding and a signature
/// of that encoding which strict verification accepts under `pk`.
pub open spec fn spec_linkage_witness(
    ch: Seq<char>,
    pk: Seq<u8>,
    st: ChallengeState,
    sig: Seq<u8>,
) -> bool {
    &&& st.spec_cbor().len() <= u64::MAX
    &&& sig.len() <= u64::MAX
    &&& ch == b64url_of(spec_pair_token(st.spec_cbor(), sig))
    &&& ed25519_valid(pk, st.spec_cbor(), sig)
}

/// Whether the linkage token verifies, binds `caller`, and is unexpired.
pub open spec fn spec_linkage_ok(ch: Seq<char>, pk: Seq<u8>, caller: Seq<u8>, now_sec: u64) -> bool {
    exists|st: ChallengeState, sig: Seq<u8>|
        #[trigger] spec_linkage_witness(ch, pk, st, sig) && st.spec_is_valid(caller, now_sec)
}

/// Whether the linkage token's external id is already bound.
pub open spec fn spec_linkage_id_bound(ch: Seq<char>, pk: Seq<u8>, xauth: Seq<XAuthEntry>) -> bool {
    exists|st: ChallengeState, sig: Seq<u8>|
        #[trigger] spec_linkage_witness(ch, pk, st, sig) && spec_xauth_bound(xauth, st.id@)
}

/// Whether the supplied credential passes validation: a verified, unexpired
/// linkage whose id is not yet bound, or a valid voucher reading.
pub open spec fn spec_airdrop_admitted(
    xauth_challenge: Option<&str>,
    code: Seq<char>,
    pk: Seq<u8>,
    key: Seq<u8>,
    caller: Seq<u8>,
    now_sec: u64,
    xauth: Seq<XAuthEntry>,
) -> bool {
    match xauth_challenge {
        Some(ch) => spec_linkage_ok(ch@, pk, caller, now_sec) && !spec_linkage_id_bound(
            ch@,
            pk,
            xauth,
        ),
        None => spec_airdrop_credential(code, key, caller, now_sec) is Some,
    }
}

/// The referrer code a claim carries: a user voucher's issuer, else the
/// plainly supplied code.
pub open spec fn spec_airdrop_referrer(
    xauth_challenge: Option<&str>,
    code: Seq<char>,
    key: Seq<u8>,
    caller: Seq<u8>,
    now_sec: u64,
    lucky_code: Option<u32>,
) -> Option<u32> {
    match xauth_challenge {
        Some(_) => lucky_code,
        None => match spec_airdrop_credential(code, key, caller, now_sec) {
            Some(Some(p)) => Some(p.0),
            _ => lucky_code,
        },
    }
}

/// The result of a completed lucky draw.
#[derive(Debug)]
pub struct LuckyDrawOutput {
    pub amount: u64,
    pub random: u64,
    pub luckypool_empty: bool,
    pub prize_cryptogram: Option<String>,
    pub airdrop_cryptogram: Option<String>,
}

/// Claims the airdrop for `caller`: by a signed identity linkage, by a
/// system-issued voucher bound to the caller, or by a user-issued voucher
/// carrying a referral. A caller already registered is answered from its
/// record with no further effect; a fresh caller is awarded the base amount,
/// or one and a half times it when the claim resolved a referrer.
pub fn airdrop(
    pool: &mut LuckyPool,
    caller: &Account,
    xauth_challenge: Option<&str>,
    code: &str,
    lucky_code: Option<u32>,
    challenge_pk: &[u8; 32],
    airdrop_key: &[u8],
    now_sec: u64,
) -> (r: Result<AirdropStateOutput, Error>)
    requires
        old(pool).wf(),
        old(pool).next_code < u32::MAX,
    ensures
        final(pool).wf(),
        forall|b: Seq<u8>| #[trigger]
            spec_is_active(final(pool).active@, b) == spec_is_active(old(pool).active@, b),
        r is Err ==> final(pool).accounts == old(pool).accounts && final(pool).codes == old(
            pool,
        ).codes && final(pool).next_code == old(pool).next_code && final(pool).claims == old(
            pool,
        ).claims && final(pool).state == old(pool).state,
        xauth_challenge is None ==> final(pool).xauth == old(pool).xauth,
        (r == Err::<AirdropStateOutput, Error>(Error::InvalidChallenge) || r == Err::<
            AirdropStateOutput,
            Error,
        >(Error::XAuthExists)) ==> final(pool).xauth == old(pool).xauth,
        xauth_challenge is None ==> (r == Err::<AirdropStateOutput, Error>(Error::InvalidPrize)
            <==> (spec_decoded_voucher(code@, airdrop_key@, Some(caller@)) is None
            && spec_decoded_voucher(code@, airdrop_key@, None) is None)),
        xauth_challenge is None ==> (r == Err::<AirdropStateOutput, Error>(Error::PrizeRejected)
            <==> (spec_airdrop_credential(code@, airdrop_key@, caller@, now_sec) is None && !(
            spec_decoded_voucher(code@, airdrop_key@, Some(caller@)) is None
                && spec_decoded_voucher(code@, airdrop_key@, None) is None))),
        xauth_challenge matches Some(ch) ==> (r == Err::<AirdropStateOutput, Error>(
            Error::InvalidChallenge,
        ) <==> !spec_linkage_ok(ch@, challenge_pk@, caller@, now_sec)),
        xauth_challenge matches Some(ch) ==> (r == Err::<AirdropStateOutput, Error>(
            Error::XAuthExists,
        ) <==> (spec_linkage_ok(ch@, challenge_pk@, caller@, now_sec) && spec_linkage_id_bound(
            ch@,
            challenge_pk@,
            old(pool).xauth@,
        ))),
        (spec_airdrop_admitted(
            xauth_challenge,
            code@,
            challenge_pk@,
            airdrop_key@,
            caller@,
            now_sec,
            old(pool).xauth@,
        ) && spec_state_of(old(pool).accounts@, caller@) is Some) ==> r == Ok::<
            AirdropStateOutput,
            Error,
        >(spec_output(spec_state_of(old(pool).accounts@, caller@)->Some_0)),
        (r is Ok && xauth_challenge is None && spec_state_of(old(pool).accounts@, caller@)
            is Some) ==> *final(pool) == *old(pool),
        (r is Ok && spec_state_of(old(pool).accounts@, caller@) is Some)
            ==> (final(pool).accounts == old(pool).accounts
            && final(pool).codes == old(pool).codes
            && final(pool).next_code == old(pool).next_code
            && final(pool).claims == old(pool).claims
            && final(pool).state == old(pool).state),
        spec_state_of(old(pool).accounts@, caller@) is Some ==> spec_state_of(
            final(pool).accounts@,
            caller@,
        ) == spec_state_of(old(pool).accounts@, caller@),
        r == Err::<AirdropStateOutput, Error>(Error::AirdropPoolEmpty) <==> (
        spec_airdrop_admitted(
            xauth_challenge,
            code@,
            challenge_pk@,
            airdrop_key@,
            caller@,
            now_sec,
            old(pool).xauth@,
        ) && spec_state_of(old(pool).accounts@, caller@) is None
            && old(pool).state.airdrop_balance < old(pool).state.airdrop_amount * TOKEN_1
            + TRANS_FEE),
        r == Err::<AirdropStateOutput, Error>(Error::TryAgainLater) <==> (spec_airdrop_admitted(
            xauth_challenge,
            code@,
            challenge_pk@,
            airdrop_key@,
            caller@,
            now_sec,
            old(pool).xauth@,
        ) && spec_state_of(old(pool).accounts@, caller@) is None
            && old(pool).state.airdrop_balance >= old(pool).state.airdrop_amount * TOKEN_1
            + TRANS_FEE && spec_is_active(old(pool).active@, caller@)),
        r == Err::<AirdropStateOutput, Error>(Error::PrizeClaimFailed) <==> (match
            xauth_challenge {
            Some(_) => false,
            None => (match spec_airdrop_credential(code@, airdrop_key@, caller@, now_sec) {
                Some(Some(p)) => spec_state_of(old(pool).accounts@, caller@) is None && old(
                    pool,
                ).state.airdrop_balance >= old(pool).state.airdrop_amount * TOKEN_1 + TRANS_FEE
                    && !spec_is_active(old(pool).active@, caller@) && (spec_claimed_by(
                    old(pool).claims@,
                    p,
                    caller@,
                ) || spec_claim_count(old(pool).claims@, p) >= p.4),
                _ => false,
            }),
        }),
        r is Ok <==> (spec_airdrop_admitted(
            xauth_challenge,
            code@,
            challenge_pk@,
            airdrop_key@,
            caller@,
            now_sec,
            old(pool).xauth@,
        ) && (spec_state_of(old(pool).accounts@, caller@) is Some || (old(
            pool,
        ).state.airdrop_balance >= old(pool).state.airdrop_amount * TOKEN_1 + TRANS_FEE
            && !spec_is_active(old(pool).active@, caller@) && (match xauth_challenge {
            Some(_) => true,
            None => (match spec_airdrop_credential(code@, airdrop_key@, caller@, now_sec) {
                Some(Some(p)) => !spec_claimed_by(old(pool).claims@, p, caller@)
                    && spec_claim_count(old(pool).claims@, p) < p.4,
                _ => true,
            }),
        })))),
        (r is Ok && spec_state_of(old(pool).accounts@, caller@) is None) ==> ({
            let out = r->Ok_0;
            let amt = old(pool).state.airdrop_amount;
            let bonus = (match spec_airdrop_referrer(
                xauth_challenge,
                code@,
                airdrop_key@,
                caller@,
                now_sec,
                lucky_code,
            ) {
                Some(c) => spec_code_exists(old(pool).codes@, c),
                None => false,
            });
            &&& out.lucky_code == Some(old(pool).next_code)
            &&& old(pool).next_code != 0
            &&& final(pool).next_code == old(pool).next_code + 1
            &&& spec_code_exists(final(pool).codes@, old(pool).next_code)
            &&& out.claimed == 0
            &&& out.claimable == (if bonus {
                ((amt + amt / 2) * TOKEN_1) as u64
            } else {
                (amt * TOKEN_1) as u64
            })
            &&& spec_state_of(final(pool).accounts@, caller@) == Some(
                AirdropState(old(pool).next_code, 0, out.claimable),
            )
            &&& final(pool).state.total_airdrop_count == sat_add(
                old(pool).state.total_airdrop_count,
                1,
            )
            &&& (match xauth_challenge {
                Some(_) => final(pool).claims == old(pool).claims,
                None => (match spec_airdrop_credential(code@, airdrop_key@, caller@, now_sec) {
                    Some(Some(p)) => spec_claimed_by(final(pool).claims@, p, caller@),
                    _ => final(pool).claims == old(pool).claims,
                }),
            })
            &&& ({
                let logs = final(pool).state.latest_airdrop_logs@;
                let prev = old(pool).state.latest_airdrop_logs@;
                &&& logs.len() as int == (if prev.len() + 1 > 10 {
                    10int
                } else {
                    prev.len() as int + 1
                })
                &&& logs[0].account@ == caller@
                &&& logs[0].ts == now_sec
                &&& logs[0].amount == out.claimable
                &&& logs[0].lucky_code == old(pool).next_code
                &&& logs.skip(1) == prev.take(logs.len() - 1)
            })
        }),
{
    let prize: Option<Prize> = match xauth_challenge {
        Some(ch) => {
            let ghost chs = ch@;
            let st = match ChallengeState::verify_from(challenge_pk, ch) {
                Ok(s) => s,
                Err(_) => {
                    proof {
                        assert(!spec_linkage_ok(chs, challenge_pk@, caller@, now_sec)) by {
                            if spec_linkage_ok(chs, challenge_pk@, caller@, now_sec) {
                                let (w, sg) = choose|w: ChallengeState, sg: Seq<u8>|
                                    spec_linkage_witness(chs, challenge_pk@, w, sg)
                                        && w.spec_is_valid(caller@, now_sec);
                                assert(w.spec_cbor() == w.spec_cbor());
                            }
                        }
                        assert(!spec_linkage_id_bound(chs, challenge_pk@, old(pool).xauth@)) by {
                            if spec_linkage_id_bound(chs, challenge_pk@, old(pool).xauth@) {
                                let (w, sg) = choose|w: ChallengeState, sg: Seq<u8>|
                                    spec_linkage_witness(chs, challenge_pk@, w, sg)
                                        && spec_xauth_bound(old(pool).xauth@, w.id@);
                                assert(w.spec_cbor() == w.spec_cbor());
                            }
                        }
                    }
                    return Err(Error::InvalidChallenge);
                },
            };
            proof {
                let sg = choose|sg: Seq<u8>|
                    sg.len() <= u64::MAX && chs == b64url_of(
                        spec_pair_token(st.spec_cbor(), sg),
                    ) && ed25519_valid(challenge_pk@, st.spec_cbor(), sg);
                assert(spec_linkage_witness(chs, challenge_pk@, st, sg));
                assert forall|w: ChallengeState, sg2: Seq<u8>| #[trigger] spec_linkage_witness(
                    chs,
                    challenge_pk@,
                    w,
                    sg2,
                ) implies (w.spec_is_valid(caller@, now_sec) == st.spec_is_valid(
                    caller@,
                    now_sec,
                ) && w.id@ == st.id@) by {
                    assert(w.spec_cbor() == st.spec_cbor());
                    lemma_challenge_state_cbor_views(w, st);
                }
                assert(st.spec_is_valid(caller@, now_sec) ==> spec_linkage_ok(
                    chs,
                    challenge_pk@,
                    caller@,
                    now_sec,
                )) by {
                    if st.spec_is_valid(caller@, now_sec) {
                        assert(spec_linkage_witness(chs, challenge_pk@, st, sg)
                            && st.spec_is_valid(caller@, now_sec));
                    }
                }
                assert(spec_linkage_ok(chs, challenge_pk@, caller@, now_sec)
                    == st.spec_is_valid(caller@, now_sec));
                assert(spec_xauth_bound(old(pool).xauth@, st.id@) ==> spec_linkage_id_bound(
                    chs,
                    challenge_pk@,
                    old(pool).xauth@,
                )) by {
                    if spec_xauth_bound(old(pool).xauth@, st.id@) {
                        assert(spec_linkage_witness(chs, challenge_pk@, st, sg)
                            && spec_xauth_bound(old(pool).xauth@, st.id@));
                    }
                }
                assert(spec_linkage_id_bound(chs, challenge_pk@, old(pool).xauth@)
                    == spec_xauth_bound(old(pool).xauth@, st.id@));
            }
            if !st.is_valid(caller, now_sec) {
                return Err(Error::InvalidChallenge);
            }
            if !pool.xauth_try_set(&st.id, caller) {
                return Err(Error::XAuthExists);
            }
            None
        },
        None => {
            match Prize::decode(airdrop_key, Some(caller), code) {
                Ok(p) => {
                    proof {
                        lemma_voucher_identify(code@, airdrop_key@, Some(caller@), p);
                    }
                    if !p.is_valid_system(now_sec) {
                        return Err(Error::PrizeRejected);
                    }
                    None
                },
                Err(_) => {
                    proof {
                        assert(spec_decoded_voucher(code@, airdrop_key@, Some(caller@))
                            is None) by {
                            if exists|q: Prize|
                                spec_is_voucher(code@, airdrop_key@, Some(caller@), q) {
                                let q = choose|q: Prize|
                                    spec_is_voucher(code@, airdrop_key@, Some(caller@), q);
                                lemma_prize_cbor_len(q);
                                assert(q.spec_cbor() == q.spec_cbor());
                            }
                        }
                    }
                    match Prize::decode(airdrop_key, None, code) {
                        Ok(p) => {
                            proof {
                                lemma_voucher_identify(code@, airdrop_key@, None, p);
                            }
                            if !(p.is_valid(now_sec) && p.3 == 0 && p.0 != 0) {
                                return Err(Error::PrizeRejected);
                            }
                            Some(p)
                        },
                        Err(_) => {
                            proof {
                                assert(spec_decoded_voucher(code@, airdrop_key@, None)
                                    is None) by {
                                    if exists|q: Prize|
                                        spec_is_voucher(code@, airdrop_key@, None, q) {
                                        let q = choose|q: Prize|
                                            spec_is_voucher(code@, airdrop_key@, None, q);
                                        lemma_prize_cbor_len(q);
                                        assert(q.spec_cbor() == q.spec_cbor());
                                    }
                                }
                            }
                            return Err(Error::InvalidPrize);
                        },
                    }
                },
            }
        },
    };
    match pool.state_of(caller) {
        Some(st) => {
            return Ok(
                AirdropStateOutput { lucky_code: Some(st.0), claimed: st.1, claimable: st.2 },
            );
        },
        None => {},
    }
    let airdrop_amount = pool.state.airdrop_amount;
    let award = airdrop_amount * TOKEN_1;
    if pool.state.airdrop_balance < award + TRANS_FEE {
        return Err(Error::AirdropPoolEmpty);
    }
    if !pool.try_acquire(caller) {
        return Err(Error::TryAgainLater);
    }
    let referrer_code: Option<u32> = match prize {
        Some(p) => Some(p.0),
        None => lucky_code,
    };
    let has_referrer = match referrer_code {
        Some(c) => pool.code_exists(c),
        None => false,
    };
    let claimable = if has_referrer {
        (airdrop_amount + airdrop_amount / 2) * TOKEN_1
    } else {
        award
    };
    match prize {
        Some(p) => {
            match pool.claim_prize(caller, p) {
                Ok(_) => (),
                Err(_) => {
                    pool.release(caller);
                    return Err(Error::PrizeClaimFailed);
                },
            }
        },
        None => (),
    }
    let caller_code = pool.new_code(caller);
    pool.insert_account(caller, AirdropState(caller_code, 0, claimable));
    pool.state.total_airdrop_count = add_sat(pool.state.total_airdrop_count, 1);
    let ghost prev_logs = pool.state.latest_airdrop_logs@;
    let log = AirdropLog {
        account: caller.duplicate(),
        ts: now_sec,
        amount: claimable,
        lucky_code: caller_code,
    };
    pool.push_airdrop_log(log);
    proof {
        crate::pool::lemma_push_front_capped_parts(prev_logs, log, 10);
    }
    pool.release(caller);
    Ok(AirdropStateOutput { lucky_code: Some(caller_code), claimed: 0, claimable })
}


/// A prize redemption awaiting its optional ledger-balance check.
#[derive(Debug)]
pub struct PrizePending {
    pub prize: Prize,
    pub need_balance: bool,
}

/// Opens a prize redemption: decodes and screens the voucher, takes the
/// guard, and says whether the anti-abuse gate needs the caller's ledger
/// balance. An optional voucher prefix is stripped first and has no other
/// effect. On success the guard stays held until `prize_complete`.
pub fn prize_begin(
    pool: &mut LuckyPool,
    caller: &Account,
    cryptogram: &str,
    prize_key: &[u8],
    now_sec: u64,
) -> (r: Result<PrizePending, Error>)
    requires
        old(pool).wf(),
    ensures
        final(pool).wf(),
        final(pool).accounts == old(pool).accounts,
        final(pool).codes == old(pool).codes,
        final(pool).next_code == old(pool).next_code,
        final(pool).xauth == old(pool).xauth,
        final(pool).claims == old(pool).claims,
        final(pool).state == old(pool).state,
        r is Err ==> forall|b: Seq<u8>| #[trigger]
            spec_is_active(final(pool).active@, b) == spec_is_active(old(pool).active@, b),
        r == Err::<PrizePending, Error>(Error::InvalidPrize) <==> spec_decoded_voucher(
            spec_strip_prize_prefix(cryptogram@),
            prize_key@,
            None,
        ) is None,
        r == Err::<PrizePending, Error>(Error::PrizeRejected) <==> (match spec_decoded_voucher(
            spec_strip_prize_prefix(cryptogram@),
            prize_key@,
            None,
        ) {
            Some(p) => !(p.spec_valid(now_sec) && p.0 != 0 && p.3 != 0),
            None => false,
        }),
        r == Err::<PrizePending, Error>(Error::TryAgainLater) <==> (match spec_decoded_voucher(
            spec_strip_prize_prefix(cryptogram@),
            prize_key@,
            None,
        ) {
            Some(p) => p.spec_valid(now_sec) && p.0 != 0 && p.3 != 0 && spec_is_active(
                old(pool).active@,
                caller@,
            ),
            None => false,
        }),
        r == Err::<PrizePending, Error>(Error::NoAirdropState) <==> (match spec_decoded_voucher(
            spec_strip_prize_prefix(cryptogram@),
            prize_key@,
            None,
        ) {
            Some(p) => p.spec_valid(now_sec) && p.0 != 0 && p.3 != 0 && !spec_is_active(
                old(pool).active@,
                caller@,
            ) && spec_state_of(old(pool).accounts@, caller@) is None,
            None => false,
        }),
        r == Err::<PrizePending, Error>(Error::Banned) <==> (match spec_decoded_voucher(
            spec_strip_prize_prefix(cryptogram@),
            prize_key@,
            None,
        ) {
            Some(p) => p.spec_valid(now_sec) && p.0 != 0 && p.3 != 0 && !spec_is_active(
                old(pool).active@,
                caller@,
            ) && (match spec_state_of(old(pool).accounts@, caller@) {
                Some(st) => st.0 == 0,
                None => false,
            }),
            None => false,
        }),
        r is Ok <==> (match spec_decoded_voucher(
            spec_strip_prize_prefix(cryptogram@),
            prize_key@,
            None,
        ) {
            Some(p) => p.spec_valid(now_sec) && p.0 != 0 && p.3 != 0 && !spec_is_active(
                old(pool).active@,
                caller@,
            ) && (match spec_state_of(old(pool).accounts@, caller@) {
                Some(st) => st.0 != 0,
                None => false,
            }),
            None => false,
        }),
        r matches Ok(pend) ==> ({
            &&& spec_decoded_voucher(spec_strip_prize_prefix(cryptogram@), prize_key@, None)
                == Some(pend.prize)
            &&& spec_is_active(final(pool).active@, caller@)
            &&& forall|b: Seq<u8>|
                b != caller@ ==> #[trigger] spec_is_active(final(pool).active@, b)
                    == spec_is_active(old(pool).active@, b)
            &&& pend.prize.spec_valid(now_sec)
            &&& pend.prize.0 != 0
            &&& pend.prize.3 != 0
            &&& spec_state_of(old(pool).accounts@, caller@) is Some
            &&& spec_state_of(old(pool).accounts@, caller@)->Some_0.0 != 0
            &&& pend.need_balance == (spec_state_of(old(pool).accounts@, caller@)->Some_0.2 < 10
                * TOKEN_1)
        }),
{
    let stripped = strip_prize_prefix(cryptogram);
    let ghost sc = spec_strip_prize_prefix(cryptogram@);
    let p = match Prize::decode(prize_key, None, stripped) {
        Ok(p) => p,
        Err(_) => {
            proof {
                assert(spec_decoded_voucher(sc, prize_key@, None) is None) by {
                    if exists|q: Prize| spec_is_voucher(sc, prize_key@, None, q) {
                        let q = choose|q: Prize| spec_is_voucher(sc, prize_key@, None, q);
                        lemma_prize_cbor_len(q);
                        assert(q.spec_cbor() == q.spec_cbor());
                    }
                }
            }
            return Err(Error::InvalidPrize);
        },
    };
    proof {
        lemma_voucher_identify(sc, prize_key@, None, p);
    }
    if !p.is_valid(now_sec) {
        return Err(Error::PrizeRejected);
    }
    if p.0 == 0 || p.3 == 0 {
        return Err(Error::PrizeRejected);
    }
    if !pool.try_acquire(caller) {
        return Err(Error::TryAgainLater);
    }
    let st = match pool.state_of(caller) {
        Some(st) => st,
        None => {
            pool.release(caller);
            return Err(Error::NoAirdropState);
        },
    };
    if st.0 == 0 {
        pool.release(caller);
        return Err(Error::Banned);
    }
    Ok(PrizePending { prize: p, need_balance: st.2 < 10 * TOKEN_1 })
}

/// Settles a prize redemption after the optional balance read: applies the
/// ten-token gate, redeems the voucher at most once, credits the claimable
/// balance, bumps the totals, logs, and releases the guard.
pub fn prize_complete(
    pool: &mut LuckyPool,
    caller: &Account,
    pending: PrizePending,
    balance: Option<u64>,
    now_sec: u64,
) -> (r: Result<AirdropStateOutput, Error>)
    requires
        old(pool).wf(),
    ensures
        final(pool).wf(),
        forall|b: Seq<u8>| #[trigger]
            spec_is_active(final(pool).active@, b) == (spec_is_active(old(pool).active@, b) && b
                != caller@),
        r is Err ==> final(pool).accounts == old(pool).accounts && final(pool).claims == old(
            pool,
        ).claims && final(pool).state == old(pool).state,
        r == Err::<AirdropStateOutput, Error>(Error::NoAirdropState) <==> spec_state_of(
            old(pool).accounts@,
            caller@,
        ) is None,
        r is Ok <==> (match spec_state_of(old(pool).accounts@, caller@) {
            Some(st) => st.0 != 0 && sat_add(
                st.2,
                match balance {
                    Some(b) => b,
                    None => 0,
                },
            ) >= 10 * TOKEN_1 && !spec_claimed_by(old(pool).claims@, pending.prize, caller@)
                && spec_claim_count(old(pool).claims@, pending.prize) < pending.prize.4,
            None => false,
        }),
        r == Err::<AirdropStateOutput, Error>(Error::Banned) <==> (match spec_state_of(
            old(pool).accounts@,
            caller@,
        ) {
            Some(st) => st.0 == 0,
            None => false,
        }),
        r == Err::<AirdropStateOutput, Error>(Error::LowBalance) <==> (match spec_state_of(
            old(pool).accounts@,
            caller@,
        ) {
            Some(st) => st.0 != 0 && sat_add(
                st.2,
                match balance {
                    Some(b) => b,
                    None => 0,
                },
            ) < 10 * TOKEN_1,
            None => false,
        }),
        r matches Ok(out) ==> ({
            let st0 = spec_state_of(old(pool).accounts@, caller@)->Some_0;
            let credit = (pending.prize.3 as u64 * TOKEN_1) as u64;
            &&& spec_state_of(old(pool).accounts@, caller@) is Some
            &&& st0.0 != 0
            &&& !spec_claimed_by(old(pool).claims@, pending.prize, caller@)
            &&& spec_claim_count(old(pool).claims@, pending.prize) < pending.prize.4
            &&& spec_claimed_by(final(pool).claims@, pending.prize, caller@)
            &&& out.lucky_code == Some(st0.0)
            &&& out.claimed == st0.1
            &&& out.claimable == sat_add(st0.2, credit)
            &&& spec_state_of(final(pool).accounts@, caller@) == Some(
                AirdropState(st0.0, st0.1, sat_add(st0.2, credit)),
            )
            &&& final(pool).state.total_prize == sat_add(old(pool).state.total_prize, credit)
            &&& final(pool).state.total_prize_count == sat_add(
                old(pool).state.total_prize_count,
                1,
            )
            &&& ({
                let logs = final(pool).state.latest_airdrop_logs@;
                let prev = old(pool).state.latest_airdrop_logs@;
                &&& logs.len() as int == (if prev.len() + 1 > 10 {
                    10int
                } else {
                    prev.len() as int + 1
                })
                &&& logs[0].account@ == caller@
                &&& logs[0].ts == now_sec
                &&& logs[0].amount == credit
                &&& logs[0].lucky_code == pending.prize.0
                &&& logs.skip(1) == prev.take(logs.len() - 1)
            })
        }),
{
    let st = match pool.state_of(caller) {
        Some(st) => st,
        None => {
            pool.release(caller);
            return Err(Error::NoAirdropState);
        },
    };
    if st.0 == 0 {
        pool.release(caller);
        return Err(Error::Banned);
    }
    if st.2 < 10 * TOKEN_1 {
        let bal = match balance {
            Some(b) => b,
            None => 0,
        };
        if add_sat(st.2, bal) < 10 * TOKEN_1 {
            pool.release(caller);
            return Err(Error::LowBalance);
        }
    }
    let credit = match pool.claim_prize(caller, pending.prize) {
        Ok(c) => c,
        Err(_) => {
            pool.release(caller);
            return Err(Error::PrizeClaimFailed);
        },
    };
    let new_claimable = add_sat(st.2, credit);
    pool.update_account(caller, AirdropState(st.0, st.1, new_claimable));
    pool.state.total_prize = add_sat(pool.state.total_prize, credit);
    pool.state.total_prize_count = add_sat(pool.state.total_prize_count, 1);
    let ghost prev_logs = pool.state.latest_airdrop_logs@;
    let log = AirdropLog {
        account: caller.duplicate(),
        ts: now_sec,
        amount: credit,
        lucky_code: pending.prize.0,
    };
    pool.push_airdrop_log(log);
    proof {
        crate::pool::lemma_push_front_capped_parts(prev_logs, log, 10);
    }
    pool.release(caller);
    Ok(AirdropStateOutput { lucky_code: Some(st.0), claimed: st.1, claimable: new_claimable })
}

/// Opens a harvest: takes the guard and checks that the caller may withdraw
/// `amount`. On success the guard stays held while the ledger transfer runs;
/// the withdrawal succeeds only when at least one whole token is asked for
/// and no more than the claimable balance.
pub fn harvest_begin(pool: &mut LuckyPool, caller: &Account, amount: u64) -> (r: Result<
    (),
    Error,
>)
    requires
        old(pool).wf(),
    ensures
        final(pool).wf(),
        final(pool).accounts == old(pool).accounts,
        final(pool).codes == old(pool).codes,
        final(pool).next_code == old(pool).next_code,
        final(pool).xauth == old(pool).xauth,
        final(pool).claims == old(pool).claims,
        final(pool).state == old(pool).state,
        r is Ok <==> (!spec_is_active(old(pool).active@, caller@) && (match spec_state_of(
            old(pool).accounts@,
            caller@,
        ) {
            Some(st) => st.0 != 0 && amount >= TOKEN_1 && amount <= st.2,
            None => false,
        })),
        r is Err ==> forall|b: Seq<u8>| #[trigger]
            spec_is_active(final(pool).active@, b) == spec_is_active(old(pool).active@, b),
        r is Ok ==> spec_is_active(final(pool).active@, caller@) && forall|b: Seq<u8>|
            b != caller@ ==> #[trigger] spec_is_active(final(pool).active@, b) == spec_is_active(
                old(pool).active@,
                b,
            ),
        r == Err::<(), Error>(Error::TryAgainLater) <==> spec_is_active(
            old(pool).active@,
            caller@,
        ),
{
    if !pool.try_acquire(caller) {
        return Err(Error::TryAgainLater);
    }
    let st = match pool.state_of(caller) {
        Some(st) => st,
        None => {
            pool.release(caller);
            return Err(Error::NoAirdropState);
        },
    };
    if st.0 == 0 {
        pool.release(caller);
        return Err(Error::Banned);
    }
    if amount < TOKEN_1 {
        pool.release(caller);
        return Err(Error::AmountTooSmall);
    }
    if amount > st.2 {
        pool.release(caller);
        return Err(Error::InsufficientClaimable);
    }
    Ok(())
}

/// Settles a harvest after the ledger transfer: a failed transfer leaves the
/// record untouched; a successful one moves `amount` from the claimable
/// balance to the harvested total, exactly.
pub fn harvest_complete(
    pool: &mut LuckyPool,
    caller: &Account,
    amount: u64,
    now_sec: u64,
    transferred: bool,
) -> (r: Result<AirdropStateOutput, Error>)
    requires
        old(pool).wf(),
    ensures
        final(pool).wf(),
        forall|b: Seq<u8>| #[trigger]
            spec_is_active(final(pool).active@, b) == (spec_is_active(old(pool).active@, b) && b
                != caller@),
        r is Err ==> final(pool).accounts == old(pool).accounts && final(pool).state == old(
            pool,
        ).state,
        !transferred ==> r == Err::<AirdropStateOutput, Error>(Error::TransferFailed),
        r is Ok <==> (transferred && (match spec_state_of(old(pool).accounts@, caller@) {
            Some(st) => st.0 != 0 && TOKEN_1 <= amount <= st.2 && st.1 + amount <= u64::MAX,
            None => false,
        })),
        r matches Ok(out) ==> ({
            let st0 = spec_state_of(old(pool).accounts@, caller@)->Some_0;
            &&& out == spec_output(
                AirdropState(st0.0, (st0.1 + amount) as u64, (st0.2 - amount) as u64),
            )
            &&& spec_state_of(final(pool).accounts@, caller@) == Some(
                AirdropState(st0.0, (st0.1 + amount) as u64, (st0.2 - amount) as u64),
            )
            &&& final(pool).state.airdrop_balance == sat_sub(
                old(pool).state.airdrop_balance,
                sat_add(amount, TRANS_FEE),
            )
            &&& final(pool).state.total_airdrop == sat_add(
                old(pool).state.total_airdrop,
                sat_add(amount, TRANS_FEE),
            )
            &&& final(pool).state.total_airdrop_count == sat_add(
                old(pool).state.total_airdrop_count,
                1,
            )
            &&& ({
                let logs = final(pool).state.latest_airdrop_logs@;
                let prev = old(pool).state.latest_airdrop_logs@;
                &&& logs.len() as int == (if prev.len() + 1 > 10 {
                    10int
                } else {
                    prev.len() as int + 1
                })
                &&& logs[0].account@ == caller@
                &&& logs[0].ts == now_sec
                &&& logs[0].amount == amount
                &&& logs[0].lucky_code == st0.0
                &&& logs.skip(1) == prev.take(logs.len() - 1)
            })
        }),
{
    if !transferred {
        pool.release(caller);
        return Err(Error::TransferFailed);
    }
    let st = match pool.state_of(caller) {
        Some(st) => st,
        None => {
            pool.release(caller);
            return Err(Error::NoAirdropState);
        },
    };
    if st.0 == 0 {
        pool.release(caller);
        return Err(Error::Banned);
    }
    if amount < TOKEN_1 {
        pool.release(caller);
        return Err(Error::AmountTooSmall);
    }
    if amount > st.2 {
        pool.release(caller);
        return Err(Error::InsufficientClaimable);
    }
    if st.1 > u64::MAX - amount {
        pool.release(caller);
        return Err(Error::InsufficientClaimable);
    }
    let new_state = AirdropState(st.0, st.1 + amount, st.2 - amount);
    pool.update_account(caller, new_state);
    let fee_total = add_sat(amount, TRANS_FEE);
    pool.state.airdrop_balance = sub_sat(pool.state.airdrop_balance, fee_total);
    pool.state.total_airdrop = add_sat(pool.state.total_airdrop, fee_total);
    pool.state.total_airdrop_count = add_sat(pool.state.total_airdrop_count, 1);
    let ghost prev_logs = pool.state.latest_airdrop_logs@;
    let log = AirdropLog {
        account: caller.duplicate(),
        ts: now_sec,
        amount,
        lucky_code: new_state.0,
    };
    pool.push_airdrop_log(log);
    proof {
        crate::pool::lemma_push_front_capped_parts(prev_logs, log, 10);
    }
    pool.release(caller);
    Ok(AirdropStateOutput { lucky_code: Some(new_state.0), claimed: new_state.1, claimable: new_state.2 })
}

/// The hard cap on the cumulative draw payout, in whole tokens.
pub const LUCKYDRAW_CAP_TOKENS: u64 = 420_000_000;

/// The pool balance floor per wager tenth, in whole tokens.
pub const LOWEST_LUCKYDRAW_BALANCE: u64 = 500;

/// The wager in tenths of a settlement unit: a direct multiple, or derived
/// from a raw amount.
pub open spec fn spec_icp01(icp: u8, amount: Option<u64>) -> int {
    if icp == 0 {
        match amount {
            Some(v) => v * 10 / (TOKEN_1 as int),
            None => 0,
        }
    } else {
        icp * 10
    }
}

/// Opens a lucky draw: screens the wager, rejects once the cumulative payout
/// has reached the cap whatever the wager, and takes the guard. On success
/// the guard stays held through the draw and settlement phases.
pub fn luckydraw_begin(pool: &mut LuckyPool, caller: &Account, icp: u8, amount: Option<u64>) -> (r:
    Result<u64, Error>)
    requires
        old(pool).wf(),
    ensures
        final(pool).wf(),
        final(pool).accounts == old(pool).accounts,
        final(pool).codes == old(pool).codes,
        final(pool).next_code == old(pool).next_code,
        final(pool).xauth == old(pool).xauth,
        final(pool).claims == old(pool).claims,
        final(pool).state == old(pool).state,
        r is Err ==> forall|b: Seq<u8>| #[trigger]
            spec_is_active(final(pool).active@, b) == spec_is_active(old(pool).active@, b),
        r == Err::<u64, Error>(Error::InvalidIcpAmount) <==> !(1 <= spec_icp01(icp, amount)
            <= 1000),
        r == Err::<u64, Error>(Error::DrawPoolEmpty) <==> (1 <= spec_icp01(icp, amount) <= 1000
            && old(pool).state.total_luckydraw >= LUCKYDRAW_CAP_TOKENS * TOKEN_1),
        r == Err::<u64, Error>(Error::TryAgainLater) <==> (1 <= spec_icp01(icp, amount) <= 1000
            && old(pool).state.total_luckydraw < LUCKYDRAW_CAP_TOKENS * TOKEN_1 && spec_is_active(
            old(pool).active@,
            caller@,
        )),
        r matches Ok(v) ==> ({
            &&& v == spec_icp01(icp, amount)
            &&& 1 <= v <= 1000
            &&& old(pool).state.total_luckydraw < LUCKYDRAW_CAP_TOKENS * TOKEN_1
            &&& spec_is_active(final(pool).active@, caller@)
            &&& !spec_is_active(old(pool).active@, caller@)
            &&& forall|b: Seq<u8>|
                b != caller@ ==> #[trigger] spec_is_active(final(pool).active@, b)
                    == spec_is_active(old(pool).active@, b)
        }),
{
    let icp01: u64 = if icp == 0 {
        match amount {
            Some(v) => {
                let wide: u128 = (v as u128) * 10 / (TOKEN_1 as u128);
                assert(wide == spec_icp01(icp, Some(v)));
                if wide > 1000 {
                    return Err(Error::InvalidIcpAmount);
                }
                wide as u64
            },
            None => 0,
        }
    } else {
        (icp as u64) * 10
    };
    if icp01 < 1 || icp01 > 1000 {
        return Err(Error::InvalidIcpAmount);
    }
    if pool.state.total_luckydraw >= LUCKYDRAW_CAP_TOKENS * TOKEN_1 {
        return Err(Error::DrawPoolEmpty);
    }
    if !pool.try_acquire(caller) {
        return Err(Error::TryAgainLater);
    }
    Ok(icp01)
}

/// The domain-separation tag mixed into the draw MAC: the bytes of the brand
/// name the modulus was derived from.
pub open spec fn spec_draw_tag() -> Seq<u8> {
    seq![73u8, 67u8, 80u8, 97u8, 110u8, 100u8, 97u8]
}

fn draw_tag() -> (r: Vec<u8>)
    ensures
        r@ == spec_draw_tag(),
{
    let mut out: Vec<u8> = Vec::new();
    out.push(73);
    out.push(67);
    out.push(80);
    out.push(97);
    out.push(110);
    out.push(100);
    out.push(97);
    assert(out@ =~= spec_draw_tag());
    out
}

/// Maps a draw of randomness to the raw draw value and the unscaled reward:
/// the randomness keys a MAC over the fixed tag, and the first eight bytes of
/// the tag stream feed the draw engine.
pub fn luckydraw_draw(random: &[u8]) -> (r: (u64, u64))
    ensures
        ({
            let m = crate::codec::mac_output(random@, spec_draw_tag());
            &&& r.0 == crate::draw::spec_draw_value(m)
            &&& r.0 < crate::draw::LUCKYDRAW_DIVISOR
            &&& r.1 == crate::draw::spec_draw_amount(r.0)
        }),
{
    let tag = draw_tag();
    let m = crate::crypto::mac_256(random, tag.as_slice());
    let mv = crate::codec::tag_take(&m, 32);
    assert(mv@ =~= m@);
    crate::draw::luckydraw_amount(mv.as_slice())
}

/// The wager in settlement minor units and the reward scaled by the wager's
/// tenths.
pub fn luckydraw_scale(icp01: u64, amount: u64) -> (r: (u64, u64))
    requires
        1 <= icp01 <= 1000,
        amount <= 100_000 * TOKEN_1,
    ensures
        r.0 == icp01 * ICP_1 / 10,
        r.1 == icp01 * amount / 10,
{
    proof {
        assert(icp01 * amount <= 10_000_000_000_000_000) by (nonlinear_arith)
            requires
                icp01 <= 1000 && amount <= 10_000_000_000_000u64,
        ;
    }
    (icp01 * ICP_1 / 10, icp01 * amount / 10)
}

/// The pool-balance floor for a wager of `icp01` tenths.
pub fn luckydraw_required_balance(icp01: u64) -> (r: u64)
    requires
        1 <= icp01 <= 1000,
    ensures
        r == LOWEST_LUCKYDRAW_BALANCE * TOKEN_1 * icp01 / 10 + TRANS_FEE,
{
    LOWEST_LUCKYDRAW_BALANCE * TOKEN_1 * icp01 / 10 + TRANS_FEE
}

/// Abandons a draw before any settlement debit, releasing the guard and
/// changing nothing else.
pub fn luckydraw_abort(pool: &mut LuckyPool, caller: &Account)
    requires
        old(pool).wf(),
    ensures
        final(pool).wf(),
        forall|b: Seq<u8>| #[trigger]
            spec_is_active(final(pool).active@, b) == (spec_is_active(old(pool).active@, b) && b
                != caller@),
        final(pool).accounts == old(pool).accounts,
        final(pool).codes == old(pool).codes,
        final(pool).next_code == old(pool).next_code,
        final(pool).xauth == old(pool).xauth,
        final(pool).claims == old(pool).claims,
        final(pool).state == old(pool).state,
{
    pool.release(caller);
}

/// The payout after the wager was debited: the scaled reward, cut to what the
/// pool's balance can cover net of the fee, and nothing at all when the
/// balance fell below the floor.
pub fn luckydraw_settle(icp01: u64, scaled_amount: u64, balance: u64) -> (r: u64)
    requires
        1 <= icp01 <= 1000,
    ensures
        r == ({
            let floor = LOWEST_LUCKYDRAW_BALANCE * TOKEN_1 * icp01 / 10 + TRANS_FEE;
            if balance >= floor {
                if sat_sub(balance, TRANS_FEE) < scaled_amount {
                    sat_sub(balance, TRANS_FEE)
                } else {
                    scaled_amount
                }
            } else {
                0
            }
        }),
{
    let floor = luckydraw_required_balance(icp01);
    if balance >= floor {
        let avail = sub_sat(balance, TRANS_FEE);
        if avail < scaled_amount {
            avail
        } else {
            scaled_amount
        }
    } else {
        0
    }
}

/// Commits a paid-out draw: bumps the totals, appends to the recent window
/// (and to the luckiest window on a jackpot), auto-issues a referral voucher
/// against the caller's registration, creating one on the fly for a caller
/// not yet registered, and releases the guard.
pub fn luckydraw_commit(
    pool: &mut LuckyPool,
    caller: &Account,
    now_sec: u64,
    icp01: u64,
    x: u64,
    base_amount: u64,
    scaled_amount: u64,
    draw_amount: u64,
    icp: u64,
    airdrop_key: &[u8],
) -> (out: LuckyDrawOutput)
    requires
        old(pool).wf(),
        old(pool).next_code < u32::MAX,
        draw_amount > 0,
        now_sec <= u32::MAX,
        icp >= TRANS_FEE,
        1 <= icp01 <= 1000,
    ensures
        final(pool).wf(),
        forall|b: Seq<u8>| #[trigger]
            spec_is_active(final(pool).active@, b) == (spec_is_active(old(pool).active@, b) && b
                != caller@),
        out.amount == draw_amount,
        out.random == x,
        out.luckypool_empty == (draw_amount < scaled_amount),
        out.prize_cryptogram is None,
        final(pool).state.total_luckydraw == sat_add(
            old(pool).state.total_luckydraw,
            sat_add(draw_amount, TRANS_FEE),
        ),
        final(pool).state.total_luckydraw_icp == sat_add(
            old(pool).state.total_luckydraw_icp,
            (icp - TRANS_FEE) as u64,
        ),
        final(pool).state.total_luckydraw_count == sat_add(
            old(pool).state.total_luckydraw_count,
            1,
        ),
        out.airdrop_cryptogram is Some <==> (match spec_state_of(old(pool).accounts@, caller@) {
            Some(st) => st.0 != 0,
            None => true,
        }),
        spec_state_of(old(pool).accounts@, caller@) is None ==> (match spec_state_of(
            final(pool).accounts@,
            caller@,
        ) {
            Some(st) => st.0 != 0 && st.1 == 0 && st.2 == old(pool).state.airdrop_amount * TOKEN_1,
            None => false,
        }),
        ({
            let logs = final(pool).state.latest_luckydraw_logs@;
            let prev = old(pool).state.latest_luckydraw_logs@;
            &&& logs.len() as int == (if prev.len() + 1 > 10 {
                10int
            } else {
                prev.len() as int + 1
            })
            &&& logs[0].account@ == caller@
            &&& logs[0].ts == now_sec
            &&& logs[0].amount == draw_amount
            &&& logs[0].icp_amount == icp
            &&& logs[0].random == x
            &&& logs.skip(1) == prev.take(logs.len() - 1)
        }),
        base_amount == crate::draw::LUCKIEST_AIRDROP_AMOUNT * TOKEN_1 ==> ({
            let logs = final(pool).state.luckiest_luckydraw_logs@;
            let prev = old(pool).state.luckiest_luckydraw_logs@;
            &&& logs.len() as int == (if prev.len() + 1 > 3 {
                3int
            } else {
                prev.len() as int + 1
            })
            &&& logs[0].account@ == caller@
            &&& logs[0].ts == now_sec
            &&& logs[0].amount == draw_amount
            &&& logs[0].icp_amount == icp
            &&& logs[0].random == x
            &&& logs.skip(1) == prev.take(logs.len() - 1)
        }),
        base_amount != crate::draw::LUCKIEST_AIRDROP_AMOUNT * TOKEN_1
            ==> final(pool).state.luckiest_luckydraw_logs
            == old(pool).state.luckiest_luckydraw_logs,
        out.airdrop_cryptogram matches Some(c) ==> ({
            let issued = (match spec_state_of(old(pool).accounts@, caller@) {
                Some(st) => st.0,
                None => old(pool).next_code,
            });
            c@ == b64url_of(
                spec_cryptogram_token(
                    Prize(issued, now_sec as u32, 4320, 0, (icp01 * 5) as u16).spec_cbor(),
                    airdrop_key@,
                    None,
                ),
            )
        }),
{
    let log = LuckyDrawLog {
        account: caller.duplicate(),
        ts: now_sec,
        amount: draw_amount,
        icp_amount: icp,
        random: x,
    };
    pool.state.total_luckydraw = add_sat(
        pool.state.total_luckydraw,
        add_sat(draw_amount, TRANS_FEE),
    );
    pool.state.total_luckydraw_icp = add_sat(pool.state.total_luckydraw_icp, icp - TRANS_FEE);
    pool.state.total_luckydraw_count = add_sat(pool.state.total_luckydraw_count, 1);
    let ghost prev_logs = pool.state.latest_luckydraw_logs@;
    pool.push_luckydraw_log(log);
    proof {
        crate::pool::lemma_push_front_capped_parts(prev_logs, log, 10);
    }
    if base_amount == crate::draw::LUCKIEST_AIRDROP_AMOUNT * TOKEN_1 {
        let ghost prev_luckiest = pool.state.luckiest_luckydraw_logs@;
        let log2 = LuckyDrawLog {
            account: caller.duplicate(),
            ts: now_sec,
            amount: draw_amount,
            icp_amount: icp,
            random: x,
        };
        pool.push_luckiest_log(log2);
        proof {
            crate::pool::lemma_push_front_capped_parts(prev_luckiest, log2, 3);
        }
    }
    let airdrop_cryptogram: Option<String> = match pool.state_of(caller) {
        Some(st) => {
            if st.0 == 0 {
                None
            } else {
                let p = Prize(st.0, now_sec as u32, 4320, 0, (icp01 as u16) * 5);
                Some(p.encode(airdrop_key, None))
            }
        },
        None => {
            let code = pool.new_code(caller);
            let award = pool.state.airdrop_amount * TOKEN_1;
            pool.insert_account(caller, AirdropState(code, 0, award));
            let p = Prize(code, now_sec as u32, 4320, 0, (icp01 as u16) * 5);
            Some(p.encode(airdrop_key, None))
        },
    };
    pool.release(caller);
    LuckyDrawOutput {
        amount: draw_amount,
        random: x,
        luckypool_empty: draw_amount < scaled_amount,
        prize_cryptogram: None,
        airdrop_cryptogram,
    }
}

/// The compensating refund after a failed payout: the debited wager net of
/// the fees for the debit and refund legs.
pub fn luckydraw_refund_amount(icp: u64) -> (r: u64)
    requires
        icp >= 2 * TRANS_FEE,
    ensures
        r == icp - 2 * TRANS_FEE,
{
    icp - TRANS_FEE - TRANS_FEE
}

/// Closes a draw whose payout failed, after the compensating refund was
/// attempted: releases the guard and reports how the draw ended.
pub fn luckydraw_refund_done(pool: &mut LuckyPool, caller: &Account, refunded: bool) -> (r: Result<
    LuckyDrawOutput,
    Error,
>)
    requires
        old(pool).wf(),
    ensures
        final(pool).wf(),
        forall|b: Seq<u8>| #[trigger]
            spec_is_active(final(pool).active@, b) == (spec_is_active(old(pool).active@, b) && b
                != caller@),
        final(pool).accounts == old(pool).accounts,
        final(pool).codes == old(pool).codes,
        final(pool).next_code == old(pool).next_code,
        final(pool).xauth == old(pool).xauth,
        final(pool).claims == old(pool).claims,
        final(pool).state == old(pool).state,
        r == Err::<LuckyDrawOutput, Error>(
            if refunded {
                Error::DrawFailedRefunded
            } else {
                Error::RefundFailed
            },
        ),
{
    pool.release(caller);
    if refunded {
        Err(Error::DrawFailedRefunded)
    } else {
        Err(Error::RefundFailed)
    }
}

} // verus!
