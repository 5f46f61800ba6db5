//! The shared pool state: per-account airdrop records, the per-account
//! exclusivity guard, the lucky-code and identity registries, voucher
//! redemptions, and the aggregate counters with their bounded recent-activity
//! windows. Every mutation of this state goes through the methods here.
use vstd::prelude::*;

use crate::account::Account;
use crate::prize::Prize;

verus! {

/// Saturating addition: the aggregate counters never wrap.
pub open spec fn sat_add(a: u64, b: u64) -> u64 {
    if a + b > u64::MAX {
        u64::MAX
    } else {
        (a + b) as u64
    }
}

/// Executable saturating addition.
pub fn add_sat(a: u64, b: u64) -> (r: u64)
    ensures
        r == sat_add(a, b),
{
    if a > u64::MAX - b {
        u64::MAX
    } else {
        a + b
    }
}

/// Saturating subtraction: counters never wrap below zero.
pub open spec fn sat_sub(a: u64, b: u64) -> u64 {
    if a >= b {
        (a - b) as u64
    } else {
        0
    }
}

/// Executable saturating subtraction.
pub fn sub_sat(a: u64, b: u64) -> (r: u64)
    ensures
        r == sat_sub(a, b),
{
    if a >= b {
        a - b
    } else {
        0
    }
}

/// A per-account airdrop record: lucky code (0 once banned), total harvested,
/// and the claimable balance, both in minor units.
#[derive(Clone, Copy, Debug, PartialEq, Eq, Structural)]
pub struct AirdropState(pub u32, pub u64, pub u64);

/// One completed airdrop, prize or harvest operation.
pub struct AirdropLog {
    pub account: Account,
    pub ts: u64,
    pub amount: u64,
    pub lucky_code: u32,
}

/// One completed lucky draw, with the raw draw value for auditability.
pub struct LuckyDrawLog {
    pub account: Account,
    pub ts: u64,
    pub amount: u64,
    pub icp_amount: u64,
    pub random: u64,
}

/// An account's entry in the airdrop store.
pub struct AccountEntry {
    pub account: Account,
    pub state: AirdropState,
}

/// A minted lucky code and its owner.
pub struct CodeEntry {
    pub code: u32,
    pub account: Account,
}

/// A one-time binding of an external identity to an account.
pub struct XAuthEntry {
    pub id: Vec<u8>,
    pub account: Account,
}

/// One redemption of a voucher by one account.
pub struct PrizeClaim {
    pub prize: Prize,
    pub account: Account,
}

/// The aggregate counters and the bounded recent-activity windows.
pub struct GlobalState {
    pub airdrop_amount: u64,
    pub airdrop_balance: u64,
    pub total_airdrop: u64,
    pub total_airdrop_count: u64,
    pub total_prize: u64,
    pub total_prize_count: u64,
    pub total_luckydraw: u64,
    pub total_luckydraw_icp: u64,
    pub total_luckydraw_count: u64,
    pub latest_airdrop_logs: Vec<AirdropLog>,
    pub latest_luckydraw_logs: Vec<LuckyDrawLog>,
    pub luckiest_luckydraw_logs: Vec<LuckyDrawLog>,
}

/// The whole in-memory pool state.
pub struct LuckyPool {
    pub accounts: Vec<AccountEntry>,
    pub active: Vec<Account>,
    pub codes: Vec<CodeEntry>,
    pub next_code: u32,
    pub xauth: Vec<XAuthEntry>,
    pub claims: Vec<PrizeClaim>,
    pub state: GlobalState,
}

/// Whether `a` holds the exclusivity guard.
pub open spec fn spec_is_active(active: Seq<Account>, a: Seq<u8>) -> bool {
    exists|i: int| 0 <= i < active.len() && active[i]@ == a
}

/// Whether the store holds a record for `a`.
pub open spec fn spec_has_account(entries: Seq<AccountEntry>, a: Seq<u8>) -> bool {
    exists|i: int| 0 <= i < entries.len() && entries[i].account@ == a
}

/// The airdrop record of `a`, if any.
pub open spec fn spec_state_of(entries: Seq<AccountEntry>, a: Seq<u8>) -> Option<AirdropState> {
    if spec_has_account(entries, a) {
        let i = choose|i: int| 0 <= i < entries.len() && entries[i].account@ == a;
        Some(entries[i].state)
    } else {
        None
    }
}

/// Whether `code` has been minted.
pub open spec fn spec_code_exists(codes: Seq<CodeEntry>, code: u32) -> bool {
    exists|i: int| 0 <= i < codes.len() && codes[i].code == code
}

/// Whether the external identity `id` is already bound.
pub open spec fn spec_xauth_bound(xauth: Seq<XAuthEntry>, id: Seq<u8>) -> bool {
    exists|i: int| 0 <= i < xauth.len() && xauth[i].id@ == id
}

/// How many accounts have redeemed `p`.
pub open spec fn spec_claim_count(claims: Seq<PrizeClaim>, p: Prize) -> nat
    decreases claims.len(),
{
    if claims.len() == 0 {
        0
    } else {
        spec_claim_count(claims.drop_last(), p) + if claims.last().prize == p {
            1nat
        } else {
            0nat
        }
    }
}

/// Whether `a` has already redeemed `p`.
pub open spec fn spec_claimed_by(claims: Seq<PrizeClaim>, p: Prize, a: Seq<u8>) -> bool {
    exists|i: int| 0 <= i < claims.len() && claims[i].prize == p && claims[i].account@ == a
}

impl LuckyPool {
    /// The structural invariant: accounts, guard holders and codes are
    /// unique, codes are non-zero and below the mint counter, the per-claim
    /// award is small enough that one and a half times it still fits in
    /// minor units, and the activity windows respect their caps.
    pub open spec fn wf(&self) -> bool {
        &&& forall|i: int, j: int|
            0 <= i < j < self.accounts@.len() ==> self.accounts@[i].account@
                != self.accounts@[j].account@
        &&& forall|i: int, j: int|
            0 <= i < j < self.active@.len() ==> self.active@[i]@ != self.active@[j]@
        &&& forall|i: int, j: int|
            0 <= i < j < self.codes@.len() ==> self.codes@[i].code != self.codes@[j].code
        &&& forall|i: int|
            0 <= i < self.codes@.len() ==> 0 < #[trigger] self.codes@[i].code < self.next_code
        &&& self.next_code >= 1
        &&& self.state.airdrop_amount <= 100_000_000_000
        &&& self.state.latest_airdrop_logs@.len() <= 10
        &&& self.state.latest_luckydraw_logs@.len() <= 10
        &&& self.state.luckiest_luckydraw_logs@.len() <= 3
    }

    /// A fresh pool: no accounts, nothing active, the given award per claim
    /// and the given pool balance.
    pub fn new(airdrop_amount: u64, airdrop_balance: u64) -> (r: LuckyPool)
        requires
            airdrop_amount <= 100_000_000_000,
        ensures
            r.wf(),
            r.accounts@.len() == 0,
            r.active@.len() == 0,
            r.codes@.len() == 0,
            r.xauth@.len() == 0,
            r.claims@.len() == 0,
            r.next_code == 1,
            r.state.airdrop_amount == airdrop_amount,
            r.state.airdrop_balance == airdrop_balance,
            r.state.total_airdrop == 0,
            r.state.total_airdrop_count == 0,
            r.state.total_prize == 0,
            r.state.total_prize_count == 0,
            r.state.total_luckydraw == 0,
            r.state.total_luckydraw_icp == 0,
            r.state.total_luckydraw_count == 0,
            r.state.latest_airdrop_logs@.len() == 0,
            r.state.latest_luckydraw_logs@.len() == 0,
            r.state.luckiest_luckydraw_logs@.len() == 0,
    {
        LuckyPool {
            accounts: Vec::new(),
            active: Vec::new(),
            codes: Vec::new(),
            next_code: 1,
            xauth: Vec::new(),
            claims: Vec::new(),
            state: GlobalState {
                airdrop_amount,
                airdrop_balance,
                total_airdrop: 0,
                total_airdrop_count: 0,
                total_prize: 0,
                total_prize_count: 0,
                total_luckydraw: 0,
                total_luckydraw_icp: 0,
                total_luckydraw_count: 0,
                latest_airdrop_logs: Vec::new(),
                latest_luckydraw_logs: Vec::new(),
                luckiest_luckydraw_logs: Vec::new(),
            },
        }
    }

    /// Marks `caller` active. Fails, changing nothing, exactly when `caller`
    /// already holds the guard: the reentrancy barrier.
    pub fn try_acquire(&mut self, caller: &Account) -> (r: bool)
        requires
            old(self).wf(),
        ensures
            final(self).wf(),
            r == !spec_is_active(old(self).active@, caller@),
            spec_is_active(final(self).active@, caller@),
            forall|b: Seq<u8>|
                b != caller@ ==> #[trigger] spec_is_active(final(self).active@, b)
                    == spec_is_active(old(self).active@, b),
            final(self).accounts == old(self).accounts,
            final(self).codes == old(self).codes,
            final(self).next_code == old(self).next_code,
            final(self).xauth == old(self).xauth,
            final(self).claims == old(self).claims,
            final(self).state == old(self).state,
            !r ==> final(self).active == old(self).active,
    {
        let ghost prev = self.active@;
        let mut i: usize = 0;
        while i < self.active.len()
            invariant
                i <= self.active@.len(),
                *self == *old(self),
                old(self).wf(),
                self.active@ == prev,
                forall|j: int| 0 <= j < i ==> self.active@[j]@ != caller@,
            decreases self.active@.len() - i,
        {
            if self.active[i].same(caller) {
                assert(spec_is_active(self.active@, caller@)) by {
                    assert(self.active@[i as int]@ == caller@);
                }
                return false;
            }
            i = i + 1;
        }
        assert(!spec_is_active(prev, caller@));
        self.active.push(caller.duplicate());
        proof {
            assert(spec_is_active(self.active@, caller@)) by {
                assert(self.active@[prev.len() as int]@ == caller@);
            }
            assert forall|b: Seq<u8>| b != caller@ implies #[trigger] spec_is_active(
                self.active@,
                b,
            ) == spec_is_active(prev, b) by {
                if spec_is_active(self.active@, b) {
                    let i = choose|i: int|
                        0 <= i < self.active@.len() && self.active@[i]@ == b;
                    assert(i < prev.len() && prev[i]@ == b);
                }
                if spec_is_active(prev, b) {
                    let i = choose|i: int| 0 <= i < prev.len() && prev[i]@ == b;
                    assert(self.active@[i]@ == b);
                }
            }
        }
        true
    }

    /// Releases `caller`'s guard; a no-op when it is not held. Every exit
    /// path of every operation runs this.
    pub fn release(&mut self, caller: &Account)
        requires
            old(self).wf(),
        ensures
            final(self).wf(),
            forall|b: Seq<u8>| #[trigger]
                spec_is_active(final(self).active@, b) == (spec_is_active(old(self).active@, b)
                    && b != caller@),
            final(self).accounts == old(self).accounts,
            final(self).codes == old(self).codes,
            final(self).next_code == old(self).next_code,
            final(self).xauth == old(self).xauth,
            final(self).claims == old(self).claims,
            final(self).state == old(self).state,
    {
        let ghost prev = self.active@;
        let mut i: usize = 0;
        while i < self.active.len()
            invariant
                i <= self.active@.len(),
                *self == *old(self),
                old(self).wf(),
                self.active@ == prev,
                forall|j: int| 0 <= j < i ==> self.active@[j]@ != caller@,
            decreases self.active@.len() - i,
        {
            if self.active[i].same(caller) {
                let ghost n = prev.len() as int;
                self.active.swap_remove(i);
                proof {
                    let cur = self.active@;
                    assert(cur =~= prev.update(i as int, prev[n - 1]).drop_last());
                    assert forall|x: int, y: int| 0 <= x < y < cur.len() implies cur[x]@
                        != cur[y]@ by {
                        if x == i {
                            assert(cur[x] == prev[n - 1] && cur[y] == prev[y]);
                        } else if y == i {
                            assert(cur[y] == prev[n - 1] && cur[x] == prev[x]);
                        } else {
                            assert(cur[x] == prev[x] && cur[y] == prev[y]);
                        }
                    }
                    assert forall|b: Seq<u8>| #[trigger]
                        spec_is_active(cur, b) == (spec_is_active(prev, b) && b != caller@) by {
                        if spec_is_active(cur, b) {
                            let j = choose|j: int| 0 <= j < cur.len() && cur[j]@ == b;
                            if j == i {
                                assert(i < n - 1);
                                assert(prev[n - 1]@ == b);
                                assert(prev[n - 1]@ != prev[i as int]@);
                            } else {
                                assert(prev[j]@ == b);
                                assert(prev[j]@ != prev[i as int]@);
                            }
                            assert(spec_is_active(prev, b));
                            assert(b != caller@);
                        }
                        if spec_is_active(prev, b) && b != caller@ {
                            let k = choose|k: int| 0 <= k < prev.len() && prev[k]@ == b;
                            assert(k != i);
                            if k == n - 1 {
                                assert(i < n - 1);
                                assert(cur[i as int]@ == b);
                            } else {
                                assert(cur[k]@ == b);
                            }
                        }
                    }
                }
                return;
            }
            i = i + 1;
        }
        proof {
            assert(!spec_is_active(prev, caller@));
        }
    }

    /// Reads an account's airdrop record.
    pub fn state_of(&self, caller: &Account) -> (r: Option<AirdropState>)
        requires
            self.wf(),
        ensures
            r == spec_state_of(self.accounts@, caller@),
    {
        let mut i: usize = 0;
        while i < self.accounts.len()
            invariant
                self.wf(),
                i <= self.accounts@.len(),
                forall|j: int| 0 <= j < i ==> self.accounts@[j].account@ != caller@,
            decreases self.accounts@.len() - i,
        {
            if self.accounts[i].account.same(caller) {
                proof {
                    let k = choose|k: int|
                        0 <= k < self.accounts@.len() && self.accounts@[k].account@ == caller@;
                    assert(k == i);
                }
                return Some(self.accounts[i].state);
            }
            i = i + 1;
        }
        assert(!spec_has_account(self.accounts@, caller@));
        None
    }

    /// Records a fresh account.
    pub fn insert_account(&mut self, caller: &Account, st: AirdropState)
        requires
            old(self).wf(),
            !spec_has_account(old(self).accounts@, caller@),
        ensures
            final(self).wf(),
            spec_state_of(final(self).accounts@, caller@) == Some(st),
            forall|b: Seq<u8>|
                b != caller@ ==> #[trigger] spec_state_of(final(self).accounts@, b)
                    == spec_state_of(old(self).accounts@, b),
            final(self).active == old(self).active,
            final(self).codes == old(self).codes,
            final(self).next_code == old(self).next_code,
            final(self).xauth == old(self).xauth,
            final(self).claims == old(self).claims,
            final(self).state == old(self).state,
    {
        let ghost prev = self.accounts@;
        self.accounts.push(AccountEntry { account: caller.duplicate(), state: st });
        proof {
            let cur = self.accounts@;
            assert(cur[prev.len() as int].account@ == caller@);
            let k = choose|k: int| 0 <= k < cur.len() && cur[k].account@ == caller@;
            assert(cur[k].state == st);
            assert forall|b: Seq<u8>| b != caller@ implies #[trigger] spec_state_of(cur, b)
                == spec_state_of(prev, b) by {
                if spec_has_account(cur, b) {
                    let j = choose|j: int| 0 <= j < cur.len() && cur[j].account@ == b;
                    assert(j < prev.len() && prev[j].account@ == b);
                    let j2 = choose|j2: int| 0 <= j2 < prev.len() && prev[j2].account@ == b;
                    assert(cur[j2].account@ == b);
                    assert(j2 == j && spec_state_of(cur, b) == Some(cur[j].state));
                } else {
                    if spec_has_account(prev, b) {
                        let j2 = choose|j2: int|
                            0 <= j2 < prev.len() && prev[j2].account@ == b;
                        assert(cur[j2].account@ == b);
                    }
                }
            }
        }
    }

    /// Replaces an existing account's record.
    pub fn update_account(&mut self, caller: &Account, st: AirdropState)
        requires
            old(self).wf(),
            spec_has_account(old(self).accounts@, caller@),
        ensures
            final(self).wf(),
            spec_state_of(final(self).accounts@, caller@) == Some(st),
            forall|b: Seq<u8>|
                b != caller@ ==> #[trigger] spec_state_of(final(self).accounts@, b)
                    == spec_state_of(old(self).accounts@, b),
            final(self).active == old(self).active,
            final(self).codes == old(self).codes,
            final(self).next_code == old(self).next_code,
            final(self).xauth == old(self).xauth,
            final(self).claims == old(self).claims,
            final(self).state == old(self).state,
    {
        let ghost prev = self.accounts@;
        let mut i: usize = 0;
        while i < self.accounts.len()
            invariant
                old(self).wf(),
                *self == *old(self),
                self.accounts@ == prev,
                i <= self.accounts@.len(),
                spec_has_account(self.accounts@, caller@),
                forall|j: int| 0 <= j < i ==> self.accounts@[j].account@ != caller@,
            decreases self.accounts@.len() - i,
        {
            if self.accounts[i].account.same(caller) {
                let e = AccountEntry { account: caller.duplicate(), state: st };
                self.accounts[i] = e;
                proof {
                    let cur = self.accounts@;
                    assert(cur == prev.update(i as int, e));
                    assert(cur[i as int].account@ == caller@);
                    let k = choose|k: int| 0 <= k < cur.len() && cur[k].account@ == caller@;
                    assert(forall|j: int|
                        0 <= j < cur.len() && j != i ==> cur[j] == prev[j]);
                    assert(k == i);
                    assert(spec_state_of(cur, caller@) == Some(st));
                    assert forall|b: Seq<u8>| b != caller@ implies #[trigger] spec_state_of(
                        cur,
                        b,
                    ) == spec_state_of(prev, b) by {
                        if spec_has_account(cur, b) {
                            let j = choose|j: int| 0 <= j < cur.len() && cur[j].account@ == b;
                            assert(j != i && prev[j].account@ == b);
                            let j2 = choose|j2: int|
                                0 <= j2 < prev.len() && prev[j2].account@ == b;
                            assert(j2 != i && cur[j2].account@ == b);
                            assert(j2 == j);
                        } else {
                            if spec_has_account(prev, b) {
                                let j2 = choose|j2: int|
                                    0 <= j2 < prev.len() && prev[j2].account@ == b;
                                assert(j2 != i && cur[j2].account@ == b);
                            }
                        }
                    }
                }
                return;
            }
            i = i + 1;
        }
        proof {
            assert(!spec_has_account(self.accounts@, caller@));
        }
    }

    /// Whether a referral code resolves to some account.
    pub fn code_exists(&self, code: u32) -> (r: bool)
        requires
            self.wf(),
        ensures
            r == spec_code_exists(self.codes@, code),
    {
        let mut i: usize = 0;
        while i < self.codes.len()
            invariant
                i <= self.codes@.len(),
                forall|j: int| 0 <= j < i ==> self.codes@[j].code != code,
            decreases self.codes@.len() - i,
        {
            if self.codes[i].code == code {
                return true;
            }
            i = i + 1;
        }
        false
    }

    /// Mints a fresh, non-zero lucky code for `caller`.
    pub fn new_code(&mut self, caller: &Account) -> (r: u32)
        requires
            old(self).wf(),
            old(self).next_code < u32::MAX,
        ensures
            final(self).wf(),
            r == old(self).next_code,
            r != 0,
            spec_code_exists(final(self).codes@, r),
            final(self).next_code == old(self).next_code + 1,
            final(self).accounts == old(self).accounts,
            final(self).active == old(self).active,
            final(self).xauth == old(self).xauth,
            final(self).claims == old(self).claims,
            final(self).state == old(self).state,
    {
        let code = self.next_code;
        self.codes.push(CodeEntry { code, account: caller.duplicate() });
        self.next_code = self.next_code + 1;
        proof {
            assert(self.codes@.last().code == code);
        }
        code
    }

    /// Binds an external identity to `caller` once; false when already bound.
    pub fn xauth_try_set(&mut self, id: &Vec<u8>, caller: &Account) -> (r: bool)
        requires
            old(self).wf(),
        ensures
            final(self).wf(),
            r == !spec_xauth_bound(old(self).xauth@, id@),
            spec_xauth_bound(final(self).xauth@, id@),
            final(self).accounts == old(self).accounts,
            final(self).active == old(self).active,
            final(self).codes == old(self).codes,
            final(self).next_code == old(self).next_code,
            final(self).claims == old(self).claims,
            final(self).state == old(self).state,
            !r ==> final(self).xauth == old(self).xauth,
    {
        let mut i: usize = 0;
        while i < self.xauth.len()
            invariant
                i <= self.xauth@.len(),
                *self == *old(self),
                old(self).wf(),
                forall|j: int| 0 <= j < i ==> self.xauth@[j].id@ != id@,
            decreases self.xauth@.len() - i,
        {
            if crate::account::bytes_eq(self.xauth[i].id.as_slice(), id.as_slice()) {
                return false;
            }
            i = i + 1;
        }
        let mut id2: Vec<u8> = Vec::new();
        let mut k: usize = 0;
        while k < id.len()
            invariant
                k <= id@.len(),
                id2@ == id@.take(k as int),
            decreases id@.len() - k,
        {
            id2.push(id[k]);
            assert(id2@ =~= id@.take(k + 1));
            k = k + 1;
        }
        assert(id2@ =~= id@);
        self.xauth.push(XAuthEntry { id: id2, account: caller.duplicate() });
        proof {
            assert(self.xauth@.last().id@ == id@);
        }
        true
    }

    /// Redeems `p` for `caller`: at most once per account, and at most
    /// `p.4` accounts in all. Returns the credited amount in minor units.
    pub fn claim_prize(&mut self, caller: &Account, p: Prize) -> (r: Result<u64, ()>)
        requires
            old(self).wf(),
        ensures
            final(self).wf(),
            r is Ok <==> (!spec_claimed_by(old(self).claims@, p, caller@) && spec_claim_count(
                old(self).claims@,
                p,
            ) < p.4),
            r matches Ok(amt) ==> amt == p.3 as u64 * crate::TOKEN_1,
            r is Ok ==> final(self).claims@ == old(self).claims@.push(
                final(self).claims@.last(),
            ) && final(self).claims@.last().prize == p && final(self).claims@.last().account@
                == caller@,
            r is Err ==> final(self).claims == old(self).claims,
            r is Ok ==> spec_claimed_by(final(self).claims@, p, caller@),
            final(self).accounts == old(self).accounts,
            final(self).active == old(self).active,
            final(self).codes == old(self).codes,
            final(self).next_code == old(self).next_code,
            final(self).xauth == old(self).xauth,
            final(self).state == old(self).state,
    {
        let ghost prev = self.claims@;
        let mut count: u64 = 0;
        let mut i: usize = 0;
        while i < self.claims.len()
            invariant
                i <= self.claims@.len(),
                *self == *old(self),
                old(self).wf(),
                self.claims@ == prev,
                count == spec_claim_count(self.claims@.take(i as int), p),
                count <= i,
                forall|j: int|
                    0 <= j < i ==> !(self.claims@[j].prize == p && self.claims@[j].account@
                        == caller@),
            decreases self.claims@.len() - i,
        {
            let c = &self.claims[i];
            let same_prize = c.prize.0 == p.0 && c.prize.1 == p.1 && c.prize.2 == p.2 && c.prize.3
                == p.3 && c.prize.4 == p.4;
            if same_prize && c.account.same(caller) {
                assert(spec_claimed_by(self.claims@, p, caller@));
                return Err(());
            }
            proof {
                assert(self.claims@.take(i + 1).drop_last() =~= self.claims@.take(i as int));
                assert(self.claims@.take(i + 1).last() == self.claims@[i as int]);
            }
            if same_prize {
                count = count + 1;
            }
            i = i + 1;
        }
        proof {
            assert(self.claims@.take(self.claims@.len() as int) =~= self.claims@);
            assert(!spec_claimed_by(self.claims@, p, caller@));
        }
        if count >= p.4 as u64 {
            return Err(());
        }
        self.claims.push(PrizeClaim { prize: p, account: caller.duplicate() });
        proof {
            let cur = self.claims@;
            assert(cur.last().prize == p && cur.last().account@ == caller@);
            assert(cur =~= prev.push(cur.last()));
        }
        Ok(p.3 as u64 * crate::TOKEN_1)
    }
}

/// A recent-activity window after prepending one record: most recent first,
/// length-capped, older entries silently dropped.
pub open spec fn spec_push_front_capped<T>(s: Seq<T>, x: T, cap: int) -> Seq<T> {
    let t = seq![x] + s;
    if t.len() > cap {
        t.take(cap)
    } else {
        t
    }
}

/// The window after a prepend: the new record first, then the old records,
/// cut to the cap.
pub proof fn lemma_push_front_capped_parts<T>(s: Seq<T>, x: T, cap: int)
    requires
        cap >= 1,
    ensures
        ({
            let t = spec_push_front_capped(s, x, cap);
            &&& t.len() as int == (if s.len() + 1 > cap {
                cap
            } else {
                s.len() as int + 1
            })
            &&& t[0] == x
            &&& t.skip(1) == s.take(t.len() - 1)
        }),
{
    let t = spec_push_front_capped(s, x, cap);
    assert(t.skip(1) =~= s.take(t.len() - 1));
}

impl LuckyPool {
    /// Prepends a record to the recent-airdrop window, keeping at most 10.
    pub fn push_airdrop_log(&mut self, log: AirdropLog)
        requires
            old(self).wf(),
        ensures
            final(self).wf(),
            final(self).state.latest_airdrop_logs@ == spec_push_front_capped(
                old(self).state.latest_airdrop_logs@,
                log,
                10,
            ),
            final(self).accounts == old(self).accounts,
            final(self).active == old(self).active,
            final(self).codes == old(self).codes,
            final(self).next_code == old(self).next_code,
            final(self).xauth == old(self).xauth,
            final(self).claims == old(self).claims,
            final(self).state.airdrop_amount == old(self).state.airdrop_amount,
            final(self).state.airdrop_balance == old(self).state.airdrop_balance,
            final(self).state.total_airdrop == old(self).state.total_airdrop,
            final(self).state.total_airdrop_count == old(self).state.total_airdrop_count,
            final(self).state.total_prize == old(self).state.total_prize,
            final(self).state.total_prize_count == old(self).state.total_prize_count,
            final(self).state.total_luckydraw == old(self).state.total_luckydraw,
            final(self).state.total_luckydraw_icp == old(self).state.total_luckydraw_icp,
            final(self).state.total_luckydraw_count == old(self).state.total_luckydraw_count,
            final(self).state.latest_luckydraw_logs == old(self).state.latest_luckydraw_logs,
            final(self).state.luckiest_luckydraw_logs == old(self).state.luckiest_luckydraw_logs,
    {
        let ghost prev = self.state.latest_airdrop_logs@;
        self.state.latest_airdrop_logs.insert(0, log);
        assert(self.state.latest_airdrop_logs@ =~= seq![self.state.latest_airdrop_logs@[0]]
            + prev);
        if self.state.latest_airdrop_logs.len() > 10 {
            self.state.latest_airdrop_logs.truncate(10);
        }
    }

    /// Prepends a record to the recent-draw window, keeping at most 10.
    pub fn push_luckydraw_log(&mut self, log: LuckyDrawLog)
        requires
            old(self).wf(),
        ensures
            final(self).wf(),
            final(self).state.latest_luckydraw_logs@ == spec_push_front_capped(
                old(self).state.latest_luckydraw_logs@,
                log,
                10,
            ),
            final(self).accounts == old(self).accounts,
            final(self).active == old(self).active,
            final(self).codes == old(self).codes,
            final(self).next_code == old(self).next_code,
            final(self).xauth == old(self).xauth,
            final(self).claims == old(self).claims,
            final(self).state.airdrop_amount == old(self).state.airdrop_amount,
            final(self).state.airdrop_balance == old(self).state.airdrop_balance,
            final(self).state.total_airdrop == old(self).state.total_airdrop,
            final(self).state.total_airdrop_count == old(self).state.total_airdrop_count,
            final(self).state.total_prize == old(self).state.total_prize,
            final(self).state.total_prize_count == old(self).state.total_prize_count,
            final(self).state.total_luckydraw == old(self).state.total_luckydraw,
            final(self).state.total_luckydraw_icp == old(self).state.total_luckydraw_icp,
            final(self).state.total_luckydraw_count == old(self).state.total_luckydraw_count,
            final(self).state.latest_airdrop_logs == old(self).state.latest_airdrop_logs,
            final(self).state.luckiest_luckydraw_logs == old(self).state.luckiest_luckydraw_logs,
    {
        let ghost prev = self.state.latest_luckydraw_logs@;
        self.state.latest_luckydraw_logs.insert(0, log);
        assert(self.state.latest_luckydraw_logs@ =~= seq![self.state.latest_luckydraw_logs@[0]]
            + prev);
        if self.state.latest_luckydraw_logs.len() > 10 {
            self.state.latest_luckydraw_logs.truncate(10);
        }
    }

    /// Prepends a record to the luckiest-draw window, keeping at most 3.
    pub fn push_luckiest_log(&mut self, log: LuckyDrawLog)
        requires
            old(self).wf(),
        ensures
            final(self).wf(),
            final(self).state.luckiest_luckydraw_logs@ == spec_push_front_capped(
                old(self).state.luckiest_luckydraw_logs@,
                log,
                3,
            ),
            final(self).accounts == old(self).accounts,
            final(self).active == old(self).active,
            final(self).codes == old(self).codes,
            final(self).next_code == old(self).next_code,
            final(self).xauth == old(self).xauth,
            final(self).claims == old(self).claims,
            final(self).state.airdrop_amount == old(self).state.airdrop_amount,
            final(self).state.airdrop_balance == old(self).state.airdrop_balance,
            final(self).state.total_airdrop == old(self).state.total_airdrop,
            final(self).state.total_airdrop_count == old(self).state.total_airdrop_count,
            final(self).state.total_prize == old(self).state.total_prize,
            final(self).state.total_prize_count == old(self).state.total_prize_count,
            final(self).state.total_luckydraw == old(self).state.total_luckydraw,
            final(self).state.total_luckydraw_icp == old(self).state.total_luckydraw_icp,
            final(self).state.total_luckydraw_count == old(self).state.total_luckydraw_count,
            final(self).state.latest_airdrop_logs == old(self).state.latest_airdrop_logs,
            final(self).state.latest_luckydraw_logs == old(self).state.latest_luckydraw_logs,
    {
        let ghost prev = self.state.luckiest_luckydraw_logs@;
        self.state.luckiest_luckydraw_logs.insert(0, log);
        assert(self.state.luckiest_luckydraw_logs@ =~= seq![self.state.luckiest_luckydraw_logs@[0]]
            + prev);
        if self.state.luckiest_luckydraw_logs.len() > 3 {
            self.state.luckiest_luckydraw_logs.truncate(3);
        }
    }
}

impl Account {
    /// A copy of this identity for storing in the pool.
    pub fn duplicate(&self) -> (r: Account)
        ensures
            r@ == self@,
    {
        let mut bytes: Vec<u8> = Vec::new();
        let mut k: usize = 0;
        while k < self.bytes.len()
            invariant
                k <= self.bytes@.len(),
                bytes@ == self.bytes@.take(k as int),
            decreases self.bytes@.len() - k,
        {
            bytes.push(self.bytes[k]);
            assert(bytes@ =~= self.bytes@.take(k + 1));
            k = k + 1;
        }
        assert(bytes@ =~= self.bytes@);
        Account { bytes }
    }
}

} // verus!
