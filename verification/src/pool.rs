//! The pool ledger and its operations.
//!
//! `LendingPool` owns all pool state: per-participant balances, the
//! aggregate supply, the yield rate, and the lifecycle state. The free
//! functions `deposit_update`, `withdraw_update`, `repay_update` and
//! `rate_for_risk` carry the arithmetic of each operation over plain
//! values, so a caller that keeps the state elsewhere (a contract host's
//! key-value store, say) can route every decision through verified code.
//!
//! Authorization is a caller obligation: the ledger assumes the caller
//! owns the identity it names, and an unauthorized call must be refused
//! before the ledger is reached.

use vstd::prelude::*;

use crate::model::{
    balance_in, balances_nonneg, keys_unique, lemma_balance_absent, lemma_balance_at_index,
    lemma_balance_le_sum, lemma_balance_update, lemma_keys_unique_push, lemma_keys_unique_update,
    lemma_nonneg_push, lemma_nonneg_update, lemma_push, lemma_sum_update, sum_balances,
};

verus! {

/// The tranche a depositor elects. It records intent only: the ledger
/// commingles both tranches in a single balance per participant.
#[derive(Clone, Copy, Debug, PartialEq, Eq, Structural)]
pub enum Tranche {
    Senior,
    Junior,
}

/// The lifecycle of the pool: `Active` from initialization until the
/// borrower repays, `Repaid` from then on. `Repaid` is terminal.
#[derive(Clone, Copy, Debug, PartialEq, Eq, Structural)]
pub enum PoolState {
    Active,
    Repaid,
}

/// Why an operation was refused. A refused operation leaves the ledger
/// entirely untouched.
#[derive(Clone, Copy, Debug, PartialEq, Eq, Structural)]
pub enum PoolError {
    /// A withdrawal asked for more than the participant holds.
    InsufficientBalance,
    /// The exact result would exceed the largest representable amount.
    ArithmeticOverflow,
    /// The exact result would fall below the smallest representable amount.
    ArithmeticUnderflow,
}

/// The base yield rate of the pool, in basis points.
pub const BASE_RATE_BPS: u32 = 500;

/// Basis points of yield added per point of risk score.
pub const RISK_PREMIUM_BPS: u32 = 10;

/// What a deposit of `amount` returns, given the participant's balance
/// and the aggregate supply: the new balance and the new supply, or an
/// overflow error where either exact sum exceeds the representable range.
pub open spec fn deposit_outcome(balance: int, total: int, amount: int) -> Result<
    (i128, i128),
    PoolError,
> {
    if balance + amount > i128::MAX || total + amount > i128::MAX {
        Err(PoolError::ArithmeticOverflow)
    } else {
        Ok(((balance + amount) as i128, (total + amount) as i128))
    }
}

/// What a withdrawal of `amount` returns, given the participant's balance
/// and the aggregate supply: refused where `amount` exceeds the balance,
/// refused where an exact difference leaves the representable range, and
/// otherwise the new balance and the new supply.
pub open spec fn withdraw_outcome(balance: int, total: int, amount: int) -> Result<
    (i128, i128),
    PoolError,
> {
    if amount > balance {
        Err(PoolError::InsufficientBalance)
    } else if balance - amount > i128::MAX || total - amount > i128::MAX {
        Err(PoolError::ArithmeticOverflow)
    } else if total - amount < i128::MIN {
        Err(PoolError::ArithmeticUnderflow)
    } else {
        Ok(((balance - amount) as i128, (total - amount) as i128))
    }
}

/// What a repayment of `amount` returns, given the aggregate supply: the
/// new supply, or an error where the exact sum leaves the representable
/// range.
pub open spec fn repay_outcome(total: int, amount: int) -> Result<i128, PoolError> {
    if total + amount > i128::MAX {
        Err(PoolError::ArithmeticOverflow)
    } else if total + amount < i128::MIN {
        Err(PoolError::ArithmeticUnderflow)
    } else {
        Ok((total + amount) as i128)
    }
}

/// The arithmetic of a deposit over plain values. Nothing is committed
/// here: a caller writes back both results together, or neither.
pub fn deposit_update(balance: i128, total: i128, amount: i128) -> (r: Result<
    (i128, i128),
    PoolError,
>)
    requires
        0 <= balance,
        0 <= amount,
    ensures
        r == deposit_outcome(balance as int, total as int, amount as int),
{
    let new_balance = match balance.checked_add(amount) {
        Some(b) => b,
        None => {
            return Err(PoolError::ArithmeticOverflow);
        },
    };
    let new_total = match total.checked_add(amount) {
        Some(t) => t,
        None => {
            return Err(PoolError::ArithmeticOverflow);
        },
    };
    Ok((new_balance, new_total))
}

/// The arithmetic of a withdrawal over plain values. Nothing is committed
/// here: a caller writes back both results together, or neither.
pub fn withdraw_update(balance: i128, total: i128, amount: i128) -> (r: Result<
    (i128, i128),
    PoolError,
>)
    requires
        0 <= balance,
    ensures
        r == withdraw_outcome(balance as int, total as int, amount as int),
{
    if amount > balance {
        return Err(PoolError::InsufficientBalance);
    }
    let new_balance = match balance.checked_sub(amount) {
        Some(b) => b,
        None => {
            return Err(PoolError::ArithmeticOverflow);
        },
    };
    let new_total = match total.checked_sub(amount) {
        Some(t) => t,
        None => {
            if amount < 0 {
                return Err(PoolError::ArithmeticOverflow);
            } else {
                return Err(PoolError::ArithmeticUnderflow);
            }
        },
    };
    Ok((new_balance, new_total))
}

/// The arithmetic of a repayment over plain values.
pub fn repay_update(total: i128, amount: i128) -> (r: Result<i128, PoolError>)
    ensures
        r == repay_outcome(total as int, amount as int),
{
    match total.checked_add(amount) {
        Some(t) => Ok(t),
        None => {
            if amount > 0 {
                Err(PoolError::ArithmeticOverflow)
            } else {
                Err(PoolError::ArithmeticUnderflow)
            }
        },
    }
}

/// The yield rate assigned to a risk score: a floor of `BASE_RATE_BPS`,
/// rising by `RISK_PREMIUM_BPS` per point of score. Scores above 100
/// extrapolate linearly; only scores whose rate exceeds the representable
/// range are excluded.
pub fn rate_for_risk(risk_score: u32) -> (r: u32)
    requires
        BASE_RATE_BPS + risk_score * RISK_PREMIUM_BPS <= u32::MAX,
    ensures
        r == BASE_RATE_BPS + risk_score * RISK_PREMIUM_BPS,
{
    BASE_RATE_BPS + risk_score * RISK_PREMIUM_BPS
}

/// Position of the entry carrying `participant`, if the ledger has one.
fn find_index(entries: &Vec<(u64, i128)>, participant: u64) -> (r: Option<usize>)
    ensures
        match r {
            Some(i) => i < entries@.len() && entries@[i as int].0 == participant,
            None => forall|k: int| 0 <= k < entries@.len() ==> entries@[k].0 != participant,
        },
{
    let mut j: usize = 0;
    while j < entries.len()
        invariant
            j <= entries@.len(),
            forall|k: int| 0 <= k < j ==> entries@[k].0 != participant,
        decreases entries@.len() - j,
    {
        if entries[j].0 == participant {
            return Some(j);
        }
        j += 1;
    }
    None
}

/// The pool ledger: the single owner of all pool state.
///
/// `balances` holds one entry per participant. `repaid` tracks, in ghost
/// state, how much repayment has been folded into the aggregate supply,
/// so that the ledger invariant can separate depositor money from
/// repayment money.
pub struct LendingPool {
    pub rate: u32,
    pub state: PoolState,
    pub total_supply: i128,
    pub balances: Vec<(u64, i128)>,
    pub repaid: Ghost<int>,
}

impl LendingPool {
    /// Well-formedness of the ledger: identities are unique, no balance
    /// is negative, and the aggregate supply is exactly the sum of all
    /// balances plus what has been repaid into the pool.
    pub open spec fn wf(self) -> bool {
        &&& keys_unique(self.balances@)
        &&& balances_nonneg(self.balances@)
        &&& self.total_supply == sum_balances(self.balances@) + self.repaid@
    }

    /// The balance the ledger records for `participant`.
    pub open spec fn spec_balance_of(self, participant: u64) -> int {
        balance_in(self.balances@, participant)
    }

    /// A fresh ledger: nothing deposited, nothing repaid, rate zero
    /// (a missing rate reads as zero), pool active.
    pub fn new() -> (p: LendingPool)
        ensures
            p.wf(),
            p.rate == 0,
            p.state == PoolState::Active,
            p.total_supply == 0,
            p.repaid@ == 0,
            forall|w: u64| p.spec_balance_of(w) == 0,
    {
        let p = LendingPool {
            rate: 0,
            state: PoolState::Active,
            total_supply: 0,
            balances: Vec::new(),
            repaid: Ghost(0int),
        };
        proof {
            assert forall|w: u64| p.spec_balance_of(w) == 0 by {
                assert(p.balances@.len() == 0);
            }
        }
        p
    }

    /// Start (or restart) the pool at the given rate, in basis points.
    /// Restarting a funded pool is permitted and leaves balances and the
    /// aggregate supply alone.
    pub fn init(&mut self, initial_rate: u32)
        ensures
            final(self).rate == initial_rate,
            final(self).state == PoolState::Active,
            final(self).total_supply == old(self).total_supply,
            final(self).balances@ == old(self).balances@,
            final(self).repaid@ == old(self).repaid@,
            forall|w: u64| final(self).spec_balance_of(w) == old(self).spec_balance_of(w),
            old(self).wf() ==> final(self).wf(),
    {
        self.rate = initial_rate;
        self.state = PoolState::Active;
    }

    /// Credit `amount` to `participant` and to the aggregate supply —
    /// both, or neither on error. The tranche records the depositor's
    /// election only; it does not partition the ledger.
    #[allow(unused_variables)]
    pub fn deposit(&mut self, participant: u64, amount: i128, tranche: Tranche) -> (r: Result<
        (),
        PoolError,
    >)
        requires
            old(self).wf(),
            0 <= amount,
        ensures
            final(self).wf(),
            final(self).rate == old(self).rate,
            final(self).state == old(self).state,
            final(self).repaid@ == old(self).repaid@,
            r is Ok <==> (old(self).spec_balance_of(participant) + amount <= i128::MAX
                && old(self).total_supply + amount <= i128::MAX),
            match r {
                Ok(_) => {
                    &&& final(self).spec_balance_of(participant) == old(self).spec_balance_of(
                        participant,
                    ) + amount
                    &&& forall|w: u64|
                        w != participant ==> final(self).spec_balance_of(w) == old(
                            self,
                        ).spec_balance_of(w)
                    &&& final(self).total_supply == old(self).total_supply + amount
                },
                Err(e) => {
                    &&& *final(self) == *old(self)
                    &&& e == PoolError::ArithmeticOverflow
                },
            },
    {
        let ghost s0 = self.balances@;
        match find_index(&self.balances, participant) {
            Some(i) => {
                let balance = self.balances[i].1;
                proof {
                    lemma_balance_at_index(s0, i as int);
                }
                match deposit_update(balance, self.total_supply, amount) {
                    Ok((new_balance, new_total)) => {
                        proof {
                            lemma_sum_update(s0, i as int, new_balance);
                            lemma_keys_unique_update(s0, i as int, new_balance);
                            lemma_nonneg_update(s0, i as int, new_balance);
                        }
                        self.balances[i] = (participant, new_balance);
                        self.total_supply = new_total;
                        proof {
                            assert(self.balances@ == s0.update(i as int, (participant, new_balance)));
                            lemma_balance_update(s0, i as int, new_balance, participant);
                            assert forall|w: u64|
                                w != participant implies balance_in(self.balances@, w) == balance_in(
                                s0,
                                w,
                            ) by {
                                lemma_balance_update(s0, i as int, new_balance, w);
                            }
                        }
                        Ok(())
                    },
                    Err(e) => Err(e),
                }
            },
            None => {
                proof {
                    lemma_balance_absent(s0, participant);
                }
                match deposit_update(0, self.total_supply, amount) {
                    Ok((new_balance, new_total)) => {
                        proof {
                            lemma_push(s0, (participant, new_balance));
                            lemma_keys_unique_push(s0, (participant, new_balance));
                            lemma_nonneg_push(s0, (participant, new_balance));
                        }
                        self.balances.push((participant, new_balance));
                        self.total_supply = new_total;
                        Ok(())
                    },
                    Err(e) => Err(e),
                }
            },
        }
    }

    /// Debit `amount` from `participant` and from the aggregate supply —
    /// both, or neither on error. Refused outright where `amount` exceeds
    /// the held balance.
    pub fn withdraw(&mut self, participant: u64, amount: i128) -> (r: Result<(), PoolError>)
        requires
            old(self).wf(),
        ensures
            final(self).wf(),
            final(self).rate == old(self).rate,
            final(self).state == old(self).state,
            final(self).repaid@ == old(self).repaid@,
            r is Ok <==> withdraw_outcome(
                old(self).spec_balance_of(participant),
                old(self).total_supply as int,
                amount as int,
            ) is Ok,
            0 <= amount <= old(self).spec_balance_of(participant) && old(self).repaid@ >= 0
                ==> r is Ok,
            match r {
                Ok(_) => {
                    &&& final(self).spec_balance_of(participant) == old(self).spec_balance_of(
                        participant,
                    ) - amount
                    &&& forall|w: u64|
                        w != participant ==> final(self).spec_balance_of(w) == old(
                            self,
                        ).spec_balance_of(w)
                    &&& final(self).total_supply == old(self).total_supply - amount
                },
                Err(e) => {
                    &&& *final(self) == *old(self)
                    &&& Err::<(i128, i128), PoolError>(e) == withdraw_outcome(
                        old(self).spec_balance_of(participant),
                        old(self).total_supply as int,
                        amount as int,
                    )
                },
            },
    {
        proof {
            lemma_balance_le_sum(self.balances@, participant);
        }
        let ghost s0 = self.balances@;
        match find_index(&self.balances, participant) {
            Some(i) => {
                let balance = self.balances[i].1;
                proof {
                    lemma_balance_at_index(s0, i as int);
                }
                match withdraw_update(balance, self.total_supply, amount) {
                    Ok((new_balance, new_total)) => {
                        proof {
                            lemma_sum_update(s0, i as int, new_balance);
                            lemma_keys_unique_update(s0, i as int, new_balance);
                            lemma_nonneg_update(s0, i as int, new_balance);
                        }
                        self.balances[i] = (participant, new_balance);
                        self.total_supply = new_total;
                        proof {
                            assert(self.balances@ == s0.update(i as int, (participant, new_balance)));
                            lemma_balance_update(s0, i as int, new_balance, participant);
                            assert forall|w: u64|
                                w != participant implies balance_in(self.balances@, w) == balance_in(
                                s0,
                                w,
                            ) by {
                                lemma_balance_update(s0, i as int, new_balance, w);
                            }
                        }
                        Ok(())
                    },
                    Err(e) => Err(e),
                }
            },
            None => {
                proof {
                    lemma_balance_absent(s0, participant);
                }
                match withdraw_update(0, self.total_supply, amount) {
                    Ok((new_balance, new_total)) => {
                        proof {
                            lemma_push(s0, (participant, new_balance));
                            lemma_keys_unique_push(s0, (participant, new_balance));
                            lemma_nonneg_push(s0, (participant, new_balance));
                        }
                        self.balances.push((participant, new_balance));
                        self.total_supply = new_total;
                        Ok(())
                    },
                    Err(e) => Err(e),
                }
            },
        }
    }

    /// Overwrite the yield rate from a risk score, whatever the lifecycle
    /// state. Any caller may do this; no authorization is modeled.
    pub fn set_rate(&mut self, risk_score: u32)
        requires
            BASE_RATE_BPS + risk_score * RISK_PREMIUM_BPS <= u32::MAX,
        ensures
            final(self).rate == BASE_RATE_BPS + risk_score * RISK_PREMIUM_BPS,
            final(self).state == old(self).state,
            final(self).total_supply == old(self).total_supply,
            final(self).balances@ == old(self).balances@,
            final(self).repaid@ == old(self).repaid@,
            forall|w: u64| final(self).spec_balance_of(w) == old(self).spec_balance_of(w),
            old(self).wf() ==> final(self).wf(),
    {
        self.rate = rate_for_risk(risk_score);
    }

    /// Fold a repayment into the aggregate supply and move the pool to
    /// `Repaid`. Balances are untouched: repayment money is pooled for
    /// distribution, not attributed to participants. Repaying again adds
    /// again; `Repaid` stays.
    pub fn repay(&mut self, payer: u64, amount: i128) -> (r: Result<(), PoolError>)
        requires
            old(self).wf(),
        ensures
            final(self).wf(),
            final(self).rate == old(self).rate,
            final(self).balances@ == old(self).balances@,
            forall|w: u64| final(self).spec_balance_of(w) == old(self).spec_balance_of(w),
            r is Ok <==> i128::MIN <= old(self).total_supply + amount <= i128::MAX,
            match r {
                Ok(_) => {
                    &&& final(self).total_supply == old(self).total_supply + amount
                    &&& final(self).state == PoolState::Repaid
                    &&& final(self).repaid@ == old(self).repaid@ + amount
                },
                Err(e) => {
                    &&& *final(self) == *old(self)
                    &&& e == (if amount > 0 {
                        PoolError::ArithmeticOverflow
                    } else {
                        PoolError::ArithmeticUnderflow
                    })
                },
            },
    {
        match repay_update(self.total_supply, amount) {
            Ok(new_total) => {
                self.total_supply = new_total;
                self.state = PoolState::Repaid;
                self.repaid = Ghost(self.repaid@ + amount);
                Ok(())
            },
            Err(e) => Err(e),
        }
    }

    /// The current yield rate, in basis points.
    pub fn get_rate(&self) -> (r: u32)
        ensures
            r == self.rate,
    {
        self.rate
    }

    /// The aggregate supply of the pool.
    pub fn get_total_supply(&self) -> (r: i128)
        ensures
            r == self.total_supply,
    {
        self.total_supply
    }

    /// The lifecycle state of the pool.
    pub fn get_state(&self) -> (s: PoolState)
        ensures
            s == self.state,
    {
        self.state
    }

    /// The balance held for `participant`; zero where no deposit was made.
    pub fn balance_of(&self, participant: u64) -> (r: i128)
        requires
            self.wf(),
        ensures
            r == self.spec_balance_of(participant),
    {
        match find_index(&self.balances, participant) {
            Some(i) => {
                proof {
                    lemma_balance_at_index(self.balances@, i as int);
                }
                self.balances[i].1
            },
            None => {
                proof {
                    lemma_balance_absent(self.balances@, participant);
                }
                0
            },
        }
    }
}

/// Law: in every well-formed pool into which no repayment has flowed, the
/// aggregate supply equals the sum of all participant balances. Deposits
/// and withdrawals preserve well-formedness and leave `repaid` at zero,
/// so this holds after every sequence of them.
pub proof fn lemma_supply_is_balance_sum(p: LendingPool)
    requires
        p.wf(),
        p.repaid@ == 0,
    ensures
        p.total_supply == sum_balances(p.balances@),
{
}

/// Law: no well-formed pool records a negative balance for any
/// participant.
pub proof fn lemma_no_negative_balance(p: LendingPool, participant: u64)
    requires
        p.wf(),
    ensures
        p.spec_balance_of(participant) >= 0,
{
    lemma_balance_le_sum(p.balances@, participant);
}

} // verus!
