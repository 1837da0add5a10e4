//! The decisions around provisioning and topping up workers: which ledger
//! payments are accepted, and the amounts burned and forwarded as cycles.
use vstd::prelude::*;
use crate::ledger::Identity;

verus! {

/// Smallest payment, in token units, that pays for a new worker.
pub const MINER_CREATION_AMOUNT: u64 = 1_500_000_000;

/// Share of a worker's creation payment that is burned.
pub const CREATION_BURN_AMOUNT: u64 = 600_000_000;

/// Cycles bought by one token unit, as the fraction `CYCLES_NUM / CYCLES_DEN`
/// (a token is 10^8 units at 0.6 dollars, a dollar buys 10^12 / 1.35 cycles).
pub const CYCLES_NUM: u128 = 40_000;

/// See `CYCLES_NUM`.
pub const CYCLES_DEN: u128 = 9;

/// A transfer read from the external ledger.
#[derive(Clone, Debug)]
pub struct LedgerTransfer {
    pub from: Identity,
    pub to: Identity,
    pub amount: u64,
}

/// Why a payment was not accepted.
#[derive(Clone, Copy, Debug, PartialEq, Eq, Structural)]
pub enum PaymentError {
    /// The ledger entry was already used for a worker.
    AlreadyProcessed,
    /// The ledger entry is not a transfer.
    ExpectedTransfer,
    /// The transfer was not made by the caller.
    NotFromCaller,
    /// The transfer does not cover a new worker.
    AmountTooLow,
    /// The transfer was not made to the system.
    NotToSystem,
}

/// Outcome of checking a payment for a new worker.
pub open spec fn creation_verdict(
    transfer: Option<LedgerTransfer>,
    caller: Seq<u8>,
    system: Seq<u8>,
) -> Result<(), PaymentError> {
    match transfer {
        None => Err(PaymentError::ExpectedTransfer),
        Some(t) => if t.from@ != caller {
            Err(PaymentError::NotFromCaller)
        } else if t.amount < MINER_CREATION_AMOUNT {
            Err(PaymentError::AmountTooLow)
        } else if t.to@ != system {
            Err(PaymentError::NotToSystem)
        } else {
            Ok(())
        },
    }
}

/// Checks that a ledger entry pays, from `caller` to `system`, for a new worker.
pub fn check_creation_payment(
    transfer: &Option<LedgerTransfer>,
    caller: &Identity,
    system: &Identity,
) -> (r: Result<(), PaymentError>)
    ensures
        r == creation_verdict(*transfer, caller@, system@),
{
    match transfer {
        None => Err(PaymentError::ExpectedTransfer),
        Some(t) => {
            if !t.from.same(caller) {
                Err(PaymentError::NotFromCaller)
            } else if t.amount < MINER_CREATION_AMOUNT {
                Err(PaymentError::AmountTooLow)
            } else if !t.to.same(system) {
                Err(PaymentError::NotToSystem)
            } else {
                Ok(())
            }
        },
    }
}

/// Outcome of checking a payment that tops up a worker.
pub open spec fn topup_verdict(
    transfer: Option<LedgerTransfer>,
    caller: Seq<u8>,
    system: Seq<u8>,
) -> Result<(), PaymentError> {
    match transfer {
        None => Err(PaymentError::ExpectedTransfer),
        Some(t) => if t.from@ != caller {
            Err(PaymentError::NotFromCaller)
        } else if t.to@ != system {
            Err(PaymentError::NotToSystem)
        } else {
            Ok(())
        },
    }
}

/// Checks that a ledger entry is a transfer from `caller` to `system`.
pub fn check_topup_payment(
    transfer: &Option<LedgerTransfer>,
    caller: &Identity,
    system: &Identity,
) -> (r: Result<(), PaymentError>)
    ensures
        r == topup_verdict(*transfer, caller@, system@),
{
    match transfer {
        None => Err(PaymentError::ExpectedTransfer),
        Some(t) => {
            if !t.from.same(caller) {
                Err(PaymentError::NotFromCaller)
            } else if !t.to.same(system) {
                Err(PaymentError::NotToSystem)
            } else {
                Ok(())
            }
        },
    }
}

/// Cycles bought by `t` token units, rounded down and capped at `u64::MAX`.
pub open spec fn cycles_for(t: u64) -> int {
    let c = (t as int) * (CYCLES_NUM as int) / (CYCLES_DEN as int);
    if c > u64::MAX {
        u64::MAX as int
    } else {
        c
    }
}

/// Cycles bought by `token_amount` token units.
pub fn tokens_to_cycles(token_amount: u64) -> (r: u64)
    ensures
        r == cycles_for(token_amount),
{
    let c = token_amount as u128 * CYCLES_NUM / CYCLES_DEN;
    if c > u64::MAX as u128 {
        u64::MAX
    } else {
        c as u64
    }
}

/// Tokens burned out of a top-up of `amount`: a tenth, rounded down.
pub fn topup_burn_amount(amount: u64) -> (r: u64)
    ensures
        r == amount * 10 / 100,
{
    amount / 10
}

/// Cycles forwarded to the worker for a top-up of `amount` tokens: 80% of what
/// the tokens buy, rounded down.
pub fn topup_cycles(amount: u64) -> (r: u64)
    ensures
        r == cycles_for(amount) * 80 / 100,
{
    let c = tokens_to_cycles(amount);
    (c as u128 * 80 / 100) as u64
}

/// Ledger entries already used to create or top up a worker.
pub struct ProcessedPayments {
    indices: Vec<u64>,
}

impl View for ProcessedPayments {
    type V = Set<u64>;

    closed spec fn view(&self) -> Set<u64> {
        Set::new(|x: u64| self.indices@.contains(x))
    }
}

impl ProcessedPayments {
    pub fn new() -> (r: ProcessedPayments)
        ensures
            r@ == Set::<u64>::empty(),
    {
        let r = ProcessedPayments { indices: Vec::new() };
        assert(r@ =~= Set::<u64>::empty());
        r
    }

    /// Whether ledger entry `index` was already used.
    pub fn contains(&self, index: u64) -> (r: bool)
        ensures
            r == self@.contains(index),
    {
        let mut i: usize = 0;
        while i < self.indices.len()
            invariant
                i <= self.indices@.len(),
                forall|j: int| 0 <= j < i ==> self.indices@[j] != index,
            decreases self.indices@.len() - i,
        {
            if self.indices[i] == index {
                assert(self.indices@.contains(index));
                return true;
            }
            i = i + 1;
        }
        false
    }

    /// The used ledger entries, in the order they were recorded.
    pub fn indices(&self) -> (r: Vec<u64>)
        ensures
            forall|x: u64| r@.contains(x) <==> self@.contains(x),
    {
        self.indices.clone()
    }

    /// Records ledger entry `index` as used.
    pub fn insert(&mut self, index: u64)
        ensures
            final(self)@ == old(self)@.insert(index),
    {
        let ghost s0 = self.indices@;
        self.indices.push(index);
        proof {
            assert(self.indices@ == s0.push(index));
            assert forall|x: u64| #[trigger] self@.contains(x) == old(self)@.insert(index).contains(
                x,
            ) by {
                if self.indices@.contains(x) && x != index {
                    let j = choose|j: int| 0 <= j < self.indices@.len() && self.indices@[j] == x;
                    assert(s0[j] == x);
                }
                if s0.contains(x) {
                    let j = choose|j: int| 0 <= j < s0.len() && s0[j] == x;
                    assert(self.indices@[j] == x);
                }
                if x == index {
                    assert(self.indices@[s0.len() as int] == x);
                }
            }
            assert(self@ =~= old(self)@.insert(index));
        }
    }
}

} // verus!
