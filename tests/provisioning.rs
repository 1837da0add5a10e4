use windoge_pow::ledger::Identity;
use windoge_pow::provision::{
    check_creation_payment, check_topup_payment, tokens_to_cycles, topup_burn_amount,
    topup_cycles, LedgerTransfer, PaymentError, ProcessedPayments, MINER_CREATION_AMOUNT,
};

fn id(b: u8) -> Identity {
    Identity::new(vec![b; 4])
}

fn transfer(from: u8, to: u8, amount: u64) -> Option<LedgerTransfer> {
    Some(LedgerTransfer { from: id(from), to: id(to), amount })
}

#[test]
fn cycles_conversion() {
    assert_eq!(tokens_to_cycles(0), 0);
    assert_eq!(tokens_to_cycles(100_000_000), 444_444_444_444);
    assert_eq!(tokens_to_cycles(9), 40_000);
    assert_eq!(tokens_to_cycles(u64::MAX), u64::MAX);
    assert_eq!(topup_cycles(100_000_000), 355_555_555_555);
    assert_eq!(topup_burn_amount(1_000), 100);
    assert_eq!(topup_burn_amount(19), 1);
}

#[test]
fn creation_payment_checks() {
    let caller = id(1);
    let sys = id(9);
    assert_eq!(check_creation_payment(&None, &caller, &sys), Err(PaymentError::ExpectedTransfer));
    assert_eq!(
        check_creation_payment(&transfer(2, 9, MINER_CREATION_AMOUNT), &caller, &sys),
        Err(PaymentError::NotFromCaller)
    );
    assert_eq!(
        check_creation_payment(&transfer(1, 9, MINER_CREATION_AMOUNT - 1), &caller, &sys),
        Err(PaymentError::AmountTooLow)
    );
    assert_eq!(
        check_creation_payment(&transfer(1, 8, MINER_CREATION_AMOUNT), &caller, &sys),
        Err(PaymentError::NotToSystem)
    );
    assert_eq!(check_creation_payment(&transfer(1, 9, MINER_CREATION_AMOUNT), &caller, &sys), Ok(()));
}

#[test]
fn topup_payment_checks() {
    let caller = id(1);
    let sys = id(9);
    assert_eq!(check_topup_payment(&None, &caller, &sys), Err(PaymentError::ExpectedTransfer));
    assert_eq!(check_topup_payment(&transfer(2, 9, 5), &caller, &sys), Err(PaymentError::NotFromCaller));
    assert_eq!(check_topup_payment(&transfer(1, 8, 5), &caller, &sys), Err(PaymentError::NotToSystem));
    assert_eq!(check_topup_payment(&transfer(1, 9, 0), &caller, &sys), Ok(()));
}

#[test]
fn processed_payments_remember() {
    let mut p = ProcessedPayments::new();
    assert!(!p.contains(4));
    p.insert(4);
    p.insert(10);
    assert!(p.contains(4));
    assert!(p.contains(10));
    assert!(!p.contains(5));
}
