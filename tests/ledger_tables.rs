use windoge_pow::chain::{ChainState, Withdrawal};
use windoge_pow::ledger::{Balances, Identity, Registry};

fn id(b: u8) -> Identity {
    Identity::new(vec![b, 0, b])
}

#[test]
fn identities_compare_by_bytes() {
    assert!(id(1).same(&id(1)));
    assert!(!id(1).same(&id(2)));
    assert!(!Identity::new(vec![1]).same(&Identity::new(vec![1, 1])));
    assert!(Identity::new(vec![]).same(&Identity::new(vec![])));
}

#[test]
fn balances_default_to_zero_and_saturate() {
    let mut b = Balances::new();
    assert_eq!(b.get(&id(1)), 0);
    b.credit(&id(1), 10);
    b.credit(&id(2), 5);
    b.credit(&id(1), 7);
    assert_eq!(b.get(&id(1)), 17);
    assert_eq!(b.get(&id(2)), 5);
    assert_eq!(b.len(), 2);
    b.debit(&id(2), 9);
    assert_eq!(b.get(&id(2)), 0);
    b.credit(&id(1), u64::MAX);
    assert_eq!(b.get(&id(1)), u64::MAX);
    b.set(&id(3), 4);
    assert_eq!(b.get(&id(3)), 4);
    let (who, amount) = b.entry_at(2);
    assert!(who.same(&id(3)));
    assert_eq!(amount, 4);
}

#[test]
fn registry_resolves_owners() {
    let mut r = Registry::new();
    r.register(id(10), id(1));
    r.register(id(11), id(2));
    r.register(id(12), id(1));
    assert_eq!(r.len(), 3);
    assert!(r.contains(&id(11)));
    assert!(!r.contains(&id(13)));
    assert!(r.owner_of(&id(12)).unwrap().same(&id(1)));
    assert!(r.owner_of(&id(13)).is_none());
    let mine = r.workers_of(&id(1));
    assert_eq!(mine.len(), 2);
    assert!(mine[0].same(&id(10)) && mine[1].same(&id(12)));
    assert!(r.worker_at(1).same(&id(11)) && r.owner_at(1).same(&id(2)));
}

#[test]
fn withdrawal_debit_stops_at_zero() {
    let mut s = ChainState::new(Identity::new(vec![0xee]));
    s.deposit(&id(1), 30);
    s.settle_withdrawal(&Withdrawal { recipient: id(1), amount: 50 });
    assert_eq!(s.balance_of(&id(1)), 0);
}

#[test]
fn restore_resumes_tip() {
    let mut s = ChainState::restore(Identity::new(vec![0xee]), 77, 12, 30, 5);
    assert_eq!((s.tip_hash, s.height, s.difficulty, s.average_block_time), (77, 12, 30, 5));
    s.set_reserved(&id(1), 9);
    assert_eq!(s.pending_of(&id(1)), 9);
}
