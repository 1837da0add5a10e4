use std::hash::Hasher;

use rapidhash::RapidHasher;
use windoge_pow::chain::{
    transactions_root, AdmitError, Block, ChainState, RoundStart, SolutionError, Transaction,
    BLOCK_VERSION, EMPTY_MEMPOOL_RETRY_SECS, TRANSACTION_LIMIT,
};
use windoge_pow::difficulty::{block_reward, BLOCK_TIME, MIN_DIFFICULTY, SEC_NANOS};
use windoge_pow::ledger::Identity;
use windoge_pow::pow::{block_digest, BlockHeader};

fn id(b: u8) -> Identity {
    Identity::new(vec![b, b, b])
}

fn system() -> Identity {
    Identity::new(vec![0xee, 1])
}

fn chain_with_worker() -> ChainState {
    let mut s = ChainState::new(system());
    s.register_worker(id(50), id(5));
    s
}

fn block_on(s: &ChainState, txs: Vec<Transaction>) -> Block {
    Block {
        header: BlockHeader {
            version: BLOCK_VERSION,
            prev_hash: s.tip_hash,
            merkle_root: 0,
            timestamp: 1,
            difficulty: s.difficulty,
            height: s.height + 1,
        },
        nonce: 7,
        hash: 0,
        transactions: txs,
    }
}

#[test]
fn empty_mempool_retries_later() {
    let mut s = chain_with_worker();
    let before_tip = s.tip_hash;
    let before_diff = s.difficulty;
    match s.start_round(10) {
        RoundStart::Retry(delay) => assert_eq!(delay, EMPTY_MEMPOOL_RETRY_SECS),
        RoundStart::Distribute(_) => panic!("no candidate expected"),
    }
    assert_eq!(EMPTY_MEMPOOL_RETRY_SECS, 20);
    assert_eq!(s.tip_hash, before_tip);
    assert_eq!(s.difficulty, before_diff);
    assert!(s.candidate.is_none());
}

#[test]
fn round_builds_candidate_from_mempool() {
    let mut s = chain_with_worker();
    s.deposit(&id(1), 100);
    s.admit_transaction(id(1), id(2), 30, 555).unwrap();
    match s.start_round(999) {
        RoundStart::Distribute(b) => {
            assert_eq!(b.header.prev_hash, 0);
            assert_eq!(b.header.height, 1);
            assert_eq!(b.header.timestamp, 999);
            assert_eq!(b.header.difficulty, MIN_DIFFICULTY);
            assert_eq!(b.header.version, BLOCK_VERSION);
            assert_eq!(b.transactions.len(), 1);
            assert_eq!(b.transactions[0].amount, 30);
            assert_eq!(b.header.merkle_root, transactions_root(&s.mempool));
        }
        RoundStart::Retry(_) => panic!("candidate expected"),
    }
    assert!(s.candidate.is_some());
    assert_eq!(s.mempool.len(), 1);
}

#[test]
fn transactions_root_commits_to_encoding() {
    let t = Transaction { sender: id(1), recipient: id(2), amount: 30, timestamp: 555 };
    let mut data: Vec<u8> = Vec::new();
    data.extend_from_slice(&3u64.to_le_bytes());
    data.extend_from_slice(&[1, 1, 1]);
    data.extend_from_slice(&3u64.to_le_bytes());
    data.extend_from_slice(&[2, 2, 2]);
    data.extend_from_slice(&30u64.to_le_bytes());
    data.extend_from_slice(&555u64.to_le_bytes());
    let mut h = RapidHasher::new(0);
    h.write(&data);
    assert_eq!(transactions_root(&vec![t]), h.finish() as u128);
}

#[test]
fn zero_amount_admission() {
    let mut s = chain_with_worker();
    assert_eq!(s.admit_transaction(id(1), id(2), 0, 1), Ok(()));
    assert_eq!(s.mempool.len(), 1);
    assert_eq!(s.admit_transaction(id(1), system(), 0, 2), Err(AdmitError::ZeroWithdrawal));
    assert_eq!(s.mempool.len(), 1);
}

#[test]
fn admission_reserves_balance() {
    let mut s = chain_with_worker();
    s.deposit(&id(1), 100);
    assert_eq!(s.admit_transaction(id(1), id(2), 60, 1), Ok(()));
    assert_eq!(s.pending_of(&id(1)), 60);
    assert!(s.pending_of(&id(1)) <= s.balance_of(&id(1)));
    assert_eq!(s.admit_transaction(id(1), id(2), 41, 2), Err(AdmitError::InsufficientBalance));
    assert_eq!(s.admit_transaction(id(1), id(3), 40, 3), Ok(()));
    assert_eq!(s.pending_of(&id(1)), 100);
    assert!(s.pending_of(&id(1)) <= s.balance_of(&id(1)));
    assert_eq!(s.balance_of(&id(1)), 100);
    assert_eq!(s.admit_transaction(id(1), id(2), 1, 4), Err(AdmitError::InsufficientBalance));
    assert_eq!(s.admit_transaction(id(9), id(2), u64::MAX, 5), Err(AdmitError::InsufficientBalance));
}

#[test]
fn congested_mempool_rejects() {
    let mut s = chain_with_worker();
    for i in 0..=TRANSACTION_LIMIT {
        assert_eq!(s.admit_transaction(id(1), id(2), 0, i as u64), Ok(()));
    }
    assert_eq!(s.mempool.len(), TRANSACTION_LIMIT + 1);
    assert_eq!(s.admit_transaction(id(1), id(2), 0, 999), Err(AdmitError::Congested));
}

#[test]
fn solution_rules_in_order() {
    let s = chain_with_worker();
    let b = block_on(&s, vec![]);
    assert_eq!(s.check_solution(&id(51), &b.header, 0), Err(SolutionError::UnregisteredWorker));
    let mut stale = b.header;
    stale.prev_hash = 9;
    assert_eq!(s.check_solution(&id(50), &stale, 0), Err(SolutionError::StaleReference));
    let mut high = b.header;
    high.height = 2;
    assert_eq!(s.check_solution(&id(50), &high, 0), Err(SolutionError::HeightMismatch));
    high.prev_hash = 9;
    assert_eq!(s.check_solution(&id(50), &high, 0), Err(SolutionError::HeightMismatch));
    let weak: u128 = 1u128 << 104;
    assert_eq!(s.check_solution(&id(50), &b.header, weak), Err(SolutionError::InvalidSolution));
    let strong: u128 = 1u128 << 103;
    assert_eq!(s.check_solution(&id(50), &b.header, strong), Ok(()));
}

#[test]
fn unsolved_block_is_rejected() {
    let mut s = chain_with_worker();
    let b = block_on(&s, vec![]);
    let d = block_digest(&b.header, b.nonce);
    if d.leading_zeros() < s.difficulty {
        assert_eq!(s.validate_solution(&id(50), &b), Err(SolutionError::InvalidSolution));
        assert_eq!(s.accept_solution(&id(50), &b, 1).err(), Some(SolutionError::InvalidSolution));
        assert_eq!(s.height, 0);
        assert_eq!(s.tip_hash, 0);
    }
}

#[test]
fn accepted_block_extends_tip() {
    let mut s = chain_with_worker();
    let b1 = block_on(&s, vec![]);
    let d1: u128 = 0x1234;
    assert!(s.apply_solution(&id(50), &b1, d1, BLOCK_TIME).is_ok());
    assert_eq!(s.height, 1);
    assert_eq!(s.tip_hash, d1);
    let b2 = block_on(&s, vec![]);
    assert_eq!(b2.header.prev_hash, d1);
    assert!(s.apply_solution(&id(50), &b2, 0x99, BLOCK_TIME).is_ok());
    assert_eq!(s.height, 2);
    assert_eq!(s.tip_hash, 0x99);
    assert_eq!(s.apply_solution(&id(50), &b1, 0x5, BLOCK_TIME).err(), Some(SolutionError::HeightMismatch));
    let mut stale = block_on(&s, vec![]);
    stale.header.prev_hash = d1;
    assert_eq!(s.apply_solution(&id(50), &stale, 0x5, BLOCK_TIME).err(), Some(SolutionError::StaleReference));
    assert_eq!(s.height, 2);
}

#[test]
fn concurrent_solutions_one_wins() {
    let mut s = chain_with_worker();
    s.register_worker(id(60), id(6));
    let a = block_on(&s, vec![]);
    let mut b = block_on(&s, vec![]);
    b.nonce = 8;
    assert!(s.apply_solution(&id(50), &a, 0xaaaa, BLOCK_TIME).is_ok());
    let height = s.height;
    assert_eq!(s.apply_solution(&id(60), &b, 0xbbbb, BLOCK_TIME).err(), Some(SolutionError::HeightMismatch));
    assert_eq!(s.height, height);
    assert_eq!(s.tip_hash, 0xaaaa);
    assert_eq!(s.balance_of(&id(6)), 0);
    assert_eq!(s.balance_of(&id(5)), block_reward(1));
}

#[test]
fn acceptance_settles_balances() {
    let mut s = chain_with_worker();
    s.deposit(&id(1), 100);
    s.admit_transaction(id(1), id(2), 30, 1).unwrap();
    s.admit_transaction(id(1), system(), 50, 2).unwrap();
    let txs = match s.start_round(3) {
        RoundStart::Distribute(b) => b.transactions,
        RoundStart::Retry(_) => panic!("candidate expected"),
    };
    let b = block_on(&s, txs);
    let out = s.apply_solution(&id(50), &b, 0, BLOCK_TIME).unwrap();
    assert_eq!(s.mempool.len(), 0);
    assert_eq!(s.pending_of(&id(1)), 0);
    assert_eq!(s.balance_of(&id(2)), 30);
    assert_eq!(s.balance_of(&id(1)), 70);
    assert_eq!(out.len(), 1);
    assert_eq!(out[0].recipient.bytes, vec![1, 1, 1]);
    assert_eq!(out[0].amount, 50);
    s.settle_withdrawal(&out[0]);
    assert_eq!(s.balance_of(&id(1)), 20);
    assert_eq!(s.balance_of(&id(5)), block_reward(1));
    assert!(s.candidate.is_none());
}

#[test]
fn duplicate_transactions_remove_one_each() {
    let mut s = chain_with_worker();
    s.deposit(&id(1), 100);
    s.admit_transaction(id(1), id(2), 10, 7).unwrap();
    s.admit_transaction(id(1), id(2), 10, 7).unwrap();
    let one = Transaction { sender: id(1), recipient: id(2), amount: 10, timestamp: 7 };
    let b = block_on(&s, vec![one]);
    s.apply_solution(&id(50), &b, 0, BLOCK_TIME).unwrap();
    assert_eq!(s.mempool.len(), 1);
    assert_eq!(s.pending_of(&id(1)), 10);
}

#[test]
fn average_and_difficulty_follow_solve_time() {
    let mut s = chain_with_worker();
    let b1 = block_on(&s, vec![]);
    s.apply_solution(&id(50), &b1, 1, 100 * SEC_NANOS).unwrap();
    assert_eq!(s.average_block_time, 100 * SEC_NANOS);
    assert_eq!(s.difficulty, MIN_DIFFICULTY + 1);
    let b2 = block_on(&s, vec![]);
    s.apply_solution(&id(50), &b2, 2, 200 * SEC_NANOS).unwrap();
    assert_eq!(s.average_block_time, 150 * SEC_NANOS);
    assert_eq!(s.difficulty, MIN_DIFFICULTY + 2);
    let b3 = block_on(&s, vec![]);
    s.apply_solution(&id(50), &b3, 3, 600 * SEC_NANOS).unwrap();
    assert_eq!(s.average_block_time, 300 * SEC_NANOS);
    assert_eq!(s.difficulty, MIN_DIFFICULTY + 1);
    assert_eq!(s.current_reward(), block_reward(3));
}
