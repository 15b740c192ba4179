use blockchin::blockchain::{Blockchain, ChainError, SealOutcome};
use blockchin::decimal::{dec_to_u64, u64_to_dec};

#[test]
fn test_new_creates_a_blockchain_with_a_genesis_block() {
    let blockchain = Blockchain::new();

    assert_eq!(1, blockchain.last_block().block_number)
}

#[test]
fn test_adding_a_transaction_to_the_blockchain_does_not_create_new_block() {
    let mut blockchain = Blockchain::new();

    blockchain.new_transaction(String::from("a FiubaCoin goes somewhere"), 1);

    assert_eq!(1, blockchain.blocks.len());
}

#[test]
fn test_adding_a_transaction_to_the_blockchain_stores_it_in_the_current_transaction_vector() {
    let mut blockchain = Blockchain::new();

    blockchain.new_transaction(String::from("a FiubaCoin goes somewhere"), 1);

    assert_eq!(
        String::from("a FiubaCoin goes somewhere"),
        blockchain.current_transaction_list[0].transaction_details
    );
}

#[test]
fn test_adding_a_transaction_uses_incremental_id() {
    let mut blockchain = Blockchain::new();

    blockchain.new_transaction(String::from("a FiubaCoin goes somewhere"), 1);
    blockchain.new_transaction(String::from("a FiubaCoin goes somewhere else"), 1);

    assert_eq!("2", blockchain.current_transaction_list[0].transaction_id);
    assert_eq!("3", blockchain.current_transaction_list[1].transaction_id);
}

#[test]
fn test_adding_a_transaction_sets_correct_amount() {
    let mut blockchain = Blockchain::new();

    blockchain.new_transaction(String::from("a FiubaCoin goes somewhere"), 1);
    blockchain.new_transaction(String::from("a FiubaCoin goes somewhere else"), 10);

    assert_eq!(1, blockchain.current_transaction_list[0].amount);
    assert_eq!(10, blockchain.current_transaction_list[1].amount);
}

#[test]
fn test_generating_a_block_pushes_a_reward_transaction() {
    let mut blockchain = Blockchain::new();

    blockchain.new_transaction(String::from("a FiubaCoin goes somewhere"), 1);
    blockchain.generate_new_block();

    let last_block = blockchain.blocks.last().unwrap();

    assert_eq!(100, last_block.transaction_list[0].amount);
}

#[test]
fn test_generating_a_block_pushes_all_current_transactions() {
    let mut blockchain = Blockchain::new();

    blockchain.new_transaction(String::from("a FiubaCoin goes somewhere"), 1);
    blockchain.new_transaction(String::from("a FiubaCoin goes somewhere else"), 10);

    blockchain.generate_new_block();

    let last_block = blockchain.blocks.last().unwrap();
    let last_block_transaction_list = &last_block.transaction_list;

    assert_eq!(3, last_block_transaction_list.len());
    assert_eq!(100, last_block_transaction_list[0].amount);
    assert_eq!(1, last_block_transaction_list[1].amount);
    assert_eq!(10, last_block_transaction_list[2].amount);
}

#[test]
fn test_sealing_an_empty_pool_is_a_noop() {
    let mut blockchain = Blockchain::new();

    let outcome = blockchain.generate_new_block();

    assert_eq!(SealOutcome::NoOp, outcome);
    assert_eq!(1, blockchain.blocks.len());
    assert!(blockchain.is_transaction_empty());
}

#[test]
fn test_sealing_clears_the_pool_and_reports_sealed() {
    let mut blockchain = Blockchain::new();

    blockchain.new_transaction(String::from("pay"), 3);
    let outcome = blockchain.generate_new_block();

    assert_eq!(SealOutcome::Sealed, outcome);
    assert_eq!(2, blockchain.blocks.len());
    assert!(blockchain.is_transaction_empty());
}

#[test]
fn test_difficulty_escalates_by_one_per_seal() {
    let mut blockchain = Blockchain::new();
    assert_eq!(1, blockchain.difficulty);

    blockchain.new_transaction(String::from("a"), 1);
    blockchain.generate_new_block();
    assert_eq!(2, blockchain.difficulty);

    blockchain.new_transaction(String::from("b"), 2);
    blockchain.generate_new_block();
    assert_eq!(3, blockchain.difficulty);
}

#[test]
fn test_change_reward_applies_to_next_seal() {
    let mut blockchain = Blockchain::new();

    blockchain.change_reward(7);
    blockchain.new_transaction(String::from("pay"), 1);
    blockchain.generate_new_block();

    assert_eq!(7, blockchain.blocks.last().unwrap().transaction_list[0].amount);
}

#[test]
fn test_set_difficulty_rejects_negative() {
    let mut blockchain = Blockchain::new();

    let r = blockchain.set_difficulty(-1);

    assert_eq!(Err(ChainError::InvalidDifficulty), r);
    assert_eq!(1, blockchain.difficulty);
}

#[test]
fn test_set_miners_rejects_zero() {
    let mut blockchain = Blockchain::new();

    let r = blockchain.set_miners(0);

    assert_eq!(Err(ChainError::InvalidWorkerCount), r);
    assert_eq!(1, blockchain.miners);
}

#[test]
fn test_id_after_seal_continues_past_reward() {
    let mut blockchain = Blockchain::new();

    blockchain.new_transaction(String::from("a"), 1);
    blockchain.new_transaction(String::from("b"), 2);
    blockchain.generate_new_block();
    blockchain.new_transaction(String::from("c"), 3);

    let sealed = &blockchain.blocks[1];
    assert_eq!("4", sealed.transaction_list[0].transaction_id);
    assert_eq!("5", blockchain.current_transaction_list[0].transaction_id);
}

#[test]
fn test_seal_with_several_worker_counts() {
    for workers in [1u32, 4, 16] {
        let mut blockchain = Blockchain::new();
        blockchain.set_miners(workers).unwrap();
        blockchain.new_transaction(String::from("pay"), 1);

        let outcome = blockchain.generate_new_block();

        assert_eq!(SealOutcome::Sealed, outcome);
        assert_eq!(2, blockchain.blocks.len());
    }
}

#[test]
fn test_example_scenario() {
    let mut blockchain = Blockchain::new();
    let genesis_hash = blockchain.last_block().get_hash();

    blockchain.new_transaction(String::from("pay Alice"), 5);
    blockchain.new_transaction(String::from("pay Bob"), 10);
    blockchain.change_reward(100);
    blockchain.set_difficulty(1).unwrap();

    let outcome = blockchain.generate_new_block();
    assert_eq!(SealOutcome::Sealed, outcome);

    let sealed = blockchain.blocks.last().unwrap();
    assert_eq!(3, sealed.transaction_list.len());
    assert_eq!(100, sealed.transaction_list[0].amount);
    assert_eq!(5, sealed.transaction_list[1].amount);
    assert_eq!(10, sealed.transaction_list[2].amount);
    assert_eq!(genesis_hash, sealed.previous_block_hash);

    let mut candidate = sealed.clone();
    candidate.transaction_list.truncate(1);
    assert_eq!(String::from("0"), candidate.get_hash()[0..1]);
}

#[test]
fn test_decimal_identifiers_round_trip() {
    let s = u64_to_dec(12345);
    assert_eq!("12345", s);
    assert_eq!(12345, dec_to_u64(s.as_str()));
    assert_eq!("0", u64_to_dec(0));
    assert_eq!("18446744073709551615", u64_to_dec(u64::MAX));
}
