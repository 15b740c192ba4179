use blockchin::blockchain::{Block, Blockchain, Transaction};
use chrono::Utc;

#[test]
fn test_genesis_block_is_the_first_block() {
    let genesis = Block::genesis();

    assert_eq!(1, genesis.block_number)
}

#[test]
fn test_genesis_has_one_transaction() {
    let genesis = Block::genesis();

    assert_eq!(1, genesis.transaction_list.len())
}

#[test]
fn test_genesis_has_one_transaction_with_dummy_date() {
    let genesis = Block::genesis();

    assert_eq!(
        "This is dummy transaction as genesis block has no transactions",
        genesis.transaction_list[0].transaction_details
    )
}

#[test]
fn test_genesis_has_one_transaction_with_id_one() {
    let genesis = Block::genesis();

    assert_eq!("1", genesis.transaction_list[0].transaction_id)
}

#[test]
fn test_proof_of_work_returns_block_hash_with_difficulty_amount_of_leading_zeros() {
    let mut blockchain = Blockchain::new();

    blockchain.set_difficulty(2).unwrap();

    let new_block = Block {
        block_number: 1,
        block_timestamp: Utc::now().timestamp(),
        block_nonce: 0,
        transaction_list: vec![],
        previous_block_hash: String::from("00"),
    };

    let mined_block = blockchain.proof_of_work(new_block);

    assert_eq!(String::from("0"), mined_block.get_hash()[0..1]);
}

#[test]
fn test_proof_of_work_returns_has_difficulty_1_by_default() {
    let blockchain = Blockchain::new();

    let new_block = Block {
        block_number: 1,
        block_timestamp: Utc::now().timestamp(),
        block_nonce: 0,
        transaction_list: vec![],
        previous_block_hash: String::from("00"),
    };

    let mined_block = blockchain.proof_of_work(new_block);

    assert_eq!(String::from("0"), mined_block.get_hash()[0..1]);
}

#[test]
fn test_proof_of_work_with_higher_difficulty() {
    let mut blockchain = Blockchain::new();

    blockchain.set_difficulty(5).unwrap();

    let new_block = Block {
        block_number: 1,
        block_timestamp: Utc::now().timestamp(),
        block_nonce: 0,
        transaction_list: vec![],
        previous_block_hash: String::from("00"),
    };

    let mined_block = blockchain.proof_of_work(new_block);

    assert_eq!(String::from("0"), mined_block.get_hash()[0..1]);
}

#[test]
fn test_debug_macro() {
    let mut blockchain = Blockchain::new();

    blockchain.set_difficulty(5).unwrap();

    let new_block = Block {
        block_number: 1,
        block_timestamp: Utc::now().timestamp(),
        block_nonce: 0,
        transaction_list: vec![],
        previous_block_hash: String::from("00"),
    };
    println!("This is an example of a Block {:?}", new_block);

    let mined_block = blockchain.proof_of_work(new_block);

    assert_eq!(String::from("0"), mined_block.get_hash()[0..1]);
}

#[test]
fn test_clone_macro() {
    let mut blockchain = Blockchain::new();

    blockchain.set_difficulty(5).unwrap();

    let transac = Transaction {
        transaction_id: String::from("Nueva trans"),
        transaction_timestamp: Utc::now().timestamp(),
        transaction_details: String::from("probando"),
        amount: 7677,
    };
    let copy_trans = transac.clone();

    println!("This is an example of a Transaction {:?}", transac);

    println!("This is an example of a copy trans {:?}", copy_trans);
}

#[test]
fn test_serialize_is_exact_and_escapes() {
    let block = Block {
        block_number: 1,
        block_timestamp: 5,
        block_nonce: 7,
        transaction_list: vec![Transaction {
            transaction_id: String::from("1"),
            transaction_timestamp: 3,
            transaction_details: String::from("a\"b\\c"),
            amount: -4,
        }],
        previous_block_hash: String::from("0"),
    };

    let expected = "{\"block_number\":1,\"block_timestamp\":5,\"block_nonce\":7,\"transaction_list\":[{\"transaction_id\":\"1\",\"transaction_timestamp\":3,\"transaction_details\":\"a\\\"b\\\\c\",\"amount\":-4}],\"previous_block_hash\":\"0\"}";
    assert_eq!(expected, block.serialize());
}

#[test]
fn test_serialize_two_transactions_comma_separated() {
    let mut block = Block {
        block_number: 2,
        block_timestamp: 0,
        block_nonce: 0,
        transaction_list: vec![],
        previous_block_hash: String::from("00"),
    };
    block.add_transaction(Transaction {
        transaction_id: String::from("2"),
        transaction_timestamp: 1,
        transaction_details: String::from("x"),
        amount: 10,
    });
    block.add_transaction(Transaction {
        transaction_id: String::from("3"),
        transaction_timestamp: 2,
        transaction_details: String::from("y"),
        amount: 20,
    });

    let expected = "{\"block_number\":2,\"block_timestamp\":0,\"block_nonce\":0,\"transaction_list\":[{\"transaction_id\":\"2\",\"transaction_timestamp\":1,\"transaction_details\":\"x\",\"amount\":10},{\"transaction_id\":\"3\",\"transaction_timestamp\":2,\"transaction_details\":\"y\",\"amount\":20}],\"previous_block_hash\":\"00\"}";
    assert_eq!(expected, block.serialize());
    assert_eq!(2, block.transaction_list.len());
}

#[test]
fn test_content_hash_deterministic() {
    let make = || Block {
        block_number: 3,
        block_timestamp: 42,
        block_nonce: 9,
        transaction_list: vec![Transaction {
            transaction_id: String::from("4"),
            transaction_timestamp: 40,
            transaction_details: String::from("pay"),
            amount: 12,
        }],
        previous_block_hash: String::from("abc"),
    };
    let a = make();
    let b = make();

    assert_eq!(a.get_hash(), b.get_hash());
    assert_eq!(64, a.get_hash().len());
}

#[test]
fn test_content_hash_changes_with_nonce() {
    let a = Block {
        block_number: 3,
        block_timestamp: 42,
        block_nonce: 9,
        transaction_list: vec![],
        previous_block_hash: String::from("abc"),
    };
    let mut b = a.clone();
    b.block_nonce = 10;

    assert_ne!(a.get_hash(), b.get_hash());
}

#[test]
fn test_content_hash_is_hex() {
    let hash = Block::genesis().get_hash();

    assert_eq!(64, hash.len());
    assert!(hash.chars().all(|c| c.is_ascii_hexdigit()));
    assert_ne!(hash, Block::genesis().serialize());
}
