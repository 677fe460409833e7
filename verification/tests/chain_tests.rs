use simple_blockchain::{
    current_time, generate_keypair, sign_transaction, Account, AccountMeta, Block, Blockchain,
    CoinbaseTransaction, KeyMap, TransferError, BLOCK_REWARD,
};
use std::time::Instant;

fn genesis_block(diff: u32, miner: simple_blockchain::PublicKey) -> Block {
    let genesis_coinbase = CoinbaseTransaction {
        to: miner,
        amount: BLOCK_REWARD,
    };
    Block::new(0, current_time(), vec![], "0".into(), diff, genesis_coinbase).unwrap()
}

#[test]
fn test_mining_hello_blockchain() {
    let (_, notebook_program_id) = generate_keypair();
    let (_, faucet_program_id) = generate_keypair();
    let (_, miner_pubkey) = generate_keypair();
    let difficulty = [1, 3, 4];
    for &diff in &difficulty {
        let start = Instant::now();

        let mut bc = Blockchain {
            accounts: KeyMap::new(),
            difficulty: diff,
            vec: vec![],
            mempool: vec![],
            faucet_program_id,
            notebook_program_id,
            distributor_program_id: faucet_program_id,
            nonces: KeyMap::new(),
        };

        bc.vec.push(genesis_block(diff, miner_pubkey));
        let (secret_key_from, _) = generate_keypair();
        let (_, public_key_to) = generate_keypair();
        let (_, dummy_program_1) = generate_keypair();
        let tx = sign_transaction(
            dummy_program_1,
            public_key_to,
            200,
            vec![],
            &secret_key_from,
            0,
            0,
            vec![],
        )
        .unwrap();
        println!("valid = {:?}", tx.verify_transaction());
        let _ = bc.add_to_mempool(tx);

        let elapsed = start.elapsed();

        println!("Difficulty {} generated in {:?}", diff, elapsed);
    }
}

#[test]
fn test_generate_keys() {
    let (secret_key, public_key) = generate_keypair();

    println!("Public Key: {}", public_key.to_hex());
    println!("Secret Key: {}", secret_key.display_secret());
}

#[test]
fn test_transaction_sign_verify() {
    let (from_secret_key, _) = generate_keypair();

    let (_, to_public_key) = generate_keypair();

    let (_, dummy_program_1) = generate_keypair();
    let mut transaction = sign_transaction(
        dummy_program_1,
        to_public_key,
        100,
        vec![],
        &from_secret_key,
        0,
        0,
        vec![],
    )
    .unwrap();

    let is_valid = transaction.verify_transaction().is_ok();
    assert!(is_valid);

    transaction.amount = 101;

    assert!(transaction.verify_transaction().is_err());
}

#[test]
fn test_add_to_mempool() {
    let (_, notebook_program_id) = generate_keypair();
    let (_, faucet_program_id) = generate_keypair();
    let (secret_key_from, public_key_from) = generate_keypair();
    let (_, public_key_to) = generate_keypair();
    let (_, miner_pubkey) = generate_keypair();
    let (_, dummy_program_1) = generate_keypair();

    let transaction_accounts = vec![
        AccountMeta {
            pubkey: public_key_from,
            is_signer: true,
            is_writable: true,
        },
        AccountMeta {
            pubkey: public_key_to,
            is_signer: false,
            is_writable: true,
        },
    ];

    let tx1 = sign_transaction(
        dummy_program_1,
        public_key_to,
        101,
        vec![],
        &secret_key_from,
        0,
        0,
        transaction_accounts.clone(),
    )
    .unwrap();
    println!("valid 1 = {:?}", tx1.verify_transaction());
    let tx2 = sign_transaction(
        dummy_program_1,
        public_key_to,
        102,
        vec![],
        &secret_key_from,
        0,
        1,
        transaction_accounts.clone(),
    )
    .unwrap();
    println!("valid 2 = {:?}", tx2.verify_transaction());
    let mut tx3 = sign_transaction(
        dummy_program_1,
        public_key_to,
        103,
        vec![],
        &secret_key_from,
        0,
        2,
        transaction_accounts,
    )
    .unwrap();
    tx3.amount = 999;
    println!("valid 3 = {:?}", tx3.verify_transaction());

    let diff = 4;

    let mut accounts = KeyMap::new();
    accounts.insert(
        public_key_from,
        Account {
            coins: 203,
            data: vec![],
            owner: public_key_from,
            executable: false,
        },
    );
    accounts.insert(
        public_key_to,
        Account {
            coins: 0,
            data: vec![],
            owner: public_key_to,
            executable: false,
        },
    );

    let mut bc = Blockchain {
        accounts,
        difficulty: diff,
        vec: vec![],
        mempool: vec![],
        faucet_program_id,
        notebook_program_id,
        distributor_program_id: faucet_program_id,
        nonces: KeyMap::new(),
    };

    bc.vec.push(genesis_block(diff, miner_pubkey));

    let _ = bc.add_to_mempool(tx1);
    let _ = bc.add_to_mempool(tx2);
    let _ = bc.add_to_mempool(tx3);

    let _ = bc.add_block(miner_pubkey);
    let last_block = bc.vec.last().unwrap();

    assert_eq!(last_block.transactions.len(), 2);
}

#[test]
fn test_check_balance() {
    let (_, notebook_program_id) = generate_keypair();
    let (_, faucet_program_id) = generate_keypair();
    let (secret_key_from, public_key_from) = generate_keypair();
    let (_, public_key_to) = generate_keypair();
    let (_, miner_pubkey) = generate_keypair();
    let (_, dummy_program_1) = generate_keypair();

    let tx_accounts = vec![
        AccountMeta {
            pubkey: public_key_from,
            is_signer: true,
            is_writable: true,
        },
        AccountMeta {
            pubkey: public_key_to,
            is_signer: false,
            is_writable: true,
        },
    ];

    let tx1 = sign_transaction(
        dummy_program_1,
        public_key_to,
        50,
        vec![],
        &secret_key_from,
        0,
        0,
        tx_accounts.clone(),
    )
    .unwrap();
    println!("valid 1 = {:?}", tx1.verify_transaction());

    let tx2 = sign_transaction(
        dummy_program_1,
        public_key_to,
        200,
        vec![],
        &secret_key_from,
        0,
        1,
        tx_accounts,
    )
    .unwrap();
    println!("valid 2 = {:?}", tx2.verify_transaction());

    let diff = 4;

    let mut accounts = KeyMap::new();
    accounts.insert(
        public_key_from,
        Account {
            coins: 100,
            data: vec![],
            owner: public_key_from,
            executable: false,
        },
    );
    accounts.insert(
        public_key_to,
        Account {
            coins: 0,
            data: vec![],
            owner: public_key_to,
            executable: false,
        },
    );

    let mut bc = Blockchain {
        accounts,
        difficulty: diff,
        vec: vec![],
        mempool: vec![],
        faucet_program_id,
        notebook_program_id,
        distributor_program_id: faucet_program_id,
        nonces: KeyMap::new(),
    };

    bc.vec.push(genesis_block(diff, miner_pubkey));

    assert!(bc.add_to_mempool(tx1).is_ok());

    assert!(bc.add_to_mempool(tx2).is_err());

    assert_eq!(bc.mempool.len(), 1);

    assert!(bc.add_block(miner_pubkey).is_ok());
    let last_block = bc.vec.last().unwrap();

    assert_eq!(last_block.transactions.len(), 1);

    println!("{:?}", bc.accounts);

    assert_eq!(bc.accounts.get(&public_key_from).unwrap().coins, 50);

    assert_eq!(bc.accounts.get(&public_key_to).unwrap().coins, 50);
}

#[test]
fn test_execue_programm() {
    let (_, notebook_program_id) = generate_keypair();
    let (_, faucet_program_id) = generate_keypair();
    let (secret_key_from, public_key_from) = generate_keypair();
    let (_, miner_pubkey) = generate_keypair();

    let diff = 4;

    let mut accounts = KeyMap::new();
    accounts.insert(
        public_key_from,
        Account {
            coins: 0,
            data: vec![],
            owner: public_key_from,
            executable: false,
        },
    );

    let mut bc = Blockchain {
        accounts,
        difficulty: diff,
        vec: vec![],
        mempool: vec![],
        faucet_program_id,
        notebook_program_id,
        distributor_program_id: faucet_program_id,
        nonces: KeyMap::new(),
    };

    bc.deploy_program(faucet_program_id, vec![]);

    let transaction_accounts = vec![
        AccountMeta {
            pubkey: public_key_from,
            is_signer: true,
            is_writable: true,
        },
        AccountMeta {
            pubkey: faucet_program_id,
            is_signer: false,
            is_writable: true,
        },
    ];

    let tx1 = sign_transaction(
        faucet_program_id,
        faucet_program_id,
        0,
        vec![1],
        &secret_key_from,
        0,
        0,
        transaction_accounts,
    )
    .unwrap();
    println!("valid 1 = {:?}", tx1.verify_transaction());
    assert!(bc.add_to_mempool(tx1).is_ok());
    assert!(bc.add_block(miner_pubkey).is_ok());
    let last_block = bc.vec.last().unwrap();

    assert_eq!(last_block.transactions.len(), 1);

    println!("{:?}", bc.accounts);

    assert_eq!(bc.accounts.get(&public_key_from).unwrap().coins, 100);
}

#[test]
fn test_notebook_security() {
    let (_, notebook_program_id) = generate_keypair();
    let (_, faucet_program_id) = generate_keypair();
    let (secret_key_from, public_key_from) = generate_keypair();

    let (_, miner_pubkey) = generate_keypair();
    let diff = 4;

    let mut accounts = KeyMap::new();
    accounts.insert(
        public_key_from,
        Account {
            coins: 0,
            data: vec![],
            owner: public_key_from,
            executable: false,
        },
    );

    let mut bc = Blockchain {
        accounts,
        difficulty: diff,
        vec: vec![],
        mempool: vec![],
        faucet_program_id,
        notebook_program_id,
        distributor_program_id: faucet_program_id,
        nonces: KeyMap::new(),
    };

    bc.deploy_program(notebook_program_id, vec![]);
    bc.create_data_account(public_key_from, notebook_program_id);
    let mut data = vec![2];
    data.extend_from_slice(&public_key_from.serialize());
    data.extend_from_slice(b"Hello Solana!");

    let transaction_accounts = vec![
        AccountMeta {
            pubkey: public_key_from,
            is_signer: true,
            is_writable: true,
        },
        AccountMeta {
            pubkey: notebook_program_id,
            is_signer: false,
            is_writable: true,
        },
    ];

    let tx1 = sign_transaction(
        notebook_program_id,
        notebook_program_id,
        0,
        data,
        &secret_key_from,
        0,
        0,
        transaction_accounts,
    )
    .unwrap();
    println!("valid 1 = {:?}", tx1.verify_transaction());
    assert!(bc.add_to_mempool(tx1).is_ok());
    assert!(bc.add_block(miner_pubkey).is_ok());
    let last_block = bc.vec.last().unwrap();

    assert_eq!(last_block.transactions.len(), 1);

    println!("{:?}", bc.accounts);

    assert_eq!(
        bc.accounts.get(&public_key_from).unwrap().data,
        b"Hello Solana!"
    );
}

#[test]
fn test_notebook_hack_attempt() {
    let (_, notebook_program_id) = generate_keypair();
    let (_, faucet_program_id) = generate_keypair();
    let (secret_key_from, public_key_from) = generate_keypair();
    let (_, victim_key) = generate_keypair();
    let (_, miner_pubkey) = generate_keypair();

    let (_, dummy_program_1) = generate_keypair();
    let diff = 4;

    let mut accounts = KeyMap::new();
    accounts.insert(
        public_key_from,
        Account {
            coins: 0,
            data: vec![],
            owner: public_key_from,
            executable: false,
        },
    );
    accounts.insert(
        victim_key,
        Account {
            coins: 0,
            data: vec![],
            owner: victim_key,
            executable: false,
        },
    );

    let mut bc = Blockchain {
        accounts,
        difficulty: diff,
        vec: vec![],
        mempool: vec![],
        faucet_program_id,
        notebook_program_id,
        distributor_program_id: faucet_program_id,
        nonces: KeyMap::new(),
    };

    bc.deploy_program(notebook_program_id, vec![]);
    bc.create_data_account(victim_key, notebook_program_id);

    let mut data = vec![2];
    data.extend_from_slice(&victim_key.serialize());
    data.extend_from_slice(b"Hello Solana!");

    let transaction_accounts = vec![
        AccountMeta {
            pubkey: public_key_from,
            is_signer: true,
            is_writable: true,
        },
        AccountMeta {
            pubkey: notebook_program_id,
            is_signer: false,
            is_writable: true,
        },
    ];

    let tx1 = sign_transaction(
        dummy_program_1,
        notebook_program_id,
        0,
        data,
        &secret_key_from,
        0,
        0,
        transaction_accounts,
    )
    .unwrap();
    println!("valid 1 = {:?}", tx1.verify_transaction());
    assert!(bc.add_to_mempool(tx1).is_ok());
    assert!(bc.add_block(miner_pubkey).is_ok());
    let last_block = bc.vec.last().unwrap();

    assert_eq!(last_block.transactions.len(), 1);

    println!("{:?}", bc.accounts);

    assert_eq!(bc.accounts.get(&victim_key).unwrap().data, Vec::<u8>::new(),);
}

#[test]
fn test_genesis_nonce_initialized() {
    let (_, faucet_program_id) = generate_keypair();
    let (_, notebook_program_id) = generate_keypair();
    let (_, genesis_pubkey) = generate_keypair();

    let bc = Blockchain::new(
        genesis_pubkey,
        faucet_program_id,
        notebook_program_id,
        faucet_program_id,
    )
    .unwrap();

    let genesis_nonce = bc.nonces.get(&genesis_pubkey);
    assert!(genesis_nonce.is_some(), "genesis nonce must be initialized");
    assert_eq!(*genesis_nonce.unwrap(), 0, "genesis nonce must be 0");
}

#[test]
fn test_fee_priority() {
    let (_, notebook_program_id) = generate_keypair();
    let (_, faucet_program_id) = generate_keypair();
    let (secret_key_from, public_key_from) = generate_keypair();
    let (_, public_key_to) = generate_keypair();
    let (_, miner_pubkey) = generate_keypair();
    let (_, dummy_program_1) = generate_keypair();

    let transaction_accounts = vec![
        AccountMeta {
            pubkey: public_key_from,
            is_signer: true,
            is_writable: true,
        },
        AccountMeta {
            pubkey: public_key_to,
            is_signer: false,
            is_writable: true,
        },
    ];

    let tx1 = sign_transaction(
        dummy_program_1,
        public_key_to,
        25,
        vec![],
        &secret_key_from,
        30,
        0,
        transaction_accounts.clone(),
    )
    .unwrap();
    println!("valid 1 = {:?}", tx1.verify_transaction());
    let tx2 = sign_transaction(
        dummy_program_1,
        public_key_to,
        20,
        vec![],
        &secret_key_from,
        10,
        1,
        transaction_accounts.clone(),
    )
    .unwrap();
    println!("valid 2 = {:?}", tx2.verify_transaction());
    let tx3 = sign_transaction(
        dummy_program_1,
        public_key_to,
        15,
        vec![],
        &secret_key_from,
        50,
        2,
        transaction_accounts,
    )
    .unwrap();
    println!("valid 3 = {:?}", tx3.verify_transaction());

    let diff = 4;

    let mut accounts = KeyMap::new();
    accounts.insert(
        public_key_from,
        Account {
            coins: 203,
            data: vec![],
            owner: public_key_from,
            executable: false,
        },
    );
    accounts.insert(
        public_key_to,
        Account {
            coins: 0,
            data: vec![],
            owner: public_key_to,
            executable: false,
        },
    );

    let mut bc = Blockchain {
        accounts,
        difficulty: diff,
        vec: vec![],
        mempool: vec![],
        faucet_program_id,
        notebook_program_id,
        distributor_program_id: faucet_program_id,
        nonces: KeyMap::new(),
    };

    bc.vec.push(genesis_block(diff, miner_pubkey));

    let _ = bc.add_to_mempool(tx1);
    let _ = bc.add_to_mempool(tx2);
    let _ = bc.add_to_mempool(tx3);

    let _ = bc.add_block(miner_pubkey);
    let last_block = bc.vec.last().unwrap();
    println!("{:?}", last_block.transactions);
    assert_eq!(last_block.transactions[0].fee, 50);
    assert_eq!(last_block.transactions[1].fee, 30);
    assert_eq!(last_block.transactions[2].fee, 10);
}

#[test]
fn test_miner_reward() {
    let (_, notebook_program_id) = generate_keypair();
    let (_, faucet_program_id) = generate_keypair();
    let (secret_key_from, public_key_from) = generate_keypair();
    let (_, public_key_to) = generate_keypair();
    let (_, miner_pubkey) = generate_keypair();
    let (_, dummy_program_1) = generate_keypair();

    let transaction_accounts = vec![
        AccountMeta {
            pubkey: public_key_from,
            is_signer: true,
            is_writable: true,
        },
        AccountMeta {
            pubkey: public_key_to,
            is_signer: false,
            is_writable: true,
        },
    ];

    let tx1 = sign_transaction(
        dummy_program_1,
        public_key_to,
        25,
        vec![],
        &secret_key_from,
        20,
        0,
        transaction_accounts.clone(),
    )
    .unwrap();
    println!("valid 1 = {:?}", tx1.verify_transaction());
    let tx2 = sign_transaction(
        dummy_program_1,
        public_key_to,
        20,
        vec![],
        &secret_key_from,
        10,
        1,
        transaction_accounts,
    )
    .unwrap();
    println!("valid 2 = {:?}", tx2.verify_transaction());

    let diff = 4;

    let mut accounts = KeyMap::new();
    accounts.insert(
        public_key_from,
        Account {
            coins: 1000,
            data: vec![],
            owner: public_key_from,
            executable: false,
        },
    );
    accounts.insert(
        public_key_to,
        Account {
            coins: 0,
            data: vec![],
            owner: public_key_to,
            executable: false,
        },
    );

    let mut nonces = KeyMap::new();
    nonces.insert(public_key_from, 0);
    let mut bc = Blockchain {
        accounts,
        difficulty: diff,
        vec: vec![],
        mempool: vec![],
        faucet_program_id,
        notebook_program_id,
        distributor_program_id: faucet_program_id,
        nonces,
    };

    bc.vec.push(genesis_block(diff, miner_pubkey));

    let _ = bc.add_to_mempool(tx1);
    let _ = bc.add_to_mempool(tx2);

    let _ = bc.add_block(miner_pubkey);

    let last_block = bc.vec.last().unwrap();

    assert_eq!(last_block.transactions[0].fee, 20);
    assert_eq!(last_block.transactions[1].fee, 10);
    assert_eq!(
        bc.accounts.get(&miner_pubkey).unwrap().coins,
        BLOCK_REWARD + 30
    );
}

#[test]
fn test_apply_without_sender_in_accounts() {
    let (_, notebook_program_id) = generate_keypair();
    let (_, faucet_program_id) = generate_keypair();
    let (secret_key_from, public_key_from) = generate_keypair();
    let (_, public_key_to) = generate_keypair();
    let (_, dummy_program_1) = generate_keypair();

    let diff = 4;

    let mut accounts = KeyMap::new();
    accounts.insert(
        public_key_from,
        Account {
            coins: 1000,
            data: vec![],
            owner: public_key_from,
            executable: false,
        },
    );

    let mut bc = Blockchain {
        accounts: accounts,
        difficulty: diff,
        vec: vec![],
        mempool: vec![],
        faucet_program_id,
        notebook_program_id,
        distributor_program_id: faucet_program_id,
        nonces: KeyMap::new(),
    };

    let transaction_accounts = vec![AccountMeta {
        pubkey: public_key_to,
        is_signer: false,
        is_writable: true,
    }];

    let tx1 = sign_transaction(
        dummy_program_1,
        public_key_to,
        50,
        vec![],
        &secret_key_from,
        0,
        0,
        transaction_accounts,
    )
    .unwrap();

    let result = bc.apply_transaction(&tx1);

    println!("{:?}", result);
    assert_eq!(result, Err(TransferError::SenderNotWritable));
    assert_eq!(bc.accounts.get(&public_key_from).unwrap().coins, 1000);
}

#[test]
fn test_apply_without_receiver_in_accounts() {
    let (_, notebook_program_id) = generate_keypair();
    let (_, faucet_program_id) = generate_keypair();
    let (secret_key_from, public_key_from) = generate_keypair();
    let (_, public_key_to) = generate_keypair();
    let (_, dummy_program_1) = generate_keypair();

    let diff = 4;

    let mut accounts = KeyMap::new();
    accounts.insert(
        public_key_from,
        Account {
            coins: 1000,
            data: vec![],
            owner: public_key_from,
            executable: false,
        },
    );

    accounts.insert(
        public_key_to,
        Account {
            coins: 0,
            data: vec![],
            owner: public_key_to,
            executable: false,
        },
    );

    let mut bc = Blockchain {
        accounts,
        difficulty: diff,
        vec: vec![],
        mempool: vec![],
        faucet_program_id,
        notebook_program_id,
        distributor_program_id: faucet_program_id,
        nonces: KeyMap::new(),
    };

    let transaction_accounts = vec![AccountMeta {
        pubkey: public_key_from,
        is_signer: true,
        is_writable: true,
    }];

    let tx1 = sign_transaction(
        dummy_program_1,
        public_key_to,
        50,
        vec![],
        &secret_key_from,
        0,
        0,
        transaction_accounts,
    )
    .unwrap();

    let result = bc.apply_transaction(&tx1);
    println!("{:?}", result);

    assert_eq!(result, Err(TransferError::ReceiverNotWritable));

    assert_eq!(bc.accounts.get(&public_key_from).unwrap().coins, 1000);

    assert_eq!(bc.accounts.get(&public_key_to).unwrap().coins, 0);
}

#[test]
fn test_simple_transfer_with_accounts_list() {
    let (secret_key_from, public_key_from) = generate_keypair();
    let (_, public_key_to) = generate_keypair();

    let (_, dummy_program_1) = generate_keypair();
    let (_, dummy_program_2) = generate_keypair();

    let mut accounts_db = KeyMap::new();
    accounts_db.insert(
        public_key_from,
        Account {
            coins: 1000,
            data: vec![],
            owner: public_key_from,
            executable: false,
        },
    );

    let mut bc = Blockchain {
        accounts: accounts_db,
        difficulty: 2,
        vec: vec![],
        mempool: vec![],
        faucet_program_id: dummy_program_1,
        notebook_program_id: dummy_program_2,
        distributor_program_id: dummy_program_1,
        nonces: KeyMap::new(),
    };

    let tx_accounts = vec![
        AccountMeta {
            pubkey: public_key_from,
            is_signer: true,
            is_writable: true,
        },
        AccountMeta {
            pubkey: public_key_to,
            is_signer: false,
            is_writable: true,
        },
    ];

    let tx = sign_transaction(
        dummy_program_1,
        public_key_to,
        100,
        vec![],
        &secret_key_from,
        0,
        0,
        tx_accounts,
    )
    .unwrap();

    let result = bc.apply_transaction(&tx);
    println!("{:?}", result);
    assert!(result.is_ok(), "the transfer must succeed");
    assert_eq!(bc.accounts.get(&public_key_from).unwrap().coins, 900);
    assert_eq!(bc.accounts.get(&public_key_to).unwrap().coins, 100);
}

fn distributor_chain(
    distributor_program_id: simple_blockchain::PublicKey,
    payer: simple_blockchain::PublicKey,
    payer_coins: u64,
    receivers: &[simple_blockchain::PublicKey],
) -> Blockchain {
    let (_, dummy_program_1) = generate_keypair();
    let (_, dummy_program_2) = generate_keypair();
    let mut accounts_db = KeyMap::new();
    accounts_db.insert(
        payer,
        Account {
            coins: payer_coins,
            data: vec![],
            owner: payer,
            executable: false,
        },
    );
    for r in receivers {
        accounts_db.insert(
            *r,
            Account {
                coins: 0,
                data: vec![],
                owner: *r,
                executable: false,
            },
        );
    }
    let mut bc = Blockchain {
        accounts: accounts_db,
        difficulty: 2,
        vec: vec![],
        mempool: vec![],
        faucet_program_id: dummy_program_1,
        notebook_program_id: dummy_program_2,
        distributor_program_id,
        nonces: KeyMap::new(),
    };
    bc.deploy_program(distributor_program_id, vec![]);
    bc
}

fn thirty_twenty_fifty() -> Vec<u8> {
    let mut instruction_data = vec![];
    instruction_data.extend_from_slice(&30u64.to_le_bytes());
    instruction_data.extend_from_slice(&20u64.to_le_bytes());
    instruction_data.extend_from_slice(&50u64.to_le_bytes());
    instruction_data
}

fn meta(pubkey: simple_blockchain::PublicKey, is_signer: bool, is_writable: bool) -> AccountMeta {
    AccountMeta {
        pubkey,
        is_signer,
        is_writable,
    }
}

#[test]
fn test_distributor_program() {
    let (_, distributor_program_id) = generate_keypair();
    let (vasya_sk, vasya_pk) = generate_keypair();
    let (_, petya_pk) = generate_keypair();
    let (_, sasha_pk) = generate_keypair();
    let (_, masha_pk) = generate_keypair();

    let mut bc = distributor_chain(
        distributor_program_id,
        vasya_pk,
        1000,
        &[petya_pk, sasha_pk, masha_pk],
    );

    let tx_accounts = vec![
        meta(vasya_pk, true, true),
        meta(petya_pk, false, true),
        meta(sasha_pk, false, true),
        meta(masha_pk, false, true),
    ];

    let tx = sign_transaction(
        distributor_program_id,
        vasya_pk,
        0,
        thirty_twenty_fifty(),
        &vasya_sk,
        0,
        0,
        tx_accounts,
    )
    .unwrap();

    let result = bc.apply_transaction(&tx);
    assert!(result.is_ok(), "the transaction must succeed: {:?}", result);

    assert_eq!(bc.accounts.get(&vasya_pk).unwrap().coins, 900);
    assert_eq!(bc.accounts.get(&petya_pk).unwrap().coins, 30);
    assert_eq!(bc.accounts.get(&sasha_pk).unwrap().coins, 20);
    assert_eq!(bc.accounts.get(&masha_pk).unwrap().coins, 50);
}

#[test]
fn test_distributor_insufficient_funds_is_atomic() {
    let (_, distributor_program_id) = generate_keypair();
    let (vasya_sk, vasya_pk) = generate_keypair();
    let (_, petya_pk) = generate_keypair();
    let (_, sasha_pk) = generate_keypair();
    let (_, masha_pk) = generate_keypair();

    let mut bc = distributor_chain(
        distributor_program_id,
        vasya_pk,
        99,
        &[petya_pk, sasha_pk, masha_pk],
    );

    let tx_accounts = vec![
        meta(vasya_pk, true, true),
        meta(petya_pk, false, true),
        meta(sasha_pk, false, true),
        meta(masha_pk, false, true),
    ];

    let tx = sign_transaction(
        distributor_program_id,
        vasya_pk,
        0,
        thirty_twenty_fifty(),
        &vasya_sk,
        0,
        0,
        tx_accounts,
    )
    .unwrap();

    let _result = bc.apply_transaction(&tx);

    assert_eq!(bc.accounts.get(&vasya_pk).unwrap().coins, 99);
    assert_eq!(bc.accounts.get(&petya_pk).unwrap().coins, 0);
    assert_eq!(bc.accounts.get(&sasha_pk).unwrap().coins, 0);
    assert_eq!(bc.accounts.get(&masha_pk).unwrap().coins, 0);
}

#[test]
fn test_distributor_requires_four_accounts() {
    let (_, distributor_program_id) = generate_keypair();
    let (vasya_sk, vasya_pk) = generate_keypair();
    let (_, petya_pk) = generate_keypair();
    let (_, sasha_pk) = generate_keypair();
    let (_, masha_pk) = generate_keypair();

    let mut bc = distributor_chain(
        distributor_program_id,
        vasya_pk,
        99,
        &[petya_pk, sasha_pk, masha_pk],
    );

    let tx_accounts = vec![
        meta(vasya_pk, true, true),
        meta(petya_pk, false, true),
        meta(sasha_pk, false, true),
    ];

    let tx = sign_transaction(
        distributor_program_id,
        vasya_pk,
        0,
        thirty_twenty_fifty(),
        &vasya_sk,
        0,
        0,
        tx_accounts,
    )
    .unwrap();

    let _result = bc.apply_transaction(&tx);

    assert_eq!(bc.accounts.get(&vasya_pk).unwrap().coins, 99);
    assert_eq!(bc.accounts.get(&petya_pk).unwrap().coins, 0);
    assert_eq!(bc.accounts.get(&sasha_pk).unwrap().coins, 0);
    assert_eq!(bc.accounts.get(&masha_pk).unwrap().coins, 0);
}

#[test]
fn test_distributor_rejects_readonly_receiver() {
    let (_, distributor_program_id) = generate_keypair();
    let (vasya_sk, vasya_pk) = generate_keypair();
    let (_, petya_pk) = generate_keypair();
    let (_, sasha_pk) = generate_keypair();
    let (_, masha_pk) = generate_keypair();

    let mut bc = distributor_chain(
        distributor_program_id,
        vasya_pk,
        1000,
        &[petya_pk, sasha_pk, masha_pk],
    );

    let tx_accounts = vec![
        meta(vasya_pk, true, true),
        meta(petya_pk, false, true),
        meta(sasha_pk, false, false),
        meta(masha_pk, false, true),
    ];

    let tx = sign_transaction(
        distributor_program_id,
        vasya_pk,
        0,
        thirty_twenty_fifty(),
        &vasya_sk,
        0,
        0,
        tx_accounts,
    )
    .unwrap();

    let result = bc.apply_transaction(&tx);
    assert!(result.is_ok(), "the transaction must succeed: {:?}", result);

    assert_eq!(bc.accounts.get(&vasya_pk).unwrap().coins, 1000);
    assert_eq!(bc.accounts.get(&petya_pk).unwrap().coins, 0);
    assert_eq!(bc.accounts.get(&sasha_pk).unwrap().coins, 0);
    assert_eq!(bc.accounts.get(&masha_pk).unwrap().coins, 0);
}
