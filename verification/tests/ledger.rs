use blockchainlib::block::{Block, Seal};
use blockchainlib::blockchain::Blockchain;
use blockchainlib::consensus::Consensus;
use blockchainlib::digest::Hashable;
use blockchainlib::error::BlockValidationErr;
use blockchainlib::keys::Pubkey;
use blockchainlib::pubkey_map::PubkeyMap;
use blockchainlib::transaction::{Input, Output, Transaction};
use blockchainlib::work::Difficulty;

const EASY: Difficulty = Difficulty::Target(0x0fff_ffff_ffff_ffff_ffff_ffff_ffff_ffff);

fn work() -> Consensus {
    Consensus::ProofOfWork(EASY)
}

fn output(to: &str, value: u64) -> Output {
    Output { to_addr: to.to_string(), value }
}

fn coinbase(to: &str, value: u64) -> Transaction {
    Transaction { inputs: vec![], outputs: vec![output(to, value)] }
}

fn spend(of: &Transaction, index: usize, outputs: Vec<Output>) -> Transaction {
    let spent = &of.outputs[index];
    Transaction {
        inputs: vec![Input {
            output: output(&spent.to_addr, spent.value),
            txid: of.txid(),
            index,
        }],
        outputs,
    }
}

fn sealed_work_block(
    index: u64,
    timestamp: u128,
    parent: blockchainlib::digest::Hash,
    transactions: Vec<Transaction>,
) -> Block {
    let mut block = Block::new(
        index,
        0,
        timestamp,
        parent,
        PubkeyMap::new(),
        transactions,
        Seal::Work { nonce: 0 },
    );
    assert!(work().seal(&mut block));
    block
}

fn genesis_paying_x() -> (Block, Transaction) {
    let tx = coinbase("X", 50);
    let copy = coinbase("X", 50);
    (sealed_work_block(0, 1_000, blockchainlib::digest::Hash::zero(), vec![tx]), copy)
}

fn ledger_with_genesis() -> (Blockchain, Transaction) {
    let mut ledger = Blockchain::new(work());
    let (genesis, tx) = genesis_paying_x();
    assert_eq!(ledger.update_with_block(genesis), Ok(()));
    (ledger, tx)
}

fn block_one(ledger: &Blockchain, genesis_tx: &Transaction) -> (Block, Transaction) {
    let pay = spend(genesis_tx, 0, vec![output("Alice", 36), output("Bob", 12)]);
    let copy = spend(genesis_tx, 0, vec![output("Alice", 36), output("Bob", 12)]);
    let parent = ledger.block(ledger.len() - 1).hash;
    let block = sealed_work_block(ledger.len() as u64, 2_000, parent, vec![coinbase("miner", 2), pay]);
    (block, copy)
}

#[test]
fn genesis_with_one_coinbase_output_gives_its_balance() {
    let (ledger, tx) = ledger_with_genesis();
    assert_eq!(ledger.len(), 1);
    assert_eq!(ledger.utxo_set().get_balance(), 50);
    assert_eq!(ledger.utxo_set().value_of(&tx.txid(), 0), Some(50));
}

#[test]
fn spending_the_genesis_output_leaves_the_payments_unspent() {
    let (mut ledger, genesis_tx) = ledger_with_genesis();
    let (block, pay) = block_one(&ledger, &genesis_tx);
    assert_eq!(ledger.update_with_block(block), Ok(()));
    assert_eq!(ledger.len(), 2);
    let utxos = ledger.utxo_set();
    assert!(!utxos.contains(&genesis_tx.txid(), 0));
    assert_eq!(utxos.value_of(&pay.txid(), 0), Some(36));
    assert_eq!(utxos.value_of(&pay.txid(), 1), Some(12));
    let paid = utxos.value_of(&pay.txid(), 0).unwrap() + utxos.value_of(&pay.txid(), 1).unwrap();
    assert_eq!(paid, 48);
    // The coinbase output that covers the fee of 2 is unspent too.
    assert_eq!(utxos.value_of(&coinbase("miner", 2).txid(), 0), Some(2));
    assert_eq!(utxos.get_balance(), 48 + 2);
    assert_eq!(utxos.len(), 3);
}

#[test]
fn spending_a_spent_key_again_is_a_double_spend() {
    let (mut ledger, genesis_tx) = ledger_with_genesis();
    let (block, _) = block_one(&ledger, &genesis_tx);
    assert_eq!(ledger.update_with_block(block), Ok(()));
    let again = spend(&genesis_tx, 0, vec![output("Carol", 50)]);
    let parent = ledger.block(1).hash;
    let block = sealed_work_block(2, 3_000, parent, vec![coinbase("miner", 0), again]);
    assert_eq!(ledger.update_with_block(block), Err(BlockValidationErr::DoubleSpend));
    assert_eq!(ledger.len(), 2);
    assert_eq!(ledger.utxo_set().get_balance(), 50);
}

fn key(b: u8) -> Pubkey {
    Pubkey::new([b; 32])
}

fn stake_block(index: u64, timestamp: u128, parent: blockchainlib::digest::Hash, rewards: &[(u8, u64)]) -> Block {
    let mut map: PubkeyMap<u64> = PubkeyMap::new();
    for (k, v) in rewards {
        map.insert(key(*k), *v);
    }
    let mut block = Block::new(
        index,
        0,
        timestamp,
        parent,
        map,
        vec![],
        Seal::Stake { working_stake: 0, total_stake: 0, block_height: index },
    );
    assert!(Consensus::StakeAndHistory.seal(&mut block));
    block
}

fn stake_ledger() -> Blockchain {
    let mut ledger = Blockchain::new(Consensus::StakeAndHistory);
    let genesis = stake_block(0, 100, blockchainlib::digest::Hash::zero(), &[(1, 10), (2, 5)]);
    assert_eq!(ledger.add_block(genesis), Ok(()));
    ledger
}

#[test]
fn timestamp_not_after_the_parent_is_achronological() {
    let mut ledger = stake_ledger();
    let parent = ledger.block(0).hash;
    let same_time = stake_block(1, 100, parent, &[(1, 10), (2, 5)]);
    assert_eq!(
        ledger.update_with_block(same_time),
        Err(BlockValidationErr::AchronologicalTimestamp)
    );
    let earlier = stake_block(1, 99, parent, &[(1, 10), (2, 5)]);
    assert_eq!(ledger.update_with_block(earlier), Err(BlockValidationErr::AchronologicalTimestamp));
    assert_eq!(ledger.len(), 1);
    assert_eq!(ledger.get_balance(key(1)), 10);
    assert_eq!(ledger.get_balance(key(2)), 5);
    assert_eq!(ledger.get_balance(key(3)), 0);
}

#[test]
fn wrong_parent_hash_is_refused() {
    let (mut ledger, _) = ledger_with_genesis();
    let wrong = blockchainlib::digest::Hash([7u8; 32]);
    let block = sealed_work_block(1, 2_000, wrong, vec![coinbase("miner", 1)]);
    assert_eq!(ledger.update_with_block(block), Err(BlockValidationErr::MismatchedParentHash));
    assert_eq!(ledger.len(), 1);

    let mut staked = stake_ledger();
    let block = stake_block(1, 200, wrong, &[(1, 10), (2, 5)]);
    assert_eq!(staked.update_with_block(block), Err(BlockValidationErr::MismatchedParentHash));
}

#[test]
fn committed_blocks_keep_their_hash_their_link_and_their_root() {
    let (mut ledger, genesis_tx) = ledger_with_genesis();
    let (block, _) = block_one(&ledger, &genesis_tx);
    assert_eq!(ledger.update_with_block(block), Ok(()));
    for i in 0..ledger.len() {
        let b = ledger.block(i);
        assert_eq!(b.index, i as u64);
        assert!(b.hash_valid());
        assert!(b.root_valid());
        assert_eq!(b.hash().0, b.hash.0);
        if i == 0 {
            assert!(b.prev_block_hash.is_zero());
        } else {
            assert_eq!(b.prev_block_hash.0, ledger.block(i - 1).hash.0);
        }
    }
}

#[test]
fn mismatched_index_is_refused_first() {
    let mut ledger = Blockchain::new(work());
    let block = sealed_work_block(1, 1_000, blockchainlib::digest::Hash::zero(), vec![coinbase("X", 50)]);
    assert_eq!(ledger.update_with_block(block), Err(BlockValidationErr::MismatchedIndex));
    assert_eq!(ledger.len(), 0);
}

#[test]
fn unsealed_or_altered_block_fails_the_consensus_check() {
    let mut ledger = Blockchain::new(work());
    let unsealed = Block::new(
        0,
        0,
        1_000,
        blockchainlib::digest::Hash::zero(),
        PubkeyMap::new(),
        vec![coinbase("X", 50)],
        Seal::Work { nonce: 0 },
    );
    assert_eq!(ledger.validate(&unsealed), Err(BlockValidationErr::ConsensusCheckFailed));
    let (mut altered, _) = genesis_paying_x();
    altered.timestamp = 1_001;
    assert_eq!(ledger.update_with_block(altered), Err(BlockValidationErr::ConsensusCheckFailed));
    // A seal of the other consensus rule is refused as well.
    let staked = stake_block(0, 100, blockchainlib::digest::Hash::zero(), &[]);
    assert_eq!(ledger.update_with_block(staked), Err(BlockValidationErr::ConsensusCheckFailed));
    assert_eq!(ledger.len(), 0);
}

#[test]
fn proof_of_work_time_may_stand_still_but_not_run_back() {
    let (mut ledger, _) = ledger_with_genesis();
    let parent = ledger.block(0).hash;
    let back = sealed_work_block(1, 999, parent, vec![coinbase("miner", 1)]);
    assert_eq!(ledger.update_with_block(back), Err(BlockValidationErr::AchronologicalTimestamp));
    let still = sealed_work_block(1, 1_000, parent, vec![coinbase("miner", 1)]);
    assert_eq!(ledger.update_with_block(still), Ok(()));
}

#[test]
fn genesis_must_name_the_zero_sentinel() {
    let mut ledger = Blockchain::new(work());
    let block = sealed_work_block(0, 1_000, blockchainlib::digest::Hash([1u8; 32]), vec![coinbase("X", 50)]);
    assert_eq!(ledger.update_with_block(block), Err(BlockValidationErr::InvalidGenesisFormat));
}

#[test]
fn stored_merkle_root_must_be_that_of_the_payload() {
    let mut ledger = Blockchain::new(work());
    let mut block = Block::new(
        0,
        0,
        1_000,
        blockchainlib::digest::Hash::zero(),
        PubkeyMap::new(),
        vec![coinbase("X", 50)],
        Seal::Work { nonce: 0 },
    );
    block.merkle_root = blockchainlib::digest::Hash([9u8; 32]);
    assert!(work().seal(&mut block));
    assert_eq!(ledger.update_with_block(block), Err(BlockValidationErr::InvalidMerkleRoot));
}

#[test]
fn payload_must_start_with_the_only_coinbase() {
    let (mut ledger, genesis_tx) = ledger_with_genesis();
    let parent = ledger.block(0).hash;
    let empty = sealed_work_block(1, 2_000, parent, vec![]);
    assert_eq!(ledger.update_with_block(empty), Err(BlockValidationErr::InvalidCoinbase));
    let no_coinbase = sealed_work_block(1, 2_000, parent, vec![spend(&genesis_tx, 0, vec![output("A", 50)])]);
    assert_eq!(ledger.update_with_block(no_coinbase), Err(BlockValidationErr::InvalidCoinbase));
    let two = sealed_work_block(1, 2_000, parent, vec![coinbase("m", 1), coinbase("n", 1)]);
    assert_eq!(ledger.update_with_block(two), Err(BlockValidationErr::InvalidCoinbase));
    let fee_not_covered = sealed_work_block(
        1,
        2_000,
        parent,
        vec![coinbase("m", 1), spend(&genesis_tx, 0, vec![output("A", 48)])],
    );
    assert_eq!(ledger.update_with_block(fee_not_covered), Err(BlockValidationErr::InvalidCoinbase));
    assert_eq!(ledger.len(), 1);
    assert_eq!(ledger.utxo_set().get_balance(), 50);
}

#[test]
fn paying_out_more_than_taken_in_is_refused() {
    let (mut ledger, genesis_tx) = ledger_with_genesis();
    let parent = ledger.block(0).hash;
    let block = sealed_work_block(
        1,
        2_000,
        parent,
        vec![coinbase("m", 1), spend(&genesis_tx, 0, vec![output("A", 51)])],
    );
    assert_eq!(ledger.update_with_block(block), Err(BlockValidationErr::InsufficientInputValue));
    assert_eq!(ledger.utxo_set().get_balance(), 50);
}

#[test]
fn one_key_cannot_be_spent_twice_in_one_block() {
    let (mut ledger, genesis_tx) = ledger_with_genesis();
    let parent = ledger.block(0).hash;
    let block = sealed_work_block(
        1,
        2_000,
        parent,
        vec![
            coinbase("m", 0),
            spend(&genesis_tx, 0, vec![output("A", 50)]),
            spend(&genesis_tx, 0, vec![output("B", 50)]),
        ],
    );
    assert_eq!(ledger.update_with_block(block), Err(BlockValidationErr::DoubleSpend));
    assert_eq!(ledger.len(), 1);
    assert!(ledger.utxo_set().contains(&genesis_tx.txid(), 0));
}

#[test]
fn stake_majority_decides() {
    let mut ledger = stake_ledger();
    let parent = ledger.block(0).hash;
    // Identities 3 and 4 held nothing before: working stake 0 of 20 declared.
    let strangers = stake_block(1, 200, parent, &[(3, 10), (4, 10)]);
    assert_eq!(ledger.update_with_block(strangers), Err(BlockValidationErr::ConsensusCheckFailed));
    // Identity 1 held 10: working stake 10 of 20 declared is no majority.
    let half = stake_block(1, 200, parent, &[(1, 10), (3, 10)]);
    assert_eq!(ledger.update_with_block(half), Err(BlockValidationErr::ConsensusCheckFailed));
    // Identities 1 and 2 held 15: working stake 15 of 29 declared is one.
    let majority = stake_block(1, 200, parent, &[(1, 4), (2, 5), (3, 20)]);
    assert_eq!(ledger.update_with_block(majority), Ok(()));
    assert_eq!(ledger.len(), 2);
    assert_eq!(ledger.get_balance(key(1)), 14);
    assert_eq!(ledger.get_balance(key(2)), 10);
    assert_eq!(ledger.get_balance(key(3)), 20);
}

#[test]
fn verify_poh_and_pos_on_their_own() {
    let ledger = stake_ledger();
    let parent = ledger.block(0);
    let next = stake_block(1, 101, parent.hash, &[(1, 10)]);
    assert!(next.verify_poh(parent));
    assert!(next.verify_pos(parent));
    let late = stake_block(1, 100, parent.hash, &[(1, 10)]);
    assert!(!late.verify_poh(parent));
    let mut altered = stake_block(1, 101, parent.hash, &[(1, 10)]);
    altered.is_confirmed = true;
    assert!(!altered.verify_poh(parent));
    let minority = stake_block(1, 101, parent.hash, &[(2, 11)]);
    assert!(!minority.verify_pos(parent));
    assert_eq!(
        Consensus::StakeAndHistory.verify(&next, Some(parent)),
        Ok(())
    );
    assert_eq!(
        Consensus::StakeAndHistory.verify(&late, Some(parent)),
        Err(BlockValidationErr::AchronologicalTimestamp)
    );
}

#[test]
fn mining_keeps_the_first_nonce_that_meets_the_target() {
    let target = Difficulty::Target(0x00ff_ffff_ffff_ffff_ffff_ffff_ffff_ffff);
    let mut block = Block::new(
        0,
        0,
        5,
        blockchainlib::digest::Hash::zero(),
        PubkeyMap::new(),
        vec![coinbase("X", 50)],
        Seal::Work { nonce: 0 },
    );
    assert!(block.mine(&target));
    let found = match block.seal {
        Seal::Work { nonce } => nonce,
        _ => panic!("a mined block carries a proof-of-work seal"),
    };
    assert!(block.hash_valid());
    assert!(blockchainlib::work::check_seal(&target, &block.hash));
    let mut probe = Block::new(
        0,
        0,
        5,
        blockchainlib::digest::Hash::zero(),
        PubkeyMap::new(),
        vec![coinbase("X", 50)],
        Seal::Work { nonce: 0 },
    );
    for nonce in 0..found {
        assert!(!probe.try_nonce(nonce, &target));
    }
    assert!(probe.try_nonce(found, &target));
    assert_eq!(probe.hash.0, block.hash.0);
}

#[test]
fn spawned_block_is_accepted_once_sealed() {
    let (mut ledger, genesis_tx) = ledger_with_genesis();
    let sender = "X".to_string();
    let recipient = "Alice".to_string();
    let mut block = ledger.spawn_block_at(2_000, &sender, &recipient, 36).unwrap();
    assert_eq!(block.index, 1);
    assert_eq!(block.transactions.len(), 2);
    assert_eq!(block.transactions[0].outputs[0].to_addr, "coinbase_miner");
    assert_eq!(block.transactions[0].outputs[0].value, 7);
    let pay = &block.transactions[1];
    assert_eq!(pay.inputs.len(), 1);
    assert_eq!(pay.inputs[0].txid, genesis_tx.txid());
    assert_eq!(pay.inputs[0].index, 0);
    assert_eq!(pay.outputs.len(), 2);
    assert_eq!((pay.outputs[0].to_addr.as_str(), pay.outputs[0].value), ("Alice", 36));
    assert_eq!((pay.outputs[1].to_addr.as_str(), pay.outputs[1].value), ("X", 14));
    assert!(work().seal(&mut block));
    assert_eq!(ledger.update_with_block(block), Ok(()));
    assert_eq!(ledger.utxo_set().get_balance(), 57);
    assert_eq!(
        ledger.spawn_block_at(3_000, &sender, &recipient, 58).err(),
        Some(BlockValidationErr::InsufficientFunds)
    );
    let now = ledger.spawn_block(&sender, &recipient, 57).unwrap();
    assert_eq!(now.transactions.len(), 4);
}

#[test]
fn mining_can_be_done_range_by_range() {
    let target = Difficulty::Target(0x00ff_ffff_ffff_ffff_ffff_ffff_ffff_ffff);
    let fresh = || {
        Block::new(
            0,
            0,
            5,
            blockchainlib::digest::Hash::zero(),
            PubkeyMap::new(),
            vec![coinbase("X", 50)],
            Seal::Work { nonce: 0 },
        )
    };
    let mut whole = fresh();
    assert!(whole.mine(&target));
    let mut block = fresh();
    assert!(!block.mine_between(&target, 7, 7));
    assert!(block.hash.is_zero());
    let mut from: u64 = 0;
    let mut rounds = 0;
    while !block.mine_between(&target, from, from + 16) {
        assert!(block.hash.is_zero());
        from += 16;
        rounds += 1;
        assert!(rounds < 10_000);
    }
    assert!(block.seal == whole.seal);
    assert!(block.hash == whole.hash);
    // Nothing meets a target of zero.
    let mut hopeless = fresh();
    assert!(!hopeless.mine_between(&Difficulty::Target(0), 0, 100));
    assert!(hopeless.seal == Seal::Work { nonce: 99 });
}
