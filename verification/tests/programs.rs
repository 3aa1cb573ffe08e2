use blockchainlib::account::{Account, AccountSet};
use blockchainlib::block::{Block, Seal};
use blockchainlib::blockchain::Blockchain;
use blockchainlib::consensus::Consensus;
use blockchainlib::database::{forgets, give_up_count, pick_least_used, Database};
use blockchainlib::digest::{digest, Hashable};
use blockchainlib::error::BlockValidationErr;
use blockchainlib::keys::{EncodedPubkey, Pubkey, Signature};
use blockchainlib::message::{CompiledInstruction, Message, MessageHeader, Transaction};
use blockchainlib::nodes::{apply_update, classify_request, parse_set_node, Cluster, Node, Request};
use blockchainlib::pubkey_map::PubkeyMap;
use blockchainlib::rate_limiter::RateLimiter;
use blockchainlib::repl::{
    is_human_answer, keypair_pubkey, menu_choice, parse_keypair, read_answer, Answer, MenuChoice,
    ReplError,
};
use blockchainlib::shardable::{bytes_equal, merge_accounts_into_shards, MemoryShard, ShardDB};
use blockchainlib::shardpath::{ShardConfig, ShardPath};
use blockchainlib::signature::{verify, Privatekey, SignatureError};
use blockchainlib::sys::{create_essential_id, Sys};
use std::time::Duration;

fn key(b: u8) -> Pubkey {
    Pubkey::new([b; 32])
}

#[test]
fn limiter_counts_requesters_within_the_frame() {
    let mut limiter = RateLimiter::with_nanos(2, 100);
    assert!(limiter.check_rate_at("a".to_string(), 0));
    assert!(limiter.check_rate_at("b".to_string(), 10));
    assert_eq!(limiter.len(), 2);
    assert!(!limiter.check_rate_at("c".to_string(), 20));
    assert!(!limiter.check_rate_at("a".to_string(), 99));
    assert_eq!(limiter.len(), 2);
    // At 100 the admission of time 0 is as old as the frame and forgotten.
    assert!(limiter.check_rate_at("c".to_string(), 100));
    assert_eq!(limiter.len(), 2);
    assert!(!limiter.check_rate_at("d".to_string(), 105));
    // A clock that shows less than an admission counts no time for it.
    assert!(!limiter.check_rate_at("d".to_string(), 5));
    assert!(limiter.check_rate_at("d".to_string(), 1_000));
    assert_eq!(limiter.len(), 1);
    // An admitted requester that asks again keeps one place.
    assert!(limiter.check_rate_at("d".to_string(), 1_001));
    assert_eq!(limiter.len(), 1);
    let mut none = RateLimiter::with_nanos(0, 100);
    assert!(!none.check_rate_at("a".to_string(), 0));
}

#[test]
fn limiter_reads_its_own_clock() {
    let mut limiter = RateLimiter::new(1, Duration::from_secs(3_600));
    assert!(limiter.check_rate("a".to_string()));
    assert!(!limiter.check_rate("b".to_string()));
    let mut passing = RateLimiter::new(1, Duration::from_nanos(0));
    assert!(passing.check_rate("a".to_string()));
    assert!(passing.check_rate("b".to_string()));
}

fn config(count: u16) -> ShardConfig {
    ShardConfig { shard_prefix: "shard_".to_string(), num_shards_per_path: count, shard_size: 25_000_000 }
}

#[test]
fn shard_index_puts_every_shard_on_the_ring() {
    let paths = vec!["/data/a".to_string(), "/data/b".to_string()];
    let mut index = ShardPath::new(&paths, &config(3));
    assert_eq!(index.ring().len(), 2 * 3 * 100);
    let node = index.ring().get_node("account").unwrap();
    assert!(node.starts_with("/data/a/shards/shard_00") || node.starts_with("/data/b/shards/shard_00"));
    assert_eq!(node.len(), "/data/a/shards/shard_000".len());
    assert_eq!(index.get_shard(&[1, 2, 3]), None);
    index.index_shards(None, &config(3));
    assert_eq!(index.ring().len(), 600);
    let single = vec!["/data/c".to_string()];
    index.index_shards(Some(&single), &config(1));
    assert_eq!(index.ring().len(), 100);
    assert_eq!(index.ring().get_node("x"), Some("/data/c/shards/shard_000".to_string()));
    let again = vec!["/p".to_string(), "/q".to_string(), "/p".to_string()];
    let rebuilt = index.rebuild_path(Some(again), &config(2));
    assert_eq!(rebuilt.ring().len(), 400);
    assert_eq!(index.ring().len(), 100);
    assert_eq!(index.rebuild_path(None, &config(2)).ring().len(), 0);
}

#[test]
fn shard_numbers_have_three_digits() {
    let paths = vec!["r".to_string()];
    let index = ShardPath::new(&paths, &config(120));
    let mut names = std::collections::BTreeSet::new();
    for probe in 0..5_000u32 {
        names.insert(index.ring().get_node(&probe.to_string()).unwrap());
    }
    assert!(names.contains("r/shards/shard_007") || names.len() < 120);
    for name in &names {
        assert_eq!(name.len(), "r/shards/shard_000".len());
    }
    assert!(names.iter().any(|n| n.ends_with("_119") || n.ends_with("_100") || n.ends_with("_110")) || names.len() < 60);
}

#[test]
fn memory_shard_reads_what_was_written_last() {
    let mut db = MemoryShard::new();
    assert_eq!(db.read(b"k"), None);
    db.write(b"k", b"one");
    db.write(b"other", b"x");
    db.write(b"k", b"two");
    assert_eq!(db.read(b"k"), Some(b"two".to_vec()));
    assert_eq!(db.read(b"other"), Some(b"x".to_vec()));
    assert_eq!(db.read(b""), None);
    let mut opened = MemoryShard::open("anywhere");
    merge_accounts_into_shards(
        vec![(vec![1], vec![10]), (vec![2], vec![20]), (vec![1], vec![11])],
        &mut opened,
    );
    assert_eq!(opened.read(&[1]), Some(vec![11]));
    assert_eq!(opened.read(&[2]), Some(vec![20]));
    assert_eq!(opened.read(&[3]), None);
    assert!(bytes_equal(b"ab", b"ab"));
    assert!(!bytes_equal(b"ab", b"ac"));
    assert!(!bytes_equal(b"ab", b"abc"));
}

#[test]
fn database_tells_missing_from_existing_accounts() {
    let mut database = Database::new(MemoryShard::new());
    assert_eq!(
        database.get(&[1, 20, 255]),
        Err("Error: The [1, 20, 255] account ID does not exist".to_string())
    );
    assert_eq!(database.get(&[]), Err("Error: The [] account ID does not exist".to_string()));
    assert_eq!(
        database.update(&[7], b"v"),
        Err("Error: The [7] account ID is not exist".to_string())
    );
    assert_eq!(database.create_account(&[7], b"v"), Ok(()));
    assert_eq!(database.get(&[7]), Ok(Some(b"v".to_vec())));
    assert_eq!(
        database.create_account(&[7], b"w"),
        Err("Error: The [7] account ID already exists".to_string())
    );
    assert_eq!(database.get(&[7]), Ok(Some(b"v".to_vec())));
    assert_eq!(database.update(&[7], b"w"), Ok(()));
    assert_eq!(database.get(&[7]), Ok(Some(b"w".to_vec())));
}

#[test]
fn pool_gives_up_the_least_used_quarter() {
    assert_eq!(give_up_count(0), 1);
    assert_eq!(give_up_count(3), 1);
    assert_eq!(give_up_count(4), 1);
    assert_eq!(give_up_count(8), 2);
    assert_eq!(give_up_count(11), 2);
    assert_eq!(pick_least_used(&vec![]), Vec::<usize>::new());
    assert_eq!(pick_least_used(&vec![5, 3, 9]), vec![1]);
    assert_eq!(pick_least_used(&vec![5, 3, 9, 3, 8, 1, 7, 6]), vec![5, 1]);
    assert_eq!(pick_least_used(&vec![2, 2, 2, 2, 2, 2, 2, 2, 2, 2, 2, 2]), vec![0, 1, 2]);
    assert!(forgets(14_400, false));
    assert!(!forgets(14_399, false));
    assert!(!forgets(20_000, true));
}

#[test]
fn system_program_keeps_program_accounts() {
    let mut sys = Sys::with_owner(key(9), 77);
    assert_eq!(sys.program_accounts.len(), 1);
    assert_eq!(sys.program_accounts.get_ref(&key(0)).unwrap().owner.0, [9u8; 32]);
    assert_eq!(sys.current_block.index, 0);
    assert_eq!(sys.current_block.timestamp, 77);
    let id = sys.create_account(key(8), vec![1, 2], 5, true, key(4));
    assert_eq!(id.0, [4u8; 32]);
    let stored = sys.program_accounts.get_ref(&key(4)).unwrap();
    assert_eq!((stored.lamports, stored.data.clone(), stored.executable), (5, vec![1, 2], true));
    let (token, mint) = create_essential_id(&mut sys, key(8));
    assert_eq!((token.0, mint.0), ([1u8; 32], [2u8; 32]));
    assert_eq!(sys.program_accounts.len(), 4);
    let fresh = Sys::create_sys_account().unwrap();
    assert_eq!(fresh.program_accounts.len(), 1);
    assert!(fresh.program_accounts.contains_key(&key(0)));
}

#[test]
fn system_program_produces_and_submits_blocks() {
    let mut sys = Sys::with_owner(key(9), 77);
    let mut chain = Sys::genesis();
    assert_eq!(chain.len(), 0);
    let mut block = sys.create_block_at(100);
    assert_eq!(block.index, 0);
    assert_eq!(block.parent_timestamp, 77);
    assert_eq!(block.timestamp, 100);
    assert!(block.verify_tiny_pow(0));
    assert!(block.hash.is_zero());
    // Not yet sealed: the chain refuses it and nothing changes.
    let unsealed = block.clone();
    assert_eq!(sys.update_chain(unsealed, &mut chain), Err(BlockValidationErr::ConsensusCheckFailed));
    assert_eq!(chain.len(), 0);
    assert_eq!(sys.current_block.timestamp, 77);
    assert!(Consensus::StakeAndHistory.seal(&mut block));
    let hash = block.hash;
    assert_eq!(sys.update_chain(block, &mut chain), Ok(()));
    assert_eq!(chain.len(), 1);
    assert!(sys.current_block.hash == hash);
    assert_eq!(sys.current_block.timestamp, 100);
    let next = sys.create_block();
    assert!(next.prev_block_hash == hash);
    assert_eq!(next.parent_timestamp, 100);
}

#[test]
fn account_bytes_follow_the_documented_order() {
    let plain = Account::new(1, key(7), 2, vec![0xaa, 0xbb], true, None);
    let mut expected = vec![1, 0, 0, 0, 0, 0, 0, 0];
    expected.extend_from_slice(&[7u8; 32]);
    expected.extend_from_slice(&[2, 0, 0, 0, 0, 0, 0, 0]);
    expected.extend_from_slice(&[0xaa, 0xbb, 1, 0]);
    assert_eq!(plain.bytes(), expected);
    assert!(plain.hash() == digest(&expected));
    let signed = Account::new(1, key(7), 2, vec![], false, Some(Signature([5u8; 64])));
    assert_eq!(signed.bytes().len(), 8 + 32 + 8 + 1 + 64);
    assert_eq!(signed.bytes()[48], 0);
    assert_eq!(&signed.bytes()[49..], &[5u8; 64][..]);
    let mut set = AccountSet::new();
    assert!(set.get_account(&key(7)).is_none());
    set.insert_account(key(7), plain);
    assert_eq!(set.get_account(&key(7)).unwrap().balance, 1);
    set.insert_account(key(7), signed);
    assert_eq!(set.get_account(&key(7)).unwrap().data.len(), 0);
}

#[test]
fn signed_transfer_bytes_follow_the_documented_order() {
    let message = Message {
        header: MessageHeader {
            num_required_signatures: 1,
            num_readonly_signed_accounts: 0,
            num_readonly_unsigned_accounts: 0,
        },
        account_keys: vec![key(1)],
        recent_blockhash: blockchainlib::digest::Hash([3u8; 32]),
    };
    let tx = Transaction::new(
        vec![Signature([8u8; 64]), Signature([9u8; 64])],
        key(1),
        key(2),
        0x0102,
        message,
        3,
        key(1),
        blockchainlib::digest::Hash([3u8; 32]),
        vec![CompiledInstruction { program_id_index: 0, accounts: vec![], data: vec![] }],
    );
    let mut expected = vec![8u8; 64];
    expected.extend_from_slice(&[9u8; 64]);
    expected.extend_from_slice(&[1u8; 32]);
    expected.extend_from_slice(&[2u8; 32]);
    expected.extend_from_slice(&[2, 1, 0, 0, 0, 0, 0, 0]);
    expected.extend_from_slice(&[3, 0, 0, 0, 0, 0, 0, 0]);
    expected.extend_from_slice(&[3u8; 32]);
    assert_eq!(tx.bytes(), expected);
    assert!(tx.hash() == digest(&expected));
}

#[test]
fn signatures_verify_under_their_key_only() {
    let private = Privatekey::from_seed([42u8; 32]);
    let public = private.pubkey();
    let signature = private.sign(b"message");
    assert_eq!(verify(&public.0, b"message", &signature), Ok(()));
    assert_eq!(verify(&public.0, b"massage", &signature), Err(SignatureError));
    let mut forged = signature;
    forged[0] ^= 1;
    assert_eq!(verify(&public.0, b"message", &forged), Err(SignatureError));
    let other = Privatekey::from_seed([43u8; 32]);
    assert_eq!(verify(&other.pubkey().0, b"message", &signature), Err(SignatureError));
    assert_eq!(verify(&[1, 2, 3], b"message", &signature), Err(SignatureError));
    // The same seed signs the same way.
    assert_eq!(Privatekey::from_seed([42u8; 32]).sign(b"message"), signature);
    let pair = private.keypair_bytes();
    assert_eq!(&pair[..32], &[42u8; 32][..]);
    assert_eq!(&pair[32..], &public.0[..]);
    assert!(keypair_pubkey(&pair) == public);
    let fresh = Privatekey::new();
    let signed = fresh.sign(b"m");
    assert_eq!(verify(&fresh.pubkey().0, b"m", &signed), Ok(()));
}

#[test]
fn random_identities_differ() {
    assert!(Pubkey::new_rand() != Pubkey::new_rand());
    assert!(blockchainlib::digest::Hash::new_rand() != blockchainlib::digest::Hash::new_rand());
}

fn node(id: &str, leader: bool) -> Node {
    Node {
        node_id: EncodedPubkey(id.to_string()),
        address: "127.0.0.1:1".to_string(),
        key: "k".to_string(),
        shard: "s".to_string(),
        leader,
    }
}

#[test]
fn cluster_takes_only_its_own_nodes_as_leader() {
    let mut cluster = Cluster { name: "c".to_string(), nodes: vec![node("a", false), node("b", true)], leader: None };
    assert!(cluster.get_leader().is_none());
    assert_eq!(
        cluster.set_leader(&EncodedPubkey("z".to_string())),
        Err("The specified node is not in the cluster".to_string())
    );
    assert!(cluster.leader.is_none());
    assert_eq!(cluster.set_leader(&EncodedPubkey("b".to_string())), Ok(()));
    assert_eq!(cluster.get_leader().unwrap().node_id.0, "b");
    assert!(cluster.get_leader().unwrap().leader);
    cluster.leader = Some(EncodedPubkey("gone".to_string()));
    assert!(cluster.get_leader().is_none());
}

#[test]
fn peer_requests_are_told_apart_and_read() {
    assert_eq!(classify_request(b"GET_NODE"), Request::GetNode);
    assert_eq!(classify_request(b"GET_NODE and more"), Request::GetNode);
    assert_eq!(classify_request(b"SET_NODE 1 2 3 true"), Request::SetNode);
    assert_eq!(classify_request(b"GET_NOD"), Request::Unknown);
    assert_eq!(classify_request(b" GET_NODE"), Request::Unknown);
    assert_eq!(classify_request(b""), Request::Unknown);
    let update = parse_set_node("SET_NODE 10.0.0.1:80  key\tshard true\n").unwrap();
    assert_eq!(
        (update.address.as_str(), update.key.as_str(), update.shard.as_str(), update.leader),
        ("10.0.0.1:80", "key", "shard", true)
    );
    assert!(!parse_set_node("SET_NODE a k s yes").unwrap().leader);
    assert!(!parse_set_node("SET_NODE a k s false").unwrap().leader);
    assert!(parse_set_node("SET_NODE a k s").is_none());
    assert!(parse_set_node("SET_NODE a k s true extra").is_none());
    let mut target = node("a", false);
    apply_update(&mut target, update);
    assert_eq!(target.node_id.0, "a");
    assert_eq!((target.address.as_str(), target.leader), ("10.0.0.1:80", true));
}

fn pair_text(open: &str, close: &str, separator: &str) -> String {
    let numbers: Vec<String> = (0..64u32).map(|i| (i * 4).to_string()).collect();
    format!("{}{}{}", open, numbers.join(separator), close)
}

#[test]
fn key_pairs_are_read_from_text() {
    let expected: Vec<u8> = (0..64u32).map(|i| (i * 4) as u8).collect();
    for text in [pair_text("[", "]", ", "), pair_text("", "", ","), pair_text(" [ ", " ]\n", " ,\t")] {
        assert_eq!(parse_keypair(text.as_bytes()).unwrap().to_vec(), expected);
    }
    let pair = parse_keypair(pair_text("[", "]", ",").as_bytes()).unwrap();
    assert_eq!(keypair_pubkey(&pair).0.to_vec(), expected[32..].to_vec());
    assert_eq!(parse_keypair(b"1,2,3"), Err(ReplError::InvalidConversionError));
    assert_eq!(parse_keypair(b"[1,2,3]"), Err(ReplError::InvalidConversionError));
    assert_eq!(parse_keypair(b""), Err(ReplError::ParseIntError));
    assert_eq!(parse_keypair(b"1,,2"), Err(ReplError::ParseIntError));
    assert_eq!(parse_keypair(b"1,256"), Err(ReplError::ParseIntError));
    assert_eq!(parse_keypair(b"1,x"), Err(ReplError::ParseIntError));
    // A missing closing bracket leaves the opening one in the first piece.
    assert_eq!(parse_keypair(pair_text("[", "", ",").as_bytes()), Err(ReplError::ParseIntError));
    assert_eq!(parse_keypair(pair_text("", "]", ",").as_bytes()).unwrap().to_vec(), expected);
    let long = format!("{},1", pair_text("", "", ","));
    assert_eq!(parse_keypair(long.as_bytes()), Err(ReplError::InvalidConversionError));
}

#[test]
fn prompt_answers_are_read() {
    assert_eq!(menu_choice(0), MenuChoice::Quit);
    assert_eq!(menu_choice(1), MenuChoice::LogIn);
    assert_eq!(menu_choice(2), MenuChoice::CreateWallet);
    assert_eq!(menu_choice(3), MenuChoice::Invalid);
    assert!(is_human_answer(123_456_789_012, 123_456_789_012));
    assert!(!is_human_answer(123_456_789_012, 123_456_789_013));
    assert_eq!(read_answer(&"y".to_string()), Answer::Yes);
    assert_eq!(read_answer(&"n".to_string()), Answer::No);
    assert_eq!(read_answer(&"yes".to_string()), Answer::Unclear);
    assert_eq!(ReplError::ParseError.message(), "Error parsing input");
    assert_eq!(ReplError::ParseIntError.message(), "Error parsing int input");
    assert_eq!(ReplError::KeypairError.message(), "Error creating keypair");
    assert_eq!(ReplError::InvalidConversionError.message(), "Error invalid phrase");
    assert_eq!(ReplError::HumanIdentificationError.message(), "Error identifying non-robot");
    assert_eq!(ReplError::BackToPrevious.message(), "Back to previous");
}

#[test]
fn blocks_describe_themselves() {
    let mut work = Block::new(
        3,
        0,
        1_700_000_000_000,
        blockchainlib::digest::Hash::zero(),
        PubkeyMap::new(),
        vec![],
        Seal::Work { nonce: 42 },
    );
    work.hash = blockchainlib::digest::Hash([0xabu8; 32]);
    assert_eq!(
        work.describe(),
        format!("Block[3]: {} at: 1700000000000 with: 0 nonce: 42", "ab".repeat(32))
    );
    let stake = Block::new(
        0,
        0,
        u128::MAX,
        blockchainlib::digest::Hash::zero(),
        PubkeyMap::new(),
        vec![],
        Seal::Stake { working_stake: 5, total_stake: 9, block_height: 1 },
    );
    assert_eq!(
        stake.describe(),
        format!("Block[0]: {} at: {} with: 5, total: 9", "00".repeat(32), u128::MAX)
    );
    let default = Block::default();
    assert_eq!(default.index, 0);
    assert!(default.timestamp > 1_577_836_800_000);
    let copy = stake.clone();
    assert_eq!(copy.bytes(), stake.bytes());
}

#[test]
fn block_bytes_follow_the_documented_order() {
    let mut rewards: PubkeyMap<u64> = PubkeyMap::new();
    rewards.insert(key(9), 0x0909);
    rewards.insert(key(2), 0x0202);
    let mut block = Block::new(
        0x0102,
        0x0304,
        0x0506,
        blockchainlib::digest::Hash([0x77u8; 32]),
        rewards,
        vec![],
        Seal::Stake { working_stake: 1, total_stake: 2, block_height: 3 },
    );
    block.signature = Signature([0x11u8; 64]);
    block.is_confirmed = true;
    let mut expected = vec![0x11u8; 64];
    expected.extend_from_slice(&[2, 1, 0, 0, 0, 0, 0, 0]);
    let mut wide = [0u8; 16];
    wide[0] = 4;
    wide[1] = 3;
    expected.extend_from_slice(&wide);
    wide[0] = 6;
    wide[1] = 5;
    expected.extend_from_slice(&wide);
    expected.extend_from_slice(&[0u8; 32]);
    expected.push(1);
    expected.extend_from_slice(&[0x77u8; 32]);
    expected.extend_from_slice(&[2u8; 32]);
    expected.extend_from_slice(&[2, 2, 0, 0, 0, 0, 0, 0]);
    expected.extend_from_slice(&[9u8; 32]);
    expected.extend_from_slice(&[9, 9, 0, 0, 0, 0, 0, 0]);
    expected.extend_from_slice(&[1, 0, 0, 0, 0, 0, 0, 0]);
    expected.extend_from_slice(&[2, 0, 0, 0, 0, 0, 0, 0]);
    expected.extend_from_slice(&[3, 0, 0, 0, 0, 0, 0, 0]);
    assert_eq!(block.bytes(), expected);
    block.seal_hash();
    assert!(block.hash == digest(&expected));
    block.seal = Seal::Work { nonce: 0x0a0b };
    let n = expected.len();
    expected.truncate(n - 24);
    expected.extend_from_slice(&[0x0b, 0x0a, 0, 0, 0, 0, 0, 0]);
    assert_eq!(block.bytes(), expected);
    // The stored hash is no part of the bytes.
    block.hash = blockchainlib::digest::Hash([1u8; 32]);
    assert_eq!(block.bytes(), expected);
    let mut ledger = Blockchain::new(Consensus::StakeAndHistory);
    assert_eq!(ledger.validate(&block), Err(BlockValidationErr::MismatchedIndex));
    assert_eq!(ledger.add_block(block), Err(BlockValidationErr::MismatchedIndex));
}
