use blockchainlib::decimal::{parse_u64, to_decimal};
use blockchainlib::digest::{digest, hash_to_hex, Hashable};
use blockchainlib::entrypoint::{mint_id, run, start, sys_id, token_id, ProgramError};
use blockchainlib::error::BlockValidationErr;
use blockchainlib::handler::Scanner;
use blockchainlib::keys::{EncodedPubkey, KeyOrder, Pubkey, Signature};
use blockchainlib::le_bytes::{difficulty_bytes_as_u128, u128_to_bytes, u32_to_bytes, u64_to_bytes};
use blockchainlib::merkle::merkle_root;
use blockchainlib::mint::Mint;
use blockchainlib::pubkey_map::PubkeyMap;
use blockchainlib::shardpath::ConsistentHashRing;
use blockchainlib::token::Token;
use blockchainlib::transaction::{Input, Output, Transaction};
use blockchainlib::utxo::UtxoSet;
use blockchainlib::work::{check_difficulty, check_seal, count_bits, Difficulty};

#[test]
fn integers_are_written_little_endian() {
    assert_eq!(u32_to_bytes(&0x0403_0201), [1, 2, 3, 4]);
    assert_eq!(u32_to_bytes(&u32::MAX), [255, 255, 255, 255]);
    assert_eq!(u64_to_bytes(&0x0807_0605_0403_0201), [1, 2, 3, 4, 5, 6, 7, 8]);
    assert_eq!(u64_to_bytes(&50), 50u64.to_le_bytes());
    assert_eq!(
        u128_to_bytes(&0x100f_0e0d_0c0b_0a09_0807_0605_0403_0201),
        [1, 2, 3, 4, 5, 6, 7, 8, 9, 10, 11, 12, 13, 14, 15, 16]
    );
    assert_eq!(u128_to_bytes(&u128::MAX), [255u8; 16]);
}

#[test]
fn upper_half_of_a_hash_is_read_little_endian() {
    let mut v = vec![0u8; 32];
    assert_eq!(difficulty_bytes_as_u128(&v), 0);
    v[16] = 1;
    assert_eq!(difficulty_bytes_as_u128(&v), 1);
    v[17] = 2;
    assert_eq!(difficulty_bytes_as_u128(&v), 0x0201);
    v[31] = 0x80;
    assert_eq!(difficulty_bytes_as_u128(&v), (0x80u128 << 120) | 0x0201);
    v[0] = 9;
    v[15] = 9;
    assert_eq!(difficulty_bytes_as_u128(&v), (0x80u128 << 120) | 0x0201);
    let full = [255u8; 40];
    assert_eq!(difficulty_bytes_as_u128(&full), u128::MAX);
    let n: u128 = 0x0123_4567_89ab_cdef_0011_2233_4455_6677;
    let mut w = vec![0u8; 16];
    w.extend_from_slice(&u128_to_bytes(&n));
    assert_eq!(difficulty_bytes_as_u128(&w), n);
}

#[test]
fn digest_is_sha_256() {
    assert_eq!(
        hash_to_hex(&digest(b"")),
        "e3b0c44298fc1c149afbf4c8996fb92427ae41e4649b934ca495991b7852b855"
    );
    assert_eq!(
        hash_to_hex(&digest(b"abc")),
        "ba7816bf8f01cfea414140de5dae2223b00361a396177a9cb410ff61f20015ad"
    );
    assert!(digest(b"abc") == digest(b"abc"));
    assert!(digest(b"abc") != digest(b"abd"));
}

#[test]
fn hex_text_has_two_lowercase_digits_a_byte() {
    let h = blockchainlib::digest::Hash([0xabu8; 32]);
    assert_eq!(hash_to_hex(&h), "ab".repeat(32));
    let mut bytes = [0u8; 32];
    bytes[0] = 0x0f;
    bytes[1] = 0xf0;
    bytes[31] = 0x01;
    let text = hash_to_hex(&blockchainlib::digest::Hash(bytes));
    assert_eq!(&text[..4], "0ff0");
    assert_eq!(&text[62..], "01");
    assert_eq!(text.len(), 64);
}

#[test]
fn zero_hash_is_the_sentinel() {
    let z = blockchainlib::digest::Hash::zero();
    assert_eq!(z.0, [0u8; 32]);
    assert!(z.is_zero());
    assert!(!digest(b"").is_zero());
    assert_eq!(digest(b"x").to_vec(), digest(b"x").0.to_vec());
}

fn pair(a: &blockchainlib::digest::Hash, b: &blockchainlib::digest::Hash) -> blockchainlib::digest::Hash {
    let mut joined = a.0.to_vec();
    joined.extend_from_slice(&b.0);
    digest(&joined)
}

#[test]
fn merkle_root_pairs_and_pads() {
    let a = digest(b"a");
    let b = digest(b"b");
    let c = digest(b"c");
    let d = digest(b"d");
    let e = digest(b"e");
    assert!(merkle_root(&[a]) == a);
    assert!(merkle_root(&[a, b]) == pair(&a, &b));
    assert!(merkle_root(&[a, b, c]) == pair(&pair(&a, &b), &pair(&c, &c)));
    assert!(merkle_root(&[a, b, c, d]) == pair(&pair(&a, &b), &pair(&c, &d)));
    let ee = pair(&e, &e);
    assert!(
        merkle_root(&[a, b, c, d, e]) == pair(&pair(&pair(&a, &b), &pair(&c, &d)), &pair(&ee, &ee))
    );
    assert!(merkle_root(&[a, b]) != merkle_root(&[b, a]));
}

fn output(to: &str, value: u64) -> Output {
    Output { to_addr: to.to_string(), value }
}

#[test]
fn transaction_bytes_are_inputs_then_outputs() {
    let out = output("Al", 0x0102);
    assert_eq!(out.bytes(), vec![b'A', b'l', 2, 1, 0, 0, 0, 0, 0, 0]);
    let tx = Transaction {
        inputs: vec![Input { output: output("X", 50), txid: "ab".to_string(), index: 3 }],
        outputs: vec![output("A", 36), output("B", 12)],
    };
    let mut expected = vec![b'X', 50, 0, 0, 0, 0, 0, 0, 0];
    expected.extend_from_slice(&[b'A', 36, 0, 0, 0, 0, 0, 0, 0]);
    expected.extend_from_slice(&[b'B', 12, 0, 0, 0, 0, 0, 0, 0]);
    assert_eq!(tx.bytes(), expected);
    assert!(tx.hash() == digest(&expected));
    assert_eq!(tx.txid(), hash_to_hex(&digest(&expected)));
    assert_eq!(tx.input_value(), 50);
    assert_eq!(tx.output_value(), 48);
    assert!(!tx.is_coinbase());
    let copy = tx.clone();
    assert_eq!(copy.bytes(), expected);
    let coinbase = Transaction { inputs: vec![], outputs: vec![output("m", u64::MAX), output("m", u64::MAX)] };
    assert!(coinbase.is_coinbase());
    assert_eq!(coinbase.input_value(), 0);
    assert_eq!(coinbase.output_value(), 2 * (u64::MAX as u128));
}

#[test]
fn signature_bytes_are_its_bytes() {
    assert_eq!(Signature::empty().bytes(), vec![0u8; 64]);
    assert_eq!(Signature([3u8; 64]).bytes(), vec![3u8; 64]);
}

#[test]
fn utxo_set_adds_spends_and_sums() {
    let mut set = UtxoSet::new();
    assert_eq!(set.get_balance(), 0);
    set.add_utxo("t1".to_string(), 0, 50, "X".to_string());
    set.add_utxo("t1".to_string(), 1, 7, "Y".to_string());
    set.add_utxo("t2".to_string(), 0, 3, "Z".to_string());
    assert_eq!(set.len(), 3);
    assert_eq!(set.get_balance(), 60);
    assert!(set.contains(&"t1".to_string(), 1));
    assert!(!set.contains(&"t1".to_string(), 2));
    assert_eq!(set.value_of(&"t2".to_string(), 0), Some(3));
    // A record kept under the same key is replaced.
    set.add_utxo("t1".to_string(), 1, 8, "Y".to_string());
    assert_eq!(set.len(), 3);
    assert_eq!(set.get_balance(), 61);
    assert_eq!(set.spend("t1".to_string(), 0), Ok(()));
    assert_eq!(set.get_balance(), 11);
    assert_eq!(set.spend("t1".to_string(), 0), Err(BlockValidationErr::DoubleSpend));
    assert_eq!(set.spend("never".to_string(), 0), Err(BlockValidationErr::DoubleSpend));
    assert_eq!(set.get_balance(), 11);
    assert_eq!(set.len(), 2);
    let copy = set.clone();
    assert_eq!(copy.get_balance(), 11);
    let mut big = UtxoSet::new();
    big.add_utxo("a".to_string(), 0, u64::MAX, "X".to_string());
    big.add_utxo("a".to_string(), 1, u64::MAX, "X".to_string());
    assert_eq!(big.get_balance(), 2 * (u64::MAX as u128));
}

fn picked(inputs: &[(String, usize, u64, String)]) -> Vec<(&str, usize, u64)> {
    inputs.iter().map(|i| (i.0.as_str(), i.1, i.2)).collect()
}

#[test]
fn coins_are_selected_largest_first() {
    let mut set = UtxoSet::new();
    set.add_utxo("a".to_string(), 0, 10, "X".to_string());
    set.add_utxo("b".to_string(), 0, 30, "Y".to_string());
    set.add_utxo("c".to_string(), 0, 20, "Z".to_string());
    set.add_utxo("d".to_string(), 0, 30, "W".to_string());
    let one = set.get_optimal_inputs(30).unwrap();
    assert_eq!(picked(&one), vec![("b", 0, 30)]);
    assert_eq!(one[0].3, "Y");
    let two = set.get_optimal_inputs(31).unwrap();
    assert_eq!(picked(&two), vec![("b", 0, 30), ("d", 0, 30)]);
    let three = set.get_optimal_inputs(61).unwrap();
    assert_eq!(picked(&three), vec![("b", 0, 30), ("d", 0, 30), ("c", 0, 20)]);
    let all = set.get_optimal_inputs(90).unwrap();
    assert_eq!(picked(&all), vec![("b", 0, 30), ("d", 0, 30), ("c", 0, 20), ("a", 0, 10)]);
    assert_eq!(set.get_optimal_inputs(0).unwrap().len(), 0);
    assert_eq!(set.get_optimal_inputs(91).err(), Some(BlockValidationErr::InsufficientFunds));
    assert_eq!(UtxoSet::new().get_optimal_inputs(1).err(), Some(BlockValidationErr::InsufficientFunds));
    // Twice against the same set gives the same sequence.
    let again = set.get_optimal_inputs(61).unwrap();
    assert_eq!(three, again);
    assert_eq!(set.len(), 4);
}

fn key(b: u8) -> Pubkey {
    Pubkey::new([b; 32])
}

#[test]
fn identities_are_ordered_by_their_bytes() {
    let mut low = [0u8; 32];
    low[31] = 1;
    let mut high = [0u8; 32];
    high[0] = 1;
    assert!(Pubkey::new(low).order(&Pubkey::new(high)) == KeyOrder::Before);
    assert!(Pubkey::new(high).order(&Pubkey::new(low)) == KeyOrder::After);
    assert!(Pubkey::new(low).order(&Pubkey::const_new(low)) == KeyOrder::Same);
    assert!(key(4) == key(4));
    assert!(key(4) != key(5));
    assert_eq!(Pubkey::new(low).0, low);
}

#[test]
fn identity_map_keeps_one_value_a_key_in_byte_order() {
    let mut map: PubkeyMap<u64> = PubkeyMap::new();
    assert_eq!(map.len(), 0);
    map.insert(key(5), 50);
    map.insert(key(1), 10);
    map.insert(key(9), 90);
    map.insert(key(5), 55);
    assert_eq!(map.len(), 3);
    assert_eq!(map.get(&key(5)), Some(55));
    assert_eq!(map.get(&key(2)), None);
    assert!(map.contains_key(&key(9)));
    let order: Vec<(u8, u64)> = (0..map.len()).map(|i| (map.entry(i).0 .0[0], map.entry(i).1)).collect();
    assert_eq!(order, vec![(1, 10), (5, 55), (9, 90)]);
}

#[test]
fn difficulty_has_two_modes() {
    let mut bytes = [0u8; 32];
    bytes[16] = 5;
    let h = blockchainlib::digest::Hash(bytes);
    assert!(check_difficulty(&h, 6));
    assert!(!check_difficulty(&h, 5));
    assert!(!check_difficulty(&h, 0));
    assert_eq!(count_bits(&h), 2);
    assert_eq!(count_bits(&blockchainlib::digest::Hash([0xffu8; 32])), 256);
    assert_eq!(count_bits(&blockchainlib::digest::Hash::zero()), 0);
    assert!(check_seal(&Difficulty::BitCount(1), &h));
    assert!(!check_seal(&Difficulty::BitCount(2), &h));
    assert!(!check_seal(&Difficulty::BitCount(0), &blockchainlib::digest::Hash::zero()));
    assert!(check_seal(&Difficulty::Target(6), &h));
}

#[test]
fn token_and_mint_move_balances() {
    let authority = key(1);
    let alice = key(2);
    let bob = key(3);
    let mut mint = Mint::genesis(1_000, authority, 2);
    let mut token = Token::genesis(mint.total_supply, authority, 2);
    assert_eq!(token.get_balance(authority), 1_000);
    assert_eq!(token.get_balance(alice), 0);
    assert_eq!(mint.mint_to(&mut token, alice, 300), Ok(()));
    assert_eq!(token.get_balance(authority), 700);
    assert_eq!(token.get_balance(alice), 300);
    assert_eq!(mint.mint_to(&mut token, alice, 701), Err("Not enough supply to transfer".to_string()));
    assert_eq!(token.get_balance(alice), 300);
    assert_eq!(token.transfer(&mut mint, alice, bob, 100), Ok(()));
    assert_eq!(token.get_balance(alice), 200);
    assert_eq!(token.get_balance(bob), 100);
    assert_eq!(token.supply, 1_000);
    assert_eq!(
        token.transfer(&mut mint, bob, alice, 101),
        Err("Not enough balance to transfer".to_string())
    );
    assert_eq!(token.transfer(&mut mint, authority, bob, 50), Ok(()));
    assert_eq!(token.supply, 950);
    assert_eq!(token.get_balance(authority), 650);
    assert_eq!(
        token.transfer(&mut mint, authority, bob, 951),
        Err("Not enough supply to transfer".to_string())
    );
    assert_eq!(token.supply, 950);
    mint.mint(&mut token, authority, 10);
    assert_eq!(mint.total_supply, 1_010);
    assert_eq!(token.get_balance(authority), 660);
    mint.burn(&mut token, 60);
    assert_eq!(mint.total_supply, 950);
    assert_eq!(token.get_balance(authority), 600);
    token.mint_to(&mut mint, authority, 5);
    assert_eq!(mint.total_supply, 955);
    token.burn(50, &mut mint);
    assert_eq!(token.supply, 900);
    assert_eq!(mint.total_supply, 905);
}

#[test]
fn ring_gives_a_position_to_the_next_point() {
    let mut ring = ConsistentHashRing::new();
    assert_eq!(ring.node_at(5), None);
    assert_eq!(ring.get_node("anything"), None);
    ring.put(100, "a".to_string());
    ring.put(300, "c".to_string());
    ring.put(200, "b".to_string());
    assert_eq!(ring.len(), 3);
    assert_eq!(ring.node_at(0), Some("a".to_string()));
    assert_eq!(ring.node_at(100), Some("a".to_string()));
    assert_eq!(ring.node_at(101), Some("b".to_string()));
    assert_eq!(ring.node_at(300), Some("c".to_string()));
    assert_eq!(ring.node_at(301), Some("a".to_string()));
    assert_eq!(ring.node_at(u64::MAX), Some("a".to_string()));
    ring.put(200, "z".to_string());
    assert_eq!(ring.len(), 3);
    assert_eq!(ring.node_at(150), Some("z".to_string()));
    ring.remove("a");
    assert_eq!(ring.len(), 2);
    assert_eq!(ring.node_at(0), Some("z".to_string()));
    assert_eq!(ring.node_at(301), Some("z".to_string()));
}

#[test]
fn ring_replicas_belong_to_their_node() {
    let mut ring = ConsistentHashRing::new();
    ring.add("left", 100);
    assert_eq!(ring.len(), 100);
    assert_eq!(ring.get_node("account"), Some("left".to_string()));
    ring.add("right", 100);
    assert_eq!(ring.len(), 200);
    let first = ring.get_node("account");
    assert_eq!(ring.get_node("account"), first);
    ring.add("left", 100);
    assert_eq!(ring.len(), 200);
    ring.remove("left");
    assert_eq!(ring.len(), 100);
    assert_eq!(ring.get_node("account"), Some("right".to_string()));
    ring.remove("right");
    assert_eq!(ring.get_node("account"), None);
}

#[test]
fn decimal_text_is_read_and_written() {
    assert_eq!(parse_u64(b"0"), Some(0));
    assert_eq!(parse_u64(b"007"), Some(7));
    assert_eq!(parse_u64(b"+42"), Some(42));
    assert_eq!(parse_u64(b"18446744073709551615"), Some(u64::MAX));
    assert_eq!(parse_u64(b"18446744073709551616"), None);
    assert_eq!(parse_u64(b"99999999999999999999999"), None);
    assert_eq!(parse_u64(b""), None);
    assert_eq!(parse_u64(b"+"), None);
    assert_eq!(parse_u64(b"-1"), None);
    assert_eq!(parse_u64(b"1 2"), None);
    assert_eq!(parse_u64(b"12a"), None);
    assert_eq!(parse_u64(b"++1"), None);
    for text in ["0", "5", "+5", "", "x", "00", "18446744073709551615", "18446744073709551616"] {
        assert_eq!(parse_u64(text.as_bytes()), text.parse::<u64>().ok());
    }
    assert_eq!(to_decimal(0), "0");
    assert_eq!(to_decimal(9), "9");
    assert_eq!(to_decimal(10), "10");
    assert_eq!(to_decimal(1_234_567_890), "1234567890");
    assert_eq!(to_decimal(u64::MAX), u64::MAX.to_string());
}

#[test]
fn scanner_trims_and_reads_a_number() {
    let scanner = Scanner::new("  48\n".to_string());
    assert_eq!(scanner.input, "48");
    assert_eq!(scanner.to_u64(), Ok(48));
    assert_eq!(
        Scanner::new("forty".to_string()).to_u64(),
        Err("please input correct number".to_string())
    );
    assert_eq!(Scanner::new("\t\n".to_string()).to_u64().is_err(), true);
}

#[test]
fn encoded_pubkey_is_base58() {
    let zero = EncodedPubkey::from_pubkey(Pubkey::new([0u8; 32]));
    assert_eq!(zero.0, "1".repeat(32));
    assert_eq!(zero.to_pubkey().unwrap().0, [0u8; 32]);
    let known = EncodedPubkey("4vJ9JU1bJJE96FWSJKvHsmmFADCg4gpZQff4P3bkLKi".to_string());
    let decoded = known.to_pubkey().unwrap();
    assert_eq!(decoded.0.len(), 32);
    assert_eq!(EncodedPubkey::from_pubkey(decoded).0, known.0);
    let short = EncodedPubkey("abc".to_string());
    assert_eq!(short.to_pubkey().err(), Some("Invalid length for decoded EncodedPubkey".to_string()));
    let bad = EncodedPubkey("0O".to_string());
    let message = bad.to_pubkey().err().unwrap();
    assert!(message.starts_with("Error decoding EncodedPubkey: "));
    assert!(message.len() > "Error decoding EncodedPubkey: ".len());
}

#[test]
fn only_the_system_program_starts() {
    assert_eq!(sys_id().0, [0u8; 32]);
    assert_eq!(token_id().0, [1u8; 32]);
    assert_eq!(mint_id().0, [2u8; 32]);
    assert_eq!(start(sys_id()), Ok(()));
    assert_eq!(start(token_id()), Err(ProgramError::InvalidAccountData));
    assert_eq!(start(mint_id()), Err(ProgramError::InvalidAccountData));
    assert_eq!(run(), Err(ProgramError::InvalidAccountData));
}

#[test]
fn clock_shows_a_time_after_2020() {
    assert!(blockchainlib::clock::now() > 1_577_836_800_000);
}
