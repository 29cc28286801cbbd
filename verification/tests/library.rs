use rand::{RngCore, SeedableRng};
use rand_chacha::ChaCha20Rng;
use vanity_miner::backend::bitcoin::draw_step;
use vanity_miner::backend::{
    BackendMatch, DrawStep, BitcoinAddressType, BitcoinBackend, BitcoinNetwork, Ed25519Keys, SolanaBackend,
    VanityBackend, MIN_BUFFER_LEN,
};
use vanity_miner::backend::solana::{generate_keys, keypair_to_bytes, solana_match};
use vanity_miner::config::{expand_prefixes, prefix_rules_from_args};
use vanity_miner::encoding::{debug_bytes, json_bytes};
use vanity_miner::matcher::{candidate_matches, eq_ignore_ascii_case, find_matching_rule, PrefixRule};
use vanity_miner::miner::{
    goal_message, next_run, prefixes_message, progress_line, AttemptCounter, ATTEMPT_BATCH,
};
use vanity_miner::reporter::{after_probe, result_path, summary_head, PathProbe};
use vanity_miner::text::{decimal_string, format_with_commas};

const RFC_SECRET: [u8; 32] = [
    0x9d, 0x61, 0xb1, 0x9d, 0xef, 0xfd, 0x5a, 0x60, 0xba, 0x84, 0x4a, 0xf4, 0x92, 0xec, 0x2c, 0xc4,
    0x44, 0x49, 0xc5, 0x69, 0x7b, 0x32, 0x69, 0x19, 0x70, 0x3b, 0xac, 0x03, 0x1c, 0xae, 0x7f, 0x60,
];
const RFC_PUBLIC: [u8; 32] = [
    0xd7, 0x5a, 0x98, 0x01, 0x82, 0xb1, 0x0a, 0xb7, 0xd5, 0x4b, 0xfe, 0xd3, 0xc9, 0x64, 0x07, 0x3a,
    0x0e, 0xe1, 0x72, 0xf3, 0xda, 0xa6, 0x23, 0x25, 0xaf, 0x02, 0x1a, 0x68, 0xf7, 0x07, 0x51, 0x1a,
];
const RFC_ADDRESS: &str = "FVen3X669xLzsi6N2V91DoiyzHzg1uAgqiT8jZ9nS96Z";

fn rule(s: &str) -> PrefixRule {
    PrefixRule { raw: s.to_string(), bytes: s.as_bytes().to_vec() }
}

fn strings(v: &[&str]) -> Vec<String> {
    v.iter().map(|s| s.to_string()).collect()
}

fn rfc_keys() -> Ed25519Keys {
    Ed25519Keys { secret: RFC_SECRET, public: RFC_PUBLIC }
}

fn key_one() -> [u8; 32] {
    let mut k = [0u8; 32];
    k[31] = 1;
    k
}

// ------------------------------------------------------------ matcher

#[test]
fn matches_exact_prefix() {
    assert!(candidate_matches(b"xyberABC", b"xyber", false));
    assert!(!candidate_matches(b"xyBerABC", b"xyber", false));
    assert!(!candidate_matches(b"xy", b"xyber", false));
}

#[test]
fn matches_ignoring_case() {
    assert!(candidate_matches(b"XyBeRabc", b"xyber", true));
    assert!(!candidate_matches(b"XyBeQabc", b"xyber", true));
    assert!(!candidate_matches(b"XY", b"xyb", true));
}

#[test]
fn empty_prefix_matches_everything() {
    assert!(candidate_matches(b"", b"", false));
    assert!(candidate_matches(b"abc", b"", true));
}

#[test]
fn case_folding_is_ascii_only() {
    assert!(eq_ignore_ascii_case(b'A', b'a'));
    assert!(eq_ignore_ascii_case(b'z', b'Z'));
    assert!(eq_ignore_ascii_case(b'1', b'1'));
    assert!(!eq_ignore_ascii_case(b'[', b'{'));
    assert!(!eq_ignore_ascii_case(0xc4, 0xe4));
}

#[test]
fn first_matching_rule_is_found() {
    let rules = vec![rule("zz"), rule("ab"), rule("a")];
    assert_eq!(find_matching_rule(b"abc", &rules, false), Some(1));
    assert_eq!(find_matching_rule(b"ABC", &rules, true), Some(1));
    assert_eq!(find_matching_rule(b"ABC", &rules, false), None);
    assert_eq!(find_matching_rule(b"acc", &rules, false), Some(2));
}

// ------------------------------------------------------------ config

#[test]
fn prefixes_split_at_commas_and_trimmed() {
    let r = expand_prefixes(&strings(&["xyber, wotori", " ,abc,,", "  d e  "]));
    assert_eq!(r, strings(&["xyber", "wotori", "abc", "d e"]));
}

#[test]
fn no_prefixes_give_default() {
    assert_eq!(expand_prefixes(&[]), strings(&["xyber"]));
    assert_eq!(expand_prefixes(&strings(&[" , ,", ""])), strings(&["xyber"]));
}

#[test]
fn trimming_uses_unicode_whitespace() {
    let r = expand_prefixes(&strings(&["\u{3000}abc\u{a0},\tq\n"]));
    assert_eq!(r, strings(&["abc", "q"]));
}

#[test]
fn rules_carry_utf8_bytes() {
    let r = prefix_rules_from_args(&strings(&["ab,é"]));
    assert_eq!(r.len(), 2);
    assert_eq!(r[0].raw, "ab");
    assert_eq!(r[0].bytes, b"ab".to_vec());
    assert_eq!(r[1].raw, "é");
    assert_eq!(r[1].bytes, "é".as_bytes().to_vec());
}

// ------------------------------------------------------------ text

#[test]
fn decimal_notation() {
    assert_eq!(decimal_string(0), "0");
    assert_eq!(decimal_string(7), "7");
    assert_eq!(decimal_string(10), "10");
    assert_eq!(decimal_string(u64::MAX), u64::MAX.to_string());
}

#[test]
fn thousands_separators() {
    assert_eq!(format_with_commas(0), "0");
    assert_eq!(format_with_commas(999), "999");
    assert_eq!(format_with_commas(1000), "1,000");
    assert_eq!(format_with_commas(123456), "123,456");
    assert_eq!(format_with_commas(1234567), "1,234,567");
    assert_eq!(format_with_commas(u64::MAX), "18,446,744,073,709,551,615");
}

#[test]
fn commas_removed_give_decimal() {
    for v in [0u64, 5, 12, 100, 1001, 99999, 1000000, 4294967296] {
        assert_eq!(format_with_commas(v).replace(',', ""), v.to_string());
    }
}

// ------------------------------------------------------------ encodings

fn address_of(public: [u8; 32]) -> String {
    let keys = Ed25519Keys { secret: [0u8; 32], public };
    let mut buffer = [0u8; MIN_BUFFER_LEN];
    solana_match(&keys, &[rule("")], false, &mut buffer).unwrap().public_str
}

#[test]
fn base58_of_public_key() {
    assert_eq!(address_of(RFC_PUBLIC), RFC_ADDRESS);
    assert_eq!(address_of([0u8; 32]), "11111111111111111111111111111111");
    let mut z = [255u8; 32];
    z[0] = 0;
    z[1] = 0;
    assert_eq!(address_of(z), "11tJ93RwaVfE1PEMxd5rpZZuPtLCwbEaDCrNBhAy8Cv");
}

#[test]
fn base58_longest_fits_minimum_buffer() {
    let s = address_of([255u8; 32]);
    assert_eq!(s, "JEKNVnkbo3jma5nREBBJCDoXFVeKkD56V3xKrvRmWxFG");
    assert_eq!(s.len(), MIN_BUFFER_LEN);
}

#[test]
fn json_and_debug_lists() {
    assert_eq!(json_bytes(&[]), "[]");
    assert_eq!(json_bytes(&[1, 2, 255]), "[1,2,255]");
    assert_eq!(debug_bytes(&[]), "[]");
    assert_eq!(debug_bytes(&[0, 10, 200]), "[0, 10, 200]");
    assert_eq!(debug_bytes(&[1, 2, 3]), format!("{:?}", [1u8, 2, 3]));
}

// ------------------------------------------------------------ solana

fn check_rfc_match(m: &BackendMatch, prefix: &str) {
    assert_eq!(m.prefix, prefix);
    assert_eq!(m.public_str, RFC_ADDRESS);
    assert_eq!(m.public_bytes, RFC_PUBLIC.to_vec());
    let mut full = RFC_SECRET.to_vec();
    full.extend_from_slice(&RFC_PUBLIC);
    assert_eq!(m.secret_bytes, full);
    assert_eq!(m.secret_hex, "9d61b19deffd5a60ba844af492ec2cc44449c5697b326919703bac031cae7f60d75a980182b10ab7d54bfed3c964073a0ee172f3daa62325af021a68f707511a");
    assert_eq!(m.secret_json, "[157,97,177,157,239,253,90,96,186,132,74,244,146,236,44,196,68,73,197,105,123,50,105,25,112,59,172,3,28,174,127,96,215,90,152,1,130,177,10,183,213,75,254,211,201,100,7,58,14,225,114,243,218,166,35,37,175,2,26,104,247,7,81,26]");
    assert_eq!(m.secret_wif, None);
}

#[test]
fn solana_match_reports_first_matching_rule() {
    let mut buffer = [0u8; 64];
    let rules = vec![rule("Q"), rule("fve"), rule("FV")];
    let m = solana_match(&rfc_keys(), &rules, true, &mut buffer).expect("a rule matches");
    check_rfc_match(&m, "fve");
    assert_eq!(&buffer[..RFC_ADDRESS.len()], RFC_ADDRESS.as_bytes());
    assert!(buffer[RFC_ADDRESS.len()..].iter().all(|b| *b == 0));
}

#[test]
fn solana_match_case_sensitive() {
    let mut buffer = [7u8; 44];
    let rules = vec![rule("fve"), rule("FVen3")];
    let m = solana_match(&rfc_keys(), &rules, false, &mut buffer).expect("a rule matches");
    check_rfc_match(&m, "FVen3");
}

#[test]
fn solana_match_none() {
    let mut buffer = [0u8; 64];
    let rules = vec![rule("abc"), rule("FVX")];
    assert!(solana_match(&rfc_keys(), &rules, false, &mut buffer).is_none());
    assert_eq!(&buffer[..RFC_ADDRESS.len()], RFC_ADDRESS.as_bytes());
}

#[test]
fn keypair_bytes_are_secret_then_public() {
    let b = keypair_to_bytes(&rfc_keys());
    assert_eq!(&b[..32], &RFC_SECRET);
    assert_eq!(&b[32..], &RFC_PUBLIC);
}

#[test]
fn solana_backend_generates_consistent_keys() {
    let mut rng = ChaCha20Rng::seed_from_u64(7);
    let mut buffer = [0u8; 64];
    let backend = SolanaBackend;
    assert_eq!(backend.name(), "solana");
    let m = backend
        .try_generate_match(&mut rng, &[rule("")], false, &mut buffer)
        .expect("the empty prefix matches");
    assert_eq!(m.prefix, "");
    let secret = ed25519_dalek::SecretKey::from_bytes(&m.secret_bytes[..32]).unwrap();
    let public = ed25519_dalek::PublicKey::from(&secret);
    assert_eq!(m.public_bytes, public.to_bytes().to_vec());
    assert_eq!(&m.secret_bytes[32..], &m.public_bytes[..]);
    assert_eq!(m.public_str, bs58::encode(&m.public_bytes).into_string());
    assert_eq!(m.secret_hex, hex::encode(&m.secret_bytes));
}

#[test]
fn solana_backend_no_match() {
    let mut rng = ChaCha20Rng::seed_from_u64(1);
    let mut buffer = [0u8; 64];
    // '0' is not in the base58 alphabet
    assert!(SolanaBackend.try_generate_match(&mut rng, &[rule("0")], true, &mut buffer).is_none());
}

// ------------------------------------------------------------ bitcoin

#[test]
fn bitcoin_backend_constructors() {
    let b = BitcoinBackend::new(BitcoinNetwork::Testnet, BitcoinAddressType::Segwit);
    assert_eq!(b.network, BitcoinNetwork::Testnet);
    assert_eq!(b.address_type, BitcoinAddressType::Segwit);
    let d = BitcoinBackend::default();
    assert_eq!(d.network, BitcoinNetwork::Bitcoin);
    assert_eq!(d.address_type, BitcoinAddressType::Legacy);
    assert_eq!(d.name(), "bitcoin");
}

fn check_key_one(m: &BackendMatch) {
    assert_eq!(
        m.public_bytes,
        hex::decode("0279be667ef9dcbbac55a06295ce870b07029bfcdb2dce28d959f2815b16f81798").unwrap()
    );
    assert_eq!(m.secret_bytes, key_one().to_vec());
    assert_eq!(m.secret_hex, "0000000000000000000000000000000000000000000000000000000000000001");
    assert_eq!(m.secret_json, "[0,0,0,0,0,0,0,0,0,0,0,0,0,0,0,0,0,0,0,0,0,0,0,0,0,0,0,0,0,0,0,1]");
}

#[test]
fn bitcoin_legacy_mainnet_address() {
    let b = BitcoinBackend::new(BitcoinNetwork::Bitcoin, BitcoinAddressType::Legacy);
    let mut buffer = [0u8; 64];
    let m = b.bitcoin_match(&key_one(), &[rule("1bg")], true, &mut buffer).expect("matches");
    assert_eq!(m.prefix, "1bg");
    assert_eq!(m.public_str, "1BgGZ9tcN4rm9KBzDn7KprQz87SZ26SAMH");
    assert_eq!(m.secret_wif.as_deref(), Some("KwDiBf89QgGbjEhKnhXJuH7LrciVrZi3qYjgd9M7rFU73sVHnoWn"));
    check_key_one(&m);
    assert_eq!(&buffer[..34], m.public_str.as_bytes());
}

#[test]
fn bitcoin_segwit_mainnet_address() {
    let b = BitcoinBackend::new(BitcoinNetwork::Bitcoin, BitcoinAddressType::Segwit);
    let mut buffer = [0u8; 64];
    let m = b.bitcoin_match(&key_one(), &[rule("bc1qw5")], false, &mut buffer).expect("matches");
    assert_eq!(m.public_str, "bc1qw508d6qejxtdg4y5r3zarvary0c5xw7kv8f3t4");
    check_key_one(&m);
}

#[test]
fn bitcoin_testnet_addresses() {
    let mut buffer = [0u8; 64];
    let legacy = BitcoinBackend::new(BitcoinNetwork::Testnet, BitcoinAddressType::Legacy);
    let m = legacy.bitcoin_match(&key_one(), &[rule("")], false, &mut buffer).unwrap();
    assert_eq!(m.public_str, "mrCDrCybB6J1vRfbwM5hemdJz73FwDBC8r");
    assert_eq!(m.secret_wif.as_deref(), Some("cMahea7zqjxrtgAbB7LSGbcQUr1uX1ojuat9jZodMN87JcbXMTcA"));
    let segwit = BitcoinBackend::new(BitcoinNetwork::Testnet, BitcoinAddressType::Segwit);
    let m = segwit.bitcoin_match(&key_one(), &[rule("")], false, &mut buffer).unwrap();
    assert_eq!(m.public_str, "tb1qw508d6qejxtdg4y5r3zarvary0c5xw7kxpjzsx");
}

#[test]
fn bitcoin_no_match_and_short_buffer() {
    let b = BitcoinBackend::default();
    let mut buffer = [0u8; 64];
    assert!(b.bitcoin_match(&key_one(), &[rule("bc1")], false, &mut buffer).is_none());
    let mut short = [9u8; 20];
    assert!(b.bitcoin_match(&key_one(), &[rule("")], false, &mut short).is_none());
    assert_eq!(short, [9u8; 20]);
}

#[test]
fn bitcoin_secret_drawn_from_generator() {
    let mut rng = ChaCha20Rng::seed_from_u64(42);
    let mut expected = [0u8; 32];
    ChaCha20Rng::seed_from_u64(42).fill_bytes(&mut expected);
    let (s, _) = BitcoinBackend::draw_secret_key(&mut rng);
    let s = s.expect("a valid key");
    assert_eq!(s, expected);
}

#[test]
fn bitcoin_backend_generates_match() {
    let mut rng = ChaCha20Rng::seed_from_u64(3);
    let mut buffer = [0u8; 64];
    let b = BitcoinBackend::new(BitcoinNetwork::Bitcoin, BitcoinAddressType::Segwit);
    let m = b.try_generate_match(&mut rng, &[rule("x"), rule("bc1q")], false, &mut buffer).unwrap();
    assert_eq!(m.prefix, "bc1q");
    assert!(m.public_str.starts_with("bc1q"));
    assert_eq!(m.secret_bytes.len(), 32);
    assert_eq!(m.public_bytes.len(), 33);
    assert!(m.secret_wif.is_some());
}

// ------------------------------------------------------------ miner

#[test]
fn attempts_are_flushed_in_batches() {
    let mut c = AttemptCounter::new();
    let mut flushed = 0u64;
    for _ in 0..(ATTEMPT_BATCH * 2 + 5) {
        flushed += c.record_attempt();
    }
    assert_eq!(flushed, ATTEMPT_BATCH * 2);
    assert_eq!(c.pending, 5);
    assert_eq!(c.take_pending(), 5);
    assert_eq!(c.pending, 0);
}

#[test]
fn run_numbers_and_stop() {
    assert_eq!(next_run(1, 0), Some(1));
    assert_eq!(next_run(1, 1), None);
    assert_eq!(next_run(3, 2), Some(3));
    assert_eq!(next_run(0, 1000), Some(1001));
}

#[test]
fn announcements() {
    assert_eq!(goal_message(0), "Will keep mining indefinitely.");
    assert_eq!(goal_message(1), "Will stop after finding 1 match.");
    assert_eq!(goal_message(12), "Will stop after finding 12 matches.");
    assert_eq!(prefixes_message(&[rule("a"), rule("bc")]), "Searching for prefixes: a, bc");
    assert_eq!(prefixes_message(&[]), "Searching for prefixes: ");
    assert_eq!(
        progress_line("T", 1234567, 1000),
        "[T] Total attempts: 1,234,567  |  Rate: 1,000 attempts/s"
    );
}

// ------------------------------------------------------------ reporter

#[test]
fn result_file_names() {
    assert_eq!(result_path("xyber", 1), "vanity_result_xyber_1.txt");
    assert_eq!(result_path("a_b", 120), "vanity_result_a_b_120.txt");
}

#[test]
fn summary_of_a_match() {
    let mut buffer = [0u8; 64];
    let m = solana_match(&rfc_keys(), &[rule("FV")], false, &mut buffer).unwrap();
    let mut full = [0u8; 64];
    full[..32].copy_from_slice(&RFC_SECRET);
    full[32..].copy_from_slice(&RFC_PUBLIC);
    let head = summary_head("TS", &m, 42);
    let expected = format!(
        "[TS] Prefix: FV\nPublic key: {}\nPublic key (bytes): {:?}\nSecret key (hex): {}\nSecret key (bytes): {:?}\nSecret key (json array): {}\nAttempts: 42\n",
        RFC_ADDRESS,
        RFC_PUBLIC,
        hex::encode(full),
        full,
        serde_json::to_string(&full.to_vec()).unwrap()
    );
    assert_eq!(head, expected);
}

// ------------------------------------------------------------ laws on values

#[test]
fn exact_match_also_matches_ignoring_case() {
    for (c, p) in [(&b"xyberQ"[..], &b"xyb"[..]), (b"ABC", b"AB"), (b"1z", b"")] {
        assert!(candidate_matches(c, p, false));
        assert!(candidate_matches(c, p, true));
    }
}

#[test]
fn ignoring_case_is_blind_to_prefix_case() {
    for c in [&b"AbCd"[..], b"abcd", b"ABCD", b"abXd"] {
        assert_eq!(candidate_matches(c, b"abc", true), candidate_matches(c, b"ABC", true));
        assert_eq!(candidate_matches(c, b"abc", true), candidate_matches(c, b"aBc", true));
    }
}

#[test]
fn expanded_prefixes_are_clean() {
    let r = expand_prefixes(&strings(&[",, a ,\t,b\u{2003}c ,", "  ", ",d"]));
    assert_eq!(r, strings(&["a", "b\u{2003}c", "d"]));
    for p in &r {
        assert!(!p.is_empty());
        assert!(!p.contains(','));
        assert_eq!(p.trim(), p);
    }
}

#[test]
fn result_names_differ_by_index() {
    let names: Vec<String> = [1u64, 2, 10, 11, 100, 101].iter().map(|i| result_path("ab", *i)).collect();
    for i in 0..names.len() {
        for j in 0..names.len() {
            assert_eq!(i == j, names[i] == names[j]);
        }
    }
    assert_ne!(result_path("a", 11), result_path("a1", 1));
}

#[test]
fn hex_has_two_characters_per_byte() {
    let mut buffer = [0u8; 64];
    let m = solana_match(&rfc_keys(), &[rule("")], false, &mut buffer).unwrap();
    assert_eq!(m.secret_hex.len(), 128);
    assert_eq!(m.secret_bytes.len(), 64);
    assert_eq!(&m.secret_bytes[32..], &m.public_bytes[..]);
}

#[test]
fn generated_keys_come_from_the_generator() {
    let mut rng = ChaCha20Rng::seed_from_u64(11);
    let mut expected = [0u8; 32];
    ChaCha20Rng::seed_from_u64(11).fill_bytes(&mut expected);
    let keys = generate_keys(&mut rng);
    assert_eq!(keys.secret, expected);
    let sk = ed25519_dalek::SecretKey::from_bytes(&expected).unwrap();
    assert_eq!(keys.public, ed25519_dalek::PublicKey::from(&sk).to_bytes());
    let rfc = ed25519_dalek::SecretKey::from_bytes(&RFC_SECRET).unwrap();
    assert_eq!(ed25519_dalek::PublicKey::from(&rfc).to_bytes(), RFC_PUBLIC);
}

#[test]
fn draw_steps() {
    let mut order = hex::decode("fffffffffffffffffffffffffffffffebaaedce6af48a03bbfd25e8cd0364141").unwrap();
    let mut invalid = [0u8; 32];
    invalid.copy_from_slice(&order);
    assert_eq!(draw_step(&key_one(), 0), DrawStep::Accept);
    assert_eq!(draw_step(&[0u8; 32], 0), DrawStep::Retry(1));
    assert_eq!(draw_step(&invalid, 5), DrawStep::Retry(6));
    assert_eq!(draw_step(&invalid, u64::MAX - 1), DrawStep::GiveUp);
    order[31] = 0x40;
    let mut below = [0u8; 32];
    below.copy_from_slice(&order);
    assert_eq!(draw_step(&below, u64::MAX - 1), DrawStep::Accept);
}

#[test]
fn segwit_address_fits_exact_buffer() {
    let b = BitcoinBackend::new(BitcoinNetwork::Bitcoin, BitcoinAddressType::Segwit);
    let mut rng = ChaCha20Rng::seed_from_u64(0);
    let mut buffer = [0u8; 42];
    let m = b.try_generate_match(&mut rng, &[rule("bc1q")], false, &mut buffer).unwrap();
    assert_eq!(m.prefix, "bc1q");
    assert_eq!(m.public_str.len(), 42);
    assert!(m.public_str.starts_with("bc1q"));
    assert_eq!(&buffer[..], m.public_str.as_bytes());
}

#[test]
fn legacy_address_does_not_fit_short_buffer() {
    let b = BitcoinBackend::new(BitcoinNetwork::Bitcoin, BitcoinAddressType::Legacy);
    let mut rng = ChaCha20Rng::seed_from_u64(7);
    let mut buffer = [0u8; 16];
    assert!(b.try_generate_match(&mut rng, &[rule("1")], false, &mut buffer).is_none());
    assert_eq!(buffer, [0u8; 16]);
}

#[test]
fn mainnet_address_forms() {
    let mut buffer = [5u8; 64];
    let legacy = BitcoinBackend::default();
    let mut rng = ChaCha20Rng::seed_from_u64(21);
    let m = legacy.try_generate_match(&mut rng, &[rule("")], false, &mut buffer).unwrap();
    assert!(m.public_str.starts_with('1'));
    assert!(buffer[m.public_str.len()..].iter().all(|b| *b == 5));
}

#[test]
fn result_path_search_steps() {
    assert_eq!(after_probe(1, true), PathProbe::Next(2));
    assert_eq!(after_probe(7, false), PathProbe::Use);
    assert_eq!(after_probe(u64::MAX, false), PathProbe::Use);
}

#[test]
fn mainnet_wif_and_legacy_forms() {
    let mut rng = ChaCha20Rng::seed_from_u64(9);
    let mut buffer = [0u8; 64];
    let b = BitcoinBackend::default();
    for _ in 0..20 {
        let m = b.try_generate_match(&mut rng, &[rule("")], false, &mut buffer).unwrap();
        assert!(m.public_str.starts_with('1'));
        assert!((25..=34).contains(&m.public_str.len()));
        assert!(m.public_str.is_ascii());
        let w = m.secret_wif.unwrap();
        assert_eq!(w.len(), 52);
        assert!(w.starts_with('K') || w.starts_with('L'));
        let k = bitcoin::PrivateKey::from_wif(&w).unwrap();
        assert!(k.compressed);
        assert_eq!(k.inner.secret_bytes().to_vec(), m.secret_bytes);
    }
}
