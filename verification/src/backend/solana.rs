use vstd::prelude::*;

use crate::backend::{reports_first_rule, BackendMatch, VanityBackend, MIN_BUFFER_LEN};
use crate::encoding::{
    ascii_chars, ascii_string, base58_encode, bs58_encode_onto, hex_encode, hex_lower,
    json_byte_array, json_bytes, lemma_base58_ascii, lemma_base58_len_32,
};
use crate::matcher::{find_matching_rule, is_first_match, no_rule_matches, PrefixRule};

verus! {

/// An ed25519 key pair as bytes: the 32-byte secret seed and the 32-byte
/// compressed public key.
pub struct Ed25519Keys {
    pub secret: [u8; 32],
    pub public: [u8; 32],
}

/// The ed25519 public key that `ed25519_dalek` derives from a 32-byte secret.
pub uninterp spec fn ed25519_public_key(secret: Seq<u8>) -> Seq<u8>;

/// `ed25519_dalek::SecretKey::generate`: 32 secret bytes drawn from `rng`.
/// Which bytes come out is left unsaid: it depends on the generator's state.
#[verifier::external_body]
fn ed25519_random_secret(rng: &mut rand_chacha::ChaCha20Rng) -> [u8; 32] {
    ed25519_dalek::SecretKey::generate(rng).to_bytes()
}

/// `ed25519_dalek::PublicKey::from(&SecretKey)`, as its 32 bytes.
#[verifier::external_body]
fn ed25519_public_of(secret: &[u8; 32]) -> (public: [u8; 32])
    ensures
        public@ == ed25519_public_key(secret@),
{
    let sk = ed25519_dalek::SecretKey::from_bytes(secret).expect("32 secret bytes");
    ed25519_dalek::PublicKey::from(&sk).to_bytes()
}

/// A new key pair, as `Keypair::generate` makes it: a secret drawn from
/// `rng` and the public key derived from it.
pub fn generate_keys(rng: &mut rand_chacha::ChaCha20Rng) -> (keys: Ed25519Keys)
    ensures
        keys.public@ == ed25519_public_key(keys.secret@),
{
    let secret = ed25519_random_secret(rng);
    let public = ed25519_public_of(&secret);
    Ed25519Keys { secret, public }
}

/// The 64 bytes that `Keypair::to_bytes` gives: secret, then public key.
pub open spec fn keypair_bytes(keys: Ed25519Keys) -> Seq<u8> {
    keys.secret@ + keys.public@
}

/// The Solana address of a key pair: the base58 text of its public key.
pub open spec fn solana_address(keys: Ed25519Keys) -> Seq<u8> {
    base58_encode(keys.public@)
}

/// `m` is the match that reports `keys` under `rule`.
pub open spec fn is_solana_match(m: BackendMatch, keys: Ed25519Keys, rule: PrefixRule) -> bool {
    &&& m.prefix@ == rule.raw@
    &&& m.public_str@ == ascii_chars(solana_address(keys))
    &&& m.public_bytes@ == keys.public@
    &&& m.secret_hex@ == hex_lower(keypair_bytes(keys))
    &&& m.secret_bytes@ == keypair_bytes(keys)
    &&& m.secret_json@ == json_byte_array(keypair_bytes(keys))
    &&& m.secret_wif is None
}

/// The 64 bytes of a key pair: secret, then public key.
pub fn keypair_to_bytes(keys: &Ed25519Keys) -> (r: Vec<u8>)
    ensures
        r@ == keypair_bytes(*keys),
{
    let mut r = vstd::slice::slice_to_vec(keys.secret.as_slice());
    let mut p = vstd::slice::slice_to_vec(keys.public.as_slice());
    r.append(&mut p);
    r
}

proof fn lemma_ascii_roundtrip(bytes: Seq<u8>)
    requires
        forall|i: int| 0 <= i < bytes.len() ==> #[trigger] bytes[i] < 128,
    ensures
        vstd::utf8::encode_utf8(ascii_chars(bytes)) == bytes,
{
    let c = ascii_chars(bytes);
    assert(vstd::utf8::is_ascii_chars(c));
    vstd::utf8::is_ascii_chars_encode_utf8(c);
    assert(vstd::utf8::encode_utf8(c) =~= bytes);
}

/// The Solana match of a given key pair: its address is written at the start
/// of `buffer` and compared with the rules; the first rule that it starts
/// with is reported together with the key pair.
pub fn solana_match(
    keys: &Ed25519Keys,
    rules: &[PrefixRule],
    ignore_case: bool,
    buffer: &mut [u8],
) -> (res: Option<BackendMatch>)
    requires
        old(buffer)@.len() >= MIN_BUFFER_LEN,
    ensures
        final(buffer)@.len() == old(buffer)@.len(),
        final(buffer)@.subrange(0, solana_address(*keys).len() as int) == solana_address(*keys),
        final(buffer)@.subrange(solana_address(*keys).len() as int, old(buffer)@.len() as int)
            == old(buffer)@.subrange(solana_address(*keys).len() as int, old(buffer)@.len() as int),
        res is None <==> no_rule_matches(rules@, solana_address(*keys), ignore_case),
        res matches Some(m) ==> exists|i: int|
            #![trigger is_first_match(rules@, solana_address(*keys), ignore_case, i)]
            is_first_match(rules@, solana_address(*keys), ignore_case, i) && is_solana_match(
                m,
                *keys,
                rules@[i],
            ),
        res matches Some(m) ==> reports_first_rule(rules@, m, ignore_case),
{
    proof {
        lemma_base58_len_32(keys.public@);
        lemma_base58_ascii(keys.public@);
    }
    let len = match bs58_encode_onto(keys.public.as_slice(), buffer) {
        Ok(n) => n,
        Err(_) => {
            proof {
                assert(false);
            }
            0
        },
    };
    let ghost addr = solana_address(*keys);
    let candidate = vstd::slice::slice_subrange(buffer, 0, len);
    assert(candidate@ == addr);
    let found = find_matching_rule(candidate, rules, ignore_case);
    match found {
        None => None,
        Some(i) => {
            let public_str = ascii_string(candidate, len);
            let secret_full = keypair_to_bytes(keys);
            let secret_hex = hex_encode(secret_full.as_slice());
            let secret_json = json_bytes(secret_full.as_slice());
            let public_bytes = vstd::slice::slice_to_vec(keys.public.as_slice());
            let m = BackendMatch {
                prefix: rules[i].raw.clone(),
                public_str,
                public_bytes,
                secret_hex,
                secret_bytes: secret_full,
                secret_json,
                secret_wif: None,
            };
            proof {
                assert(candidate@.subrange(0, len as int) =~= addr);
                lemma_ascii_roundtrip(addr);
                // the reported rule is first for the bytes of the address text
                assert(is_first_match(rules@, vstd::utf8::encode_utf8(m.public_str@), ignore_case, i as int));
            }
            Some(m)
        },
    }
}

/// Mines Solana (ed25519) addresses.
pub struct SolanaBackend;

impl VanityBackend for SolanaBackend {
    /// The longest Solana address.
    open spec fn min_buffer(&self) -> nat {
        MIN_BUFFER_LEN as nat
    }

    fn name(&self) -> (r: &'static str)
        ensures
            r@ == "solana"@,
    {
        "solana"
    }

    fn try_generate_match(
        &self,
        rng: &mut rand_chacha::ChaCha20Rng,
        rules: &[PrefixRule],
        ignore_case: bool,
        buffer: &mut [u8],
    ) -> (res: Option<BackendMatch>)
        ensures
            exists|keys: Ed25519Keys|
                #![trigger solana_address(keys)]
                {
                    &&& keys.public@ == ed25519_public_key(keys.secret@)
                    &&& final(buffer)@.subrange(0, solana_address(keys).len() as int)
                        == solana_address(keys)
                    &&& final(buffer)@.subrange(
                        solana_address(keys).len() as int,
                        old(buffer)@.len() as int,
                    ) == old(buffer)@.subrange(
                        solana_address(keys).len() as int,
                        old(buffer)@.len() as int,
                    )
                    &&& (res is None <==> no_rule_matches(rules@, solana_address(keys), ignore_case))
                    &&& (res matches Some(m) ==> exists|i: int|
                        #![trigger is_first_match(rules@, solana_address(keys), ignore_case, i)]
                        is_first_match(rules@, solana_address(keys), ignore_case, i)
                            && is_solana_match(m, keys, rules@[i]))
                },
    {
        let keys = generate_keys(rng);
        let res = solana_match(&keys, rules, ignore_case, buffer);
        // the drawn key pair is the witness of the postcondition
        assert(solana_address(keys).len() <= MIN_BUFFER_LEN) by {
            lemma_base58_len_32(keys.public@);
        }
        res
    }
}

} // verus!

verus! {

/// The fields of a Solana match agree with one another: the address is the
/// base58 text of the public key, of at most 44 characters; the 64 key bytes
/// are the secret followed by the public key, in 128 hexadecimal characters.
pub proof fn lemma_solana_match_fields(m: BackendMatch, keys: Ed25519Keys, rule: PrefixRule)
    requires
        is_solana_match(m, keys, rule),
    ensures
        m.public_str@ == ascii_chars(base58_encode(m.public_bytes@)),
        m.public_str@.len() <= MIN_BUFFER_LEN,
        m.secret_bytes@.len() == 64,
        m.secret_bytes@.subrange(32, 64) == m.public_bytes@,
        m.secret_hex@.len() == 128,
{
    lemma_base58_len_32(keys.public@);
    crate::encoding::lemma_hex_len(keypair_bytes(keys));
    assert(m.secret_bytes@.subrange(32, 64) =~= keys.public@);
}

} // verus!
