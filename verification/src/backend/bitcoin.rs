use vstd::prelude::*;

use crate::backend::{reports_first_rule, BackendMatch, VanityBackend};
use crate::encoding::{be_value, hex_encode, hex_lower, json_byte_array, json_bytes};
use crate::matcher::{find_matching_rule, is_first_match, no_rule_matches, PrefixRule};

verus! {

/// Which Bitcoin network addresses are made for.
#[derive(Clone, Copy, PartialEq, Eq, Debug)]
pub enum BitcoinNetwork {
    Bitcoin,
    Testnet,
    Testnet4,
    Signet,
    Regtest,
}

/// Which kind of Bitcoin address is mined.
#[derive(Clone, Copy, PartialEq, Eq, Debug)]
pub enum BitcoinAddressType {
    /// Base58 pay-to-public-key-hash addresses (`1...` on mainnet).
    Legacy,
    /// Native SegWit pay-to-witness-public-key-hash addresses (`bc1q...` on mainnet).
    Segwit,
}

/// The order of the secp256k1 group.
pub open spec fn secp256k1_order() -> nat {
    0xfffffffffffffffffffffffffffffffebaaedce6af48a03bbfd25e8cd0364141nat
}

/// A secp256k1 secret key: 32 bytes whose big-endian number is neither zero
/// nor at least the group order.
pub open spec fn is_valid_secret(bytes: Seq<u8>) -> bool {
    &&& bytes.len() == 32
    &&& 0 < be_value(bytes) < secp256k1_order()
}

/// `secp256k1::SecretKey::from_slice` succeeds: the library accepts a
/// 32-byte string as a secret key exactly when its number is not zero and
/// below the curve order.
#[verifier::external_body]
fn secret_key_accepted(bytes: &[u8; 32]) -> (r: bool)
    ensures
        r == is_valid_secret(bytes@),
{
    bitcoin::secp256k1::SecretKey::from_slice(bytes).is_ok()
}

/// `RngCore::fill_bytes`: overwrites `bytes` with output of the generator.
/// What it writes is left unsaid: it depends on the generator's state.
#[verifier::external_body]
fn fill_random(rng: &mut rand_chacha::ChaCha20Rng, bytes: &mut [u8; 32]) {
    rand::RngCore::fill_bytes(rng, bytes);
}

/// The 33-byte compressed secp256k1 public key of a secret key.
pub uninterp spec fn secp256k1_public_key(secret: Seq<u8>) -> Seq<u8>;

/// `secp256k1::PublicKey::from_secret_key`, serialised compressed (33 bytes).
#[verifier::external_body]
fn public_key_of(secret: &[u8; 32]) -> (r: [u8; 33])
    requires
        is_valid_secret(secret@),
    ensures
        r@ == secp256k1_public_key(secret@),
{
    let sk = bitcoin::secp256k1::SecretKey::from_slice(secret).expect("valid secret key");
    let secp = bitcoin::secp256k1::Secp256k1::new();
    bitcoin::secp256k1::PublicKey::from_secret_key(&secp, &sk).serialize()
}

/// The public key of some valid secret key.
pub open spec fn is_derived_public_key(pubkey: Seq<u8>) -> bool {
    exists|s: Seq<u8>| is_valid_secret(s) && pubkey == secp256k1_public_key(s)
}

/// The text of the pay-to-public-key-hash address of a compressed public key.
pub uninterp spec fn p2pkh_address(pubkey: Seq<u8>, network: BitcoinNetwork) -> Seq<char>;

/// `Address::p2pkh(pk, network).to_string()` for a compressed public key.
#[verifier::external_body]
fn p2pkh_address_string(pubkey: &[u8; 33], network: BitcoinNetwork) -> (r: String)
    requires
        is_derived_public_key(pubkey@),
    ensures
        r@ == p2pkh_address(pubkey@, network),
        vstd::utf8::is_ascii_chars(r@),
        network == BitcoinNetwork::Bitcoin ==> 25 <= r@.len() <= 34 && r@[0] == '1',
{
    let pk = bitcoin::PublicKey::from_slice(pubkey).expect("valid public key");
    let net = match network {
        BitcoinNetwork::Bitcoin => bitcoin::Network::Bitcoin,
        BitcoinNetwork::Testnet => bitcoin::Network::Testnet,
        BitcoinNetwork::Testnet4 => bitcoin::Network::Testnet4,
        BitcoinNetwork::Signet => bitcoin::Network::Signet,
        BitcoinNetwork::Regtest => bitcoin::Network::Regtest,
    };
    bitcoin::Address::p2pkh(pk, net).to_string()
}

/// The text of the native SegWit (pay-to-witness-public-key-hash) address of
/// a compressed public key.
pub uninterp spec fn p2wpkh_address(pubkey: Seq<u8>, network: BitcoinNetwork) -> Seq<char>;

/// `Address::p2wpkh(&pk, KnownHrp::from(network)).to_string()`.
#[verifier::external_body]
fn p2wpkh_address_string(pubkey: &[u8; 33], network: BitcoinNetwork) -> (r: String)
    requires
        is_derived_public_key(pubkey@),
    ensures
        r@ == p2wpkh_address(pubkey@, network),
        vstd::utf8::is_ascii_chars(r@),
        network == BitcoinNetwork::Bitcoin ==> r@.len() == 42 && r@.subrange(0, 4) == "bc1q"@,
{
    let pk = bitcoin::key::CompressedPublicKey::from_slice(pubkey).expect("valid public key");
    let net = match network {
        BitcoinNetwork::Bitcoin => bitcoin::Network::Bitcoin,
        BitcoinNetwork::Testnet => bitcoin::Network::Testnet,
        BitcoinNetwork::Testnet4 => bitcoin::Network::Testnet4,
        BitcoinNetwork::Signet => bitcoin::Network::Signet,
        BitcoinNetwork::Regtest => bitcoin::Network::Regtest,
    };
    let hrp = bitcoin::address::KnownHrp::from(net);
    bitcoin::Address::p2wpkh(&pk, hrp).to_string()
}

/// The wallet import format of a secret key, marked compressed.
pub uninterp spec fn wif_compressed(secret: Seq<u8>, network: BitcoinNetwork) -> Seq<char>;

/// `PrivateKey { compressed: true, network, inner }.to_wif()`.
#[verifier::external_body]
fn wif_string(secret: &[u8; 32], network: BitcoinNetwork) -> (r: String)
    requires
        is_valid_secret(secret@),
    ensures
        r@ == wif_compressed(secret@, network),
        vstd::utf8::is_ascii_chars(r@),
        network == BitcoinNetwork::Bitcoin ==> r@.len() == 52 && (r@[0] == 'K' || r@[0] == 'L'),
{
    let inner = bitcoin::secp256k1::SecretKey::from_slice(secret).expect("valid secret key");
    let net = match network {
        BitcoinNetwork::Bitcoin => bitcoin::Network::Bitcoin,
        BitcoinNetwork::Testnet => bitcoin::Network::Testnet,
        BitcoinNetwork::Testnet4 => bitcoin::Network::Testnet4,
        BitcoinNetwork::Signet => bitcoin::Network::Signet,
        BitcoinNetwork::Regtest => bitcoin::Network::Regtest,
    };
    bitcoin::PrivateKey { compressed: true, network: net.into(), inner }.to_wif()
}

/// Mines Bitcoin (secp256k1) addresses.
pub struct BitcoinBackend {
    pub network: BitcoinNetwork,
    pub address_type: BitcoinAddressType,
}

/// The address text of a secret key for a network and address type.
pub open spec fn bitcoin_address(
    secret: Seq<u8>,
    network: BitcoinNetwork,
    address_type: BitcoinAddressType,
) -> Seq<char> {
    match address_type {
        BitcoinAddressType::Legacy => p2pkh_address(secp256k1_public_key(secret), network),
        BitcoinAddressType::Segwit => p2wpkh_address(secp256k1_public_key(secret), network),
    }
}

/// On mainnet, legacy addresses start with `1` and have 25 to 34 characters,
/// and SegWit addresses start with `bc1q` and have 42 characters.
pub open spec fn has_mainnet_form(address: Seq<char>, address_type: BitcoinAddressType) -> bool {
    match address_type {
        BitcoinAddressType::Legacy => 25 <= address.len() <= 34 && address[0] == '1',
        BitcoinAddressType::Segwit => address.len() == 42 && address.subrange(0, 4) == "bc1q"@,
    }
}

/// A mainnet compressed WIF: 52 characters starting with `K` or `L`.
pub open spec fn has_mainnet_wif_form(wif: Seq<char>) -> bool {
    wif.len() == 52 && (wif[0] == 'K' || wif[0] == 'L')
}

/// `m` reports the secret key `secret` under `rule`.
pub open spec fn is_bitcoin_match(
    m: BackendMatch,
    secret: Seq<u8>,
    network: BitcoinNetwork,
    address_type: BitcoinAddressType,
    rule: PrefixRule,
) -> bool {
    &&& m.prefix@ == rule.raw@
    &&& m.public_str@ == bitcoin_address(secret, network, address_type)
    &&& m.public_bytes@ == secp256k1_public_key(secret)
    &&& m.secret_hex@ == hex_lower(secret)
    &&& m.secret_bytes@ == secret
    &&& m.secret_json@ == json_byte_array(secret)
    &&& m.secret_wif matches Some(w) && w@ == wif_compressed(secret, network)
}

impl BitcoinBackend {
    /// A backend for the given network and address type.
    pub fn new(network: BitcoinNetwork, address_type: BitcoinAddressType) -> (r: Self)
        ensures
            r.network == network,
            r.address_type == address_type,
    {
        Self { network, address_type }
    }

    /// The address bytes of `secret` (UTF-8 of its address text).
    pub open spec fn address_bytes(&self, secret: Seq<u8>) -> Seq<u8> {
        vstd::utf8::encode_utf8(bitcoin_address(secret, self.network, self.address_type))
    }

    /// The match of a given secret key: its address is copied to the start of
    /// `buffer` (nothing happens where it does not fit) and compared with the
    /// rules; the first rule that it starts with is reported together with
    /// the key in all formats.
    pub fn bitcoin_match(
        &self,
        secret: &[u8; 32],
        rules: &[PrefixRule],
        ignore_case: bool,
        buffer: &mut [u8],
    ) -> (res: Option<BackendMatch>)
        requires
            is_valid_secret(secret@),
        ensures
            final(buffer)@.len() == old(buffer)@.len(),
            self.address_bytes(secret@).len() > old(buffer)@.len() ==> res is None
                && final(buffer)@ == old(buffer)@,
            self.address_bytes(secret@).len() <= old(buffer)@.len() ==> {
                &&& final(buffer)@.subrange(0, self.address_bytes(secret@).len() as int)
                    == self.address_bytes(secret@)
                &&& final(buffer)@.subrange(
                    self.address_bytes(secret@).len() as int,
                    old(buffer)@.len() as int,
                ) == old(buffer)@.subrange(
                    self.address_bytes(secret@).len() as int,
                    old(buffer)@.len() as int,
                )
                &&& (res is None <==> no_rule_matches(
                    rules@,
                    self.address_bytes(secret@),
                    ignore_case,
                ))
            },
            res matches Some(m) ==> exists|i: int|
                #![trigger is_first_match(rules@, self.address_bytes(secret@), ignore_case, i)]
                is_first_match(rules@, self.address_bytes(secret@), ignore_case, i)
                    && is_bitcoin_match(m, secret@, self.network, self.address_type, rules@[i]),
            res matches Some(m) ==> reports_first_rule(rules@, m, ignore_case),
            self.address_bytes(secret@).len() == bitcoin_address(
                secret@,
                self.network,
                self.address_type,
            ).len(),
            self.network == BitcoinNetwork::Bitcoin ==> has_mainnet_form(
                bitcoin_address(secret@, self.network, self.address_type),
                self.address_type,
            ),
            (self.network == BitcoinNetwork::Bitcoin && res is Some) ==> (res->0.secret_wif matches Some(
                w,
            ) && has_mainnet_wif_form(w@)),
    {
        let public_key = public_key_of(secret);
        assert(is_derived_public_key(public_key@));
        let address_str = match self.address_type {
            BitcoinAddressType::Legacy => p2pkh_address_string(&public_key, self.network),
            BitcoinAddressType::Segwit => p2wpkh_address_string(&public_key, self.network),
        };
        let address_bytes = address_str.as_str().as_bytes();
        let ghost addr = self.address_bytes(secret@);
        assert(address_bytes@ == addr);
        proof {
            vstd::utf8::is_ascii_chars_encode_utf8(address_str@);
        }
        let n = address_bytes.len();
        if n > buffer.len() {
            return None;
        }
        let ghost old_buffer = buffer@;
        let mut i: usize = 0;
        while i < n
            invariant
                n == addr.len(),
                n <= buffer@.len(),
                address_bytes@ == addr,
                buffer@.len() == old_buffer.len(),
                i <= n,
                forall|j: int| 0 <= j < i ==> #[trigger] buffer@[j] == addr[j],
                forall|j: int| i <= j < buffer@.len() ==> #[trigger] buffer@[j] == old_buffer[j],
            decreases n - i,
        {
            buffer[i] = address_bytes[i];
            i += 1;
        }
        assert(buffer@.subrange(0, n as int) =~= addr);
        assert(buffer@.subrange(n as int, buffer@.len() as int) =~= old_buffer.subrange(
            n as int,
            old_buffer.len() as int,
        ));
        let candidate = vstd::slice::slice_subrange(buffer, 0, n);
        assert(candidate@ == addr);
        match find_matching_rule(candidate, rules, ignore_case) {
            None => None,
            Some(k) => {
                let secret_vec = vstd::slice::slice_to_vec(secret.as_slice());
                let m = BackendMatch {
                    prefix: rules[k].raw.clone(),
                    public_str: address_str,
                    public_bytes: vstd::slice::slice_to_vec(public_key.as_slice()),
                    secret_hex: hex_encode(secret.as_slice()),
                    secret_json: json_bytes(secret_vec.as_slice()),
                    secret_bytes: secret_vec,
                    secret_wif: Some(wif_string(secret, self.network)),
                };
                proof {
                    // the reported rule is first for the bytes of the address text
                    assert(is_first_match(
                        rules@,
                        vstd::utf8::encode_utf8(m.public_str@),
                        ignore_case,
                        k as int,
                    ));
                }
                Some(m)
            },
        }
    }

    /// Draws 32-byte strings from `rng` until one is a valid secret key; gives
    /// up, with `None`, only after `u64::MAX` rejected draws. The second
    /// result counts the rejected draws.
    pub fn draw_secret_key(rng: &mut rand_chacha::ChaCha20Rng) -> (r: (Option<[u8; 32]>, Ghost<u64>))
        ensures
            r.0 matches Some(s) ==> is_valid_secret(s@) && r.1@ < u64::MAX,
            r.0 is None ==> r.1@ == u64::MAX,
    {
        let mut rejected: u64 = 0;
        loop
            invariant
                rejected < u64::MAX,
            decreases u64::MAX - rejected,
        {
            let mut candidate = [0u8; 32];
            fill_random(rng, &mut candidate);
            match draw_step(&candidate, rejected) {
                DrawStep::Accept => {
                    return (Some(candidate), Ghost(rejected));
                },
                DrawStep::GiveUp => {
                    return (None, Ghost(u64::MAX));
                },
                DrawStep::Retry(n) => {
                    rejected = n;
                },
            }
        }
    }
}

/// What follows a drawn 32-byte string.
#[derive(Clone, Copy, PartialEq, Eq, Debug)]
pub enum DrawStep {
    /// It is a valid secret key: use it.
    Accept,
    /// It is rejected; draw again, with this many rejections so far.
    Retry(u64),
    /// It is rejected, and the last permitted draw was made.
    GiveUp,
}

/// The decision on a drawn string after `rejected` earlier rejections: a
/// valid secret key is accepted; otherwise the miner draws again, unless this
/// was the `u64::MAX`-th rejection.
pub fn draw_step(candidate: &[u8; 32], rejected: u64) -> (r: DrawStep)
    requires
        rejected < u64::MAX,
    ensures
        r == (if is_valid_secret(candidate@) {
            DrawStep::Accept
        } else if rejected + 1 == u64::MAX {
            DrawStep::GiveUp
        } else {
            DrawStep::Retry((rejected + 1) as u64)
        }),
{
    if secret_key_accepted(candidate) {
        DrawStep::Accept
    } else if rejected + 1 == u64::MAX {
        DrawStep::GiveUp
    } else {
        DrawStep::Retry(rejected + 1)
    }
}

impl Default for BitcoinBackend {
    /// Mainnet legacy addresses.
    fn default() -> (r: Self)
        ensures
            r.network == BitcoinNetwork::Bitcoin,
            r.address_type == BitcoinAddressType::Legacy,
    {
        Self::new(BitcoinNetwork::Bitcoin, BitcoinAddressType::Legacy)
    }
}

impl VanityBackend for BitcoinBackend {
    /// Any buffer will do: an address that does not fit is not matched.
    open spec fn min_buffer(&self) -> nat {
        0
    }

    fn name(&self) -> (r: &'static str)
        ensures
            r@ == "bitcoin"@,
    {
        "bitcoin"
    }

    fn try_generate_match(
        &self,
        rng: &mut rand_chacha::ChaCha20Rng,
        rules: &[PrefixRule],
        ignore_case: bool,
        buffer: &mut [u8],
    ) -> (res: Option<BackendMatch>)
        ensures
            exists|drawn: Option<[u8; 32]>|
                #![trigger drawn is Some]
                {
                    &&& (drawn is None ==> res is None && final(buffer)@ == old(buffer)@)
                    &&& (drawn matches Some(secret) ==> {
                        let addr = self.address_bytes(secret@);
                        let n = old(buffer)@.len();
                        &&& is_valid_secret(secret@)
                        &&& (addr.len() > n ==> final(buffer)@ == old(buffer)@)
                        &&& (addr.len() <= n ==> {
                            &&& final(buffer)@.subrange(0, addr.len() as int) == addr
                            &&& final(buffer)@.subrange(addr.len() as int, n as int)
                                == old(buffer)@.subrange(addr.len() as int, n as int)
                        })
                        &&& (res is None <==> addr.len() > n || no_rule_matches(
                            rules@,
                            addr,
                            ignore_case,
                        ))
                        &&& (res matches Some(m) ==> exists|i: int|
                            #![trigger is_first_match(rules@, addr, ignore_case, i)]
                            is_first_match(rules@, addr, ignore_case, i) && is_bitcoin_match(
                                m,
                                secret@,
                                self.network,
                                self.address_type,
                                rules@[i],
                            ))
                        &&& addr.len() == bitcoin_address(
                            secret@,
                            self.network,
                            self.address_type,
                        ).len()
                        &&& (self.network == BitcoinNetwork::Bitcoin ==> has_mainnet_form(
                            bitcoin_address(secret@, self.network, self.address_type),
                            self.address_type,
                        ))
                        &&& ((self.network == BitcoinNetwork::Bitcoin && res is Some)
                            ==> (res->0.secret_wif matches Some(w) && has_mainnet_wif_form(w@)))
                    })
                },
    {
        let (drawn, Ghost(_rejected)) = Self::draw_secret_key(rng);
        let res = match drawn {
            None => None,
            Some(secret) => self.bitcoin_match(&secret, rules, ignore_case, buffer),
        };
        // the drawn key, if any, is the witness of the postcondition
        assert(drawn is Some ==> is_valid_secret(drawn->0@));
        res
    }
}

} // verus!
