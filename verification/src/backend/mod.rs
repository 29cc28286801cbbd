use vstd::prelude::*;

use crate::matcher::{is_first_match, PrefixRule};

pub mod bitcoin;
pub mod solana;

pub use bitcoin::{BitcoinAddressType, BitcoinBackend, BitcoinNetwork, DrawStep};
pub use solana::{Ed25519Keys, SolanaBackend};

verus! {

#[verifier::external_type_specification]
#[verifier::external_body]
pub struct ExChaCha20Rng(rand_chacha::ChaCha20Rng);

/// The shortest buffer that every Solana address fits into: the base58 text
/// of 32 bytes has at most 44 characters.
pub const MIN_BUFFER_LEN: usize = 44;

/// A key pair whose public address matched one of the prefix rules, with the
/// secret in the formats that are reported.
pub struct BackendMatch {
    /// The prefix, as given, that matched.
    pub prefix: String,
    /// The public address.
    pub public_str: String,
    pub public_bytes: Vec<u8>,
    pub secret_hex: String,
    pub secret_bytes: Vec<u8>,
    pub secret_json: String,
    /// The secret in wallet import format, where the chain has one.
    pub secret_wif: Option<String>,
}

/// `m` reports the first rule of `rules` that its public address matches.
pub open spec fn reports_first_rule(rules: Seq<PrefixRule>, m: BackendMatch, ignore_case: bool) -> bool {
    exists|i: int|
        #![trigger is_first_match(rules, vstd::utf8::encode_utf8(m.public_str@), ignore_case, i)]
        is_first_match(rules, vstd::utf8::encode_utf8(m.public_str@), ignore_case, i)
            && m.prefix@ == rules[i].raw@
}

/// A chain whose addresses can be mined for prefixes.
pub trait VanityBackend {
    /// The chain's name.
    fn name(&self) -> &'static str;

    /// How long `buffer` must be for `try_generate_match`.
    spec fn min_buffer(&self) -> nat;

    /// Draws one key pair from `rng`, writes its address into `buffer` and
    /// returns it as a match for the first rule that the address starts with,
    /// or `None` where no rule matches.
    fn try_generate_match(
        &self,
        rng: &mut rand_chacha::ChaCha20Rng,
        rules: &[PrefixRule],
        ignore_case: bool,
        buffer: &mut [u8],
    ) -> (res: Option<BackendMatch>)
        requires
            old(buffer)@.len() >= self.min_buffer(),
        ensures
            final(buffer)@.len() == old(buffer)@.len(),
            res matches Some(m) ==> reports_first_rule(rules@, m, ignore_case),
    ;
}

} // verus!
