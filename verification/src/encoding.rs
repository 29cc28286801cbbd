use vstd::prelude::*;
use vstd::string::*;

use crate::text::{decimal, join_byte_decimals, push_char};

verus! {

// ---------------------------------------------------------------- base58

/// The byte of base58 digit `d` in the Bitcoin alphabet
/// `123456789ABCDEFGHJKLMNPQRSTUVWXYZabcdefghijkmnopqrstuvwxyz`.
pub open spec fn base58_char(d: nat) -> u8
    recommends
        d < 58,
{
    if d < 9 {
        (49 + d) as u8  // '1'..='9'
    } else if d < 17 {
        (65 + (d - 9)) as u8  // 'A'..='H'
    } else if d < 22 {
        (74 + (d - 17)) as u8  // 'J'..='N'
    } else if d < 33 {
        (80 + (d - 22)) as u8  // 'P'..='Z'
    } else if d < 44 {
        (97 + (d - 33)) as u8  // 'a'..='k'
    } else {
        (109 + (d - 44)) as u8  // 'm'..='z'
    }
}

/// The number that `bytes` write in base 256, most significant byte first.
pub open spec fn be_value(bytes: Seq<u8>) -> nat
    decreases bytes.len(),
{
    if bytes.len() == 0 {
        0
    } else {
        be_value(bytes.drop_last()) * 256 + bytes.last() as nat
    }
}

/// How many zero bytes `bytes` starts with.
pub open spec fn leading_zero_bytes(bytes: Seq<u8>) -> nat
    decreases bytes.len(),
{
    if bytes.len() > 0 && bytes[0] == 0 {
        1 + leading_zero_bytes(bytes.drop_first())
    } else {
        0
    }
}

/// The base58 digits of `n`, most significant first, without leading zero
/// digits (none at all for zero).
pub open spec fn base58_digits(n: nat) -> Seq<u8>
    decreases n,
{
    if n == 0 {
        Seq::empty()
    } else {
        base58_digits(n / 58).push(base58_char(n % 58))
    }
}

/// Base58 with the Bitcoin alphabet: one `1` for every leading zero byte,
/// then the base58 digits of the number that the bytes write.
pub open spec fn base58_encode(bytes: Seq<u8>) -> Seq<u8> {
    Seq::new(leading_zero_bytes(bytes), |i: int| 49u8) + base58_digits(be_value(bytes))
}

#[verifier::external_type_specification]
#[verifier::external_body]
pub struct ExBs58EncodeError(bs58::encode::Error);

/// `bs58::encode(input).onto(buffer)`: writes the base58 text of `input`
/// (Bitcoin alphabet, no checksum) at the start of `buffer` and returns its
/// length; it fails, with the buffer's contents left unspecified, exactly when
/// the text is longer than the buffer. Bytes after the text are left alone.
#[verifier::external_body]
pub(crate) fn bs58_encode_onto(input: &[u8], buffer: &mut [u8]) -> (r: Result<usize, bs58::encode::Error>)
    ensures
        final(buffer)@.len() == old(buffer)@.len(),
        r is Ok <==> base58_encode(input@).len() <= old(buffer)@.len(),
        r matches Ok(n) ==> {
            &&& n == base58_encode(input@).len()
            &&& final(buffer)@.subrange(0, n as int) == base58_encode(input@)
            &&& final(buffer)@.subrange(n as int, final(buffer)@.len() as int) == old(
                buffer,
            )@.subrange(n as int, old(buffer)@.len() as int)
        },
{
    bs58::encode(input).onto(buffer)
}

/// `b` to the power `e`.
pub open spec fn power(b: nat, e: nat) -> nat
    decreases e,
{
    if e == 0 {
        1
    } else {
        b * power(b, (e - 1) as nat)
    }
}

proof fn lemma_power_positive(b: nat, e: nat)
    requires
        b > 0,
    ensures
        power(b, e) > 0,
    decreases e,
{
    if e > 0 {
        lemma_power_positive(b, (e - 1) as nat);
        assert(b * power(b, (e - 1) as nat) > 0) by (nonlinear_arith)
            requires
                b > 0,
                power(b, (e - 1) as nat) > 0,
        ;
    }
}

proof fn lemma_power_adds(b: nat, e1: nat, e2: nat)
    ensures
        power(b, e1 + e2) == power(b, e1) * power(b, e2),
    decreases e1,
{
    if e1 > 0 {
        let e = (e1 - 1) as nat;
        lemma_power_adds(b, e, e2);
        assert((e + e2) as nat == (e1 + e2 - 1) as nat);
        assert(power(b, e1 + e2) == b * power(b, (e + e2) as nat));
        assert(power(b, e1) == b * power(b, e));
        let x = power(b, e);
        let y = power(b, e2);
        assert(power(b, e + e2) == x * y);
        assert(b * (x * y) == (b * x) * y) by (nonlinear_arith);
        assert(power(b, e1 + e2) == b * (x * y));
    } else {
        assert(power(b, e1) == 1);
        assert(power(b, e1 + e2) == power(b, e2));
    }
}

proof fn lemma_power_le_base(a: nat, b: nat, e: nat)
    requires
        a <= b,
    ensures
        power(a, e) <= power(b, e),
    decreases e,
{
    if e > 0 {
        lemma_power_le_base(a, b, (e - 1) as nat);
        let pa = power(a, (e - 1) as nat);
        let pb = power(b, (e - 1) as nat);
        assert(a * pa <= b * pb) by (nonlinear_arith)
            requires
                a <= b,
                pa <= pb,
        ;
    }
}

/// A number below `58^k` has at most `k` base58 digits.
proof fn lemma_digits_len(n: nat, k: nat)
    requires
        n < power(58, k),
    ensures
        base58_digits(n).len() <= k,
    decreases n,
{
    if n > 0 {
        assert(k > 0);
        let q = n / 58;
        assert(q < power(58, (k - 1) as nat)) by (nonlinear_arith)
            requires
                n < 58 * power(58, (k - 1) as nat),
                q == n / 58,
        ;
        lemma_digits_len(q, (k - 1) as nat);
    }
}

/// The number that `bytes` write is below `256^len`.
proof fn lemma_be_value_bound(bytes: Seq<u8>)
    ensures
        be_value(bytes) < power(256, bytes.len()),
    decreases bytes.len(),
{
    if bytes.len() > 0 {
        let s = bytes.drop_last();
        lemma_be_value_bound(s);
        let v = be_value(s);
        let p = power(256, s.len());
        let b = bytes.last() as nat;
        assert(v * 256 + b < 256 * p) by (nonlinear_arith)
            requires
                v < p,
                b < 256,
        ;
    }
}

/// Leading zero bytes do not change the number that the bytes write.
proof fn lemma_be_value_skip_zeros(bytes: Seq<u8>)
    ensures
        leading_zero_bytes(bytes) <= bytes.len(),
        be_value(bytes) == be_value(bytes.subrange(
            leading_zero_bytes(bytes) as int,
            bytes.len() as int,
        )),
    decreases bytes.len(),
{
    if bytes.len() > 0 && bytes[0] == 0 {
        let t = bytes.drop_first();
        lemma_be_value_skip_zeros(t);
        assert(t.subrange(leading_zero_bytes(t) as int, t.len() as int) =~= bytes.subrange(
            leading_zero_bytes(bytes) as int,
            bytes.len() as int,
        ));
        lemma_be_value_drop_zero(bytes);
    } else {
        assert(bytes.subrange(0, bytes.len() as int) =~= bytes);
    }
}

proof fn lemma_be_value_drop_zero(bytes: Seq<u8>)
    requires
        bytes.len() > 0,
        bytes[0] == 0,
    ensures
        be_value(bytes) == be_value(bytes.drop_first()),
    decreases bytes.len(),
{
    if bytes.len() > 1 {
        let s = bytes.drop_last();
        lemma_be_value_drop_zero(s);
        let t = bytes.drop_first();
        assert(s.drop_first() =~= t.drop_last());
        assert(t.last() == bytes.last());
        assert(be_value(t) == be_value(t.drop_last()) * 256 + t.last() as nat);
        assert(be_value(bytes) == be_value(s) * 256 + bytes.last() as nat);
    } else {
        assert(bytes.drop_last().len() == 0);
        assert(bytes.drop_first().len() == 0);
        assert(be_value(bytes) == be_value(bytes.drop_last()) * 256 + bytes.last() as nat);
    }
}

proof fn lemma_power_256_32_below_58_44()
    ensures
        power(256, 32) < power(58, 44),
{
    reveal_with_fuel(power, 45);
}

/// The base58 text of 32 bytes has at most 44 characters.
pub proof fn lemma_base58_len_32(bytes: Seq<u8>)
    requires
        bytes.len() == 32,
    ensures
        base58_encode(bytes).len() <= 44,
{
    lemma_be_value_skip_zeros(bytes);
    let z = leading_zero_bytes(bytes);
    let rest = bytes.subrange(z as int, 32);
    let m = (32 - z) as nat;
    lemma_be_value_bound(rest);
    // 256^m * 256^(32-m) = 256^32 < 58^44 = 58^(m+12) * 58^(32-m) <= 58^(m+12) * 256^(32-m)
    lemma_power_256_32_below_58_44();
    lemma_power_adds(256, m, z);
    lemma_power_adds(58, m + 12, z);
    lemma_power_le_base(58, 256, z);
    lemma_power_positive(256, z);
    let a = power(256, m);
    let b = power(58, m + 12);
    let c = power(256, z);
    let d = power(58, z);
    assert(a < b) by (nonlinear_arith)
        requires
            a * c < b * d,
            d <= c,
            c > 0,
    ;
    lemma_digits_len(be_value(bytes), m + 12);
}

/// The ASCII characters of `bytes`.
pub open spec fn ascii_chars(bytes: Seq<u8>) -> Seq<char> {
    bytes.map_values(|b: u8| b as char)
}

/// Every base58 character is an ASCII byte.
pub proof fn lemma_base58_ascii(bytes: Seq<u8>)
    ensures
        forall|i: int|
            0 <= i < base58_encode(bytes).len() ==> #[trigger] base58_encode(bytes)[i] < 128,
{
    lemma_base58_digits_ascii(be_value(bytes));
}

proof fn lemma_base58_digits_ascii(n: nat)
    ensures
        forall|i: int| 0 <= i < base58_digits(n).len() ==> #[trigger] base58_digits(n)[i] < 128,
    decreases n,
{
    if n > 0 {
        lemma_base58_digits_ascii(n / 58);
        let d = n % 58;
        assert(base58_char(d) < 128);
        assert(base58_digits(n) == base58_digits(n / 58).push(base58_char(d)));
    }
}

/// A string of the first `n` bytes of `bytes`, each taken as an ASCII character.
pub fn ascii_string(bytes: &[u8], n: usize) -> (r: String)
    requires
        n <= bytes@.len(),
        forall|i: int| 0 <= i < n ==> #[trigger] bytes@[i] < 128,
    ensures
        r@ == ascii_chars(bytes@.subrange(0, n as int)),
{
    let mut r = String::new();
    let mut i: usize = 0;
    while i < n
        invariant
            n <= bytes@.len(),
            i <= n,
            r@ == ascii_chars(bytes@.subrange(0, i as int)),
        decreases n - i,
    {
        push_char(&mut r, bytes[i] as char);
        i += 1;
        assert(r@ =~= ascii_chars(bytes@.subrange(0, i as int)));
    }
    r
}

// ---------------------------------------------------------------- hex

/// The lower-case hexadecimal character of `d < 16`.
pub open spec fn hex_digit(d: nat) -> char {
    if d < 10 {
        (48 + d) as char
    } else {
        (87 + d) as char
    }
}

/// Lower-case hexadecimal, two characters per byte, high half first.
pub open spec fn hex_lower(bytes: Seq<u8>) -> Seq<char>
    decreases bytes.len(),
{
    if bytes.len() == 0 {
        Seq::empty()
    } else {
        hex_lower(bytes.drop_last()) + seq![
            hex_digit(bytes.last() as nat / 16),
            hex_digit(bytes.last() as nat % 16),
        ]
    }
}

/// `hex::encode`: lower-case hexadecimal, two characters per byte.
#[verifier::external_body]
pub(crate) fn hex_encode(bytes: &[u8]) -> (r: String)
    ensures
        r@ == hex_lower(bytes@),
{
    hex::encode(bytes)
}

// ---------------------------------------------------------------- byte lists

/// The decimal numbers of `bytes` joined by `sep`.
pub open spec fn join_decimals(bytes: Seq<u8>, sep: Seq<char>) -> Seq<char>
    decreases bytes.len(),
{
    if bytes.len() == 0 {
        Seq::empty()
    } else if bytes.len() == 1 {
        decimal(bytes[0] as nat)
    } else {
        join_decimals(bytes.drop_last(), sep) + sep + decimal(bytes.last() as nat)
    }
}

/// A JSON array of the bytes as numbers, without spaces: `[1,2,3]`.
pub open spec fn json_byte_array(bytes: Seq<u8>) -> Seq<char> {
    seq!['['] + join_decimals(bytes, seq![',']) + seq![']']
}

/// The `Debug` text of a byte array: `[1, 2, 3]`.
pub open spec fn debug_byte_list(bytes: Seq<u8>) -> Seq<char> {
    seq!['['] + join_decimals(bytes, seq![',', ' ']) + seq![']']
}

#[verifier::external_type_specification]
#[verifier::external_body]
pub struct ExJsonError(serde_json::Error);

/// `serde_json::to_string` on a `Vec<u8>`: a compact JSON array of the byte
/// values in decimal. Serialising a byte vector to a string never fails.
#[verifier::external_body]
fn json_encode_bytes(bytes: &[u8]) -> (r: Result<String, serde_json::Error>)
    ensures
        r is Ok,
        r matches Ok(s) ==> s@ == json_byte_array(bytes@),
{
    serde_json::to_string(&bytes.to_vec())
}

/// The JSON array of `bytes` (`[]` should serialisation fail).
pub fn json_bytes(bytes: &[u8]) -> (r: String)
    ensures
        r@ == json_byte_array(bytes@),
{
    match json_encode_bytes(bytes) {
        Ok(s) => s,
        Err(_) => String::from_str("[]"),
    }
}

} // verus!

verus! {

/// The `Debug` text of a byte array: `[1, 2, 3]`.
pub fn debug_bytes(bytes: &[u8]) -> (r: String)
    ensures
        r@ == debug_byte_list(bytes@),
{
    let mut r = String::from_str("[");
    let inner = join_byte_decimals(bytes, ", ");
    r.append(inner.as_str());
    r.append("]");
    proof {
        reveal_strlit("[");
        reveal_strlit("]");
        reveal_strlit(", ");
        assert(", "@ =~= seq![',', ' ']);
    }
    assert(r@ =~= debug_byte_list(bytes@));
    r
}

} // verus!

verus! {

/// Hexadecimal takes two characters per byte.
pub proof fn lemma_hex_len(bytes: Seq<u8>)
    ensures
        hex_lower(bytes).len() == 2 * bytes.len(),
    decreases bytes.len(),
{
    if bytes.len() > 0 {
        lemma_hex_len(bytes.drop_last());
    }
}

} // verus!
