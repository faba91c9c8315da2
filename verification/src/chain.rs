//! Verified front of the two chains' deterministic primitives: address
//! validation, base58, base64, and the Solana program-derived addresses.
//! Each trusted item names exactly what the outside call computes; the logic
//! around them is verified.

use base64::prelude::BASE64_STANDARD;
use base64::Engine;
use core::str::FromStr;
use vstd::prelude::*;

verus! {

/// A hexadecimal digit, either case.
pub open spec fn is_hex_digit(c: char) -> bool {
    48 <= c as u32 <= 57 || 65 <= c as u32 <= 70 || 97 <= c as u32 <= 102
}

/// Exactly forty hexadecimal digits.
pub open spec fn evm_address_body_ok(s: Seq<char>) -> bool {
    s.len() == 40 && forall|i: int| 0 <= i < s.len() ==> is_hex_digit(#[trigger] s[i])
}

/// Whether a string parses as a 20-byte EVM address: forty hexadecimal
/// digits, either case, with an optional 0x or 0X prefix.
pub open spec fn evm_address_ok(s: Seq<char>) -> bool {
    evm_address_body_ok(s) || (s.len() == 42 && s[0] as u32 == 48 && (s[1] as u32 == 120 || s[1]
        as u32 == 88) && evm_address_body_ok(s.skip(2)))
}

/// Relies on alloy_primitives::Address::from_str: it strips one optional
/// 0x/0X prefix and accepts exactly forty hexadecimal digits of either case.
#[verifier::external_body]
pub fn parse_evm_address(s: &str) -> (r: bool)
    ensures
        r == evm_address_ok(s@),
{
    alloy_primitives::Address::from_str(s).is_ok()
}

/// Whether a string parses as a 32-byte Solana public key.
pub uninterp spec fn solana_pubkey_ok(s: Seq<char>) -> bool;

/// Relies on solana_pubkey::Pubkey::from_str: accepts exactly the base58
/// strings of at most 44 characters that decode to 32 bytes.
#[verifier::external_body]
pub fn parse_solana_pubkey(s: &str) -> (r: bool)
    ensures
        r == solana_pubkey_ok(s@),
{
    solana_pubkey::Pubkey::from_str(s).is_ok()
}

/// The bytes a base58 string decodes to, when it is one.
pub uninterp spec fn base58_decoded(s: Seq<char>) -> Option<Seq<u8>>;

/// Relies on bs58::decode with the Bitcoin alphabet: a pure function of the
/// string.
#[verifier::external_body]
pub fn bs58_decode(s: &str) -> (r: Option<Vec<u8>>)
    ensures
        match r {
            Some(v) => base58_decoded(s@) == Some(v@),
            None => base58_decoded(s@) is None,
        },
{
    bs58::decode(s).into_vec().ok()
}

/// The base58 rendering of a byte string.
pub uninterp spec fn base58_of(b: Seq<u8>) -> Seq<char>;

/// Relies on bs58::encode with the Bitcoin alphabet: a pure function of the
/// bytes.
#[verifier::external_body]
pub fn bs58_encode(b: &Vec<u8>) -> (r: String)
    ensures
        r@ == base58_of(b@),
{
    bs58::encode(b).into_string()
}

/// One decimal digit as its character.
pub open spec fn dec_digit(d: nat) -> char {
    ((d + 48) as u32) as char
}

/// The decimal digits of a number, most significant first.
pub open spec fn dec_digits_of(n: nat) -> Seq<char>
    decreases n,
{
    if n < 10 {
        seq![dec_digit(n)]
    } else {
        dec_digits_of(n / 10).push(dec_digit(n % 10))
    }
}

/// The big-endian number a byte string spells.
pub open spec fn be_nat_of(b: Seq<u8>) -> nat
    decreases b.len(),
{
    if b.len() == 0 {
        0
    } else {
        (be_nat_of(b.drop_last()) * 256 + b.last()) as nat
    }
}

/// A decimal rendering is never empty.
pub proof fn lemma_dec_digits_nonempty(n: nat)
    ensures
        dec_digits_of(n).len() >= 1,
    decreases n,
{
    if n >= 10 {
        lemma_dec_digits_nonempty(n / 10);
    }
}

/// Relies on alloy_primitives::U256: a big-endian slice of at most 32 bytes
/// read as a 256-bit number, and its Display, which prints the decimal
/// digits without leading zeros.
#[verifier::external_body]
pub fn u256_decimal_from_be(b: &Vec<u8>) -> (r: String)
    requires
        b@.len() <= 32,
    ensures
        r@ == dec_digits_of(be_nat_of(b@)),
{
    alloy_primitives::U256::from_be_slice(b.as_slice()).to_string()
}

/// The program-derived address found for these seeds under this program id,
/// when the bump search succeeds.
pub uninterp spec fn pda_of(seeds: Seq<Seq<u8>>, program: Seq<u8>) -> Option<Seq<u8>>;

/// Relies on solana_pubkey::Pubkey::try_find_program_address: deterministic
/// in the seeds and the program id alone; a found address is 32 bytes.
#[verifier::external_body]
pub fn find_program_address(seeds: &Vec<Vec<u8>>, program: &Vec<u8>) -> (r: Option<Vec<u8>>)
    requires
        program@.len() == 32,
    ensures
        match r {
            Some(v) => pda_of(seeds.deep_view(), program@) == Some(v@) && v@.len() == 32,
            None => pda_of(seeds.deep_view(), program@) is None,
        },
{
    let program_id = match solana_pubkey::Pubkey::try_from(program.as_slice()) {
        Ok(p) => p,
        Err(_) => {
            return None;
        },
    };
    let seed_refs: Vec<&[u8]> = seeds.iter().map(|s| s.as_slice()).collect();
    solana_pubkey::Pubkey::try_find_program_address(&seed_refs, &program_id).map(
        |found: (solana_pubkey::Pubkey, u8)| found.0.to_bytes().to_vec(),
    )
}

/// The bytes a standard-alphabet base64 string decodes to, when it is one.
pub uninterp spec fn base64_decoded(b: Seq<u8>) -> Option<Seq<u8>>;

/// Relies on base64's standard engine with padding: decoding is a pure
/// function of the input bytes.
#[verifier::external_body]
pub fn b64_decode(b: &[u8]) -> (r: Option<Vec<u8>>)
    ensures
        match r {
            Some(v) => base64_decoded(b@) == Some(v@),
            None => base64_decoded(b@) is None,
        },
{
    BASE64_STANDARD.decode(b).ok()
}

} // verus!
