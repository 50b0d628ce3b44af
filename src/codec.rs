//! The mixed-case checksum form of a 40-digit hexadecimal address: the case
//! of each letter is decided by the Keccak-256 digest of the lowercase digits.

use vstd::prelude::*;
use vstd::string::*;
use crypto::digest::Digest;
use crypto::sha3::Sha3;

verus! {

/// Why an address could not be encoded.
#[derive(Debug, Clone, Copy, PartialEq, Eq)]
pub enum CodecError {
    /// The text is not 40 hex digits, with or without a `0x` prefix.
    InvalidAddressFormat,
}

pub open spec fn is_hex_digit(c: char) -> bool {
    ('0' <= c && c <= '9') || ('a' <= c && c <= 'f') || ('A' <= c && c <= 'F')
}

pub open spec fn is_lower_hex_digit(c: char) -> bool {
    ('0' <= c && c <= '9') || ('a' <= c && c <= 'f')
}

/// The lowercase form of a character of hex text (the letters `A`-`F` and
/// the `X` of a prefix); every other character is unchanged.
pub open spec fn lower_hex(c: char) -> char {
    if c == 'A' { 'a' }
    else if c == 'B' { 'b' }
    else if c == 'C' { 'c' }
    else if c == 'D' { 'd' }
    else if c == 'E' { 'e' }
    else if c == 'F' { 'f' }
    else if c == 'X' { 'x' }
    else { c }
}

/// The uppercase form of a character of hex text (the letters `a`-`f` and
/// the `x` of a prefix); every other character is unchanged.
pub open spec fn upper_hex(c: char) -> char {
    if c == 'a' { 'A' }
    else if c == 'b' { 'B' }
    else if c == 'c' { 'C' }
    else if c == 'd' { 'D' }
    else if c == 'e' { 'E' }
    else if c == 'f' { 'F' }
    else if c == 'x' { 'X' }
    else { c }
}

/// The value of a hex digit, 0 to 15.
pub open spec fn hex_value(c: char) -> int {
    if '0' <= c && c <= '9' {
        c as int - '0' as int
    } else if 'a' <= c && c <= 'f' {
        c as int - 'a' as int + 10
    } else {
        c as int - 'A' as int + 10
    }
}

pub open spec fn has_hex_prefix(s: Seq<char>) -> bool {
    s.len() >= 2 && s[0] == '0' && (s[1] == 'x' || s[1] == 'X')
}

/// The text of an address without its `0x` (or `0X`) prefix.
pub open spec fn address_digits(s: Seq<char>) -> Seq<char> {
    if has_hex_prefix(s) {
        s.skip(2)
    } else {
        s
    }
}

/// Exactly 40 hex digits, in any case, optionally after `0x` or `0X`.
pub open spec fn is_valid_address(s: Seq<char>) -> bool {
    address_digits(s).len() == 40
        && forall|i: int| 0 <= i < 40 ==> is_hex_digit(#[trigger] address_digits(s)[i])
}

/// The 40 digits of an address in lowercase: the text that is hashed.
pub open spec fn lowercase_digits(s: Seq<char>) -> Seq<char> {
    address_digits(s).map_values(|c: char| lower_hex(c))
}

/// The Keccak-256 digest of the bytes of `text`, as lowercase hex.
pub uninterp spec fn keccak256_hex(text: Seq<char>) -> Seq<char>;

/// A lowercase digit, uppercased when the digest digit at its position is
/// above 7.
pub open spec fn checksum_char(c: char, d: char) -> char {
    if hex_value(d) > 7 {
        upper_hex(c)
    } else {
        c
    }
}

/// `0x` followed by the 40 lowercase digits, each cased by the digest digit
/// at the same position.
pub open spec fn apply_checksum(lower: Seq<char>, digest: Seq<char>) -> Seq<char> {
    seq!['0', 'x'] + Seq::new(40, |i: int| checksum_char(lower[i], digest[i]))
}

/// The checksummed form of a valid address.
pub open spec fn checksum_encode(s: Seq<char>) -> Seq<char> {
    apply_checksum(lowercase_digits(s), keccak256_hex(lowercase_digits(s)))
}

/// A valid address that is its own encoding, or whose encoding encodes to
/// itself.
pub open spec fn is_checksum_valid(s: Seq<char>) -> bool {
    is_valid_address(s) && (checksum_encode(s) == s || checksum_encode(checksum_encode(s))
        == checksum_encode(s))
}

/// Relies on rust-crypto's `Sha3::keccak256`, fed the text's bytes, and on
/// `Digest::result_str`, which writes the 32-byte digest as 64 lowercase hex
/// digits.
#[verifier::external_body]
fn keccak256_hex_of(text: &str) -> (r: String)
    ensures
        r@ == keccak256_hex(text@),
        r@.len() == 64,
        forall|i: int| 0 <= i < 64 ==> is_lower_hex_digit(#[trigger] r@[i]),
{
    let mut hasher = Sha3::keccak256();
    hasher.input_str(text);
    hasher.result_str()
}

/// Relies on `String::push`: the character is appended at the end.
#[verifier::external_body]
fn push_char(s: &mut String, c: char)
    ensures
        final(s)@ == old(s)@.push(c),
{
    s.push(c);
}

fn is_hex_digit_exec(c: char) -> (r: bool)
    ensures
        r == is_hex_digit(c),
{
    ('0' <= c && c <= '9') || ('a' <= c && c <= 'f') || ('A' <= c && c <= 'F')
}

fn lower_hex_exec(c: char) -> (r: char)
    ensures
        r == lower_hex(c),
{
    if c == 'A' { 'a' }
    else if c == 'B' { 'b' }
    else if c == 'C' { 'c' }
    else if c == 'D' { 'd' }
    else if c == 'E' { 'e' }
    else if c == 'F' { 'f' }
    else if c == 'X' { 'x' }
    else { c }
}

fn upper_hex_exec(c: char) -> (r: char)
    ensures
        r == upper_hex(c),
{
    if c == 'a' { 'A' }
    else if c == 'b' { 'B' }
    else if c == 'c' { 'C' }
    else if c == 'd' { 'D' }
    else if c == 'e' { 'E' }
    else if c == 'f' { 'F' }
    else if c == 'x' { 'X' }
    else { c }
}

fn hex_value_exec(c: char) -> (r: u32)
    requires
        is_hex_digit(c),
    ensures
        r as int == hex_value(c),
        r < 16,
{
    if '0' <= c && c <= '9' {
        c as u32 - '0' as u32
    } else if 'a' <= c && c <= 'f' {
        c as u32 - 'a' as u32 + 10
    } else {
        c as u32 - 'A' as u32 + 10
    }
}

/// The 40 digits of `address` in lowercase, or `None` when it is not a
/// valid address.
fn lowercase_address_digits(address: &str) -> (r: Option<String>)
    ensures
        match r {
            Some(l) => is_valid_address(address@) && l@ == lowercase_digits(address@),
            None => !is_valid_address(address@),
        },
{
    let n = address.unicode_len();
    let start: usize = if n >= 2 && address.get_char(0) == '0' && (address.get_char(1) == 'x'
        || address.get_char(1) == 'X') {
        2
    } else {
        0
    };
    let ghost digits = address_digits(address@);
    assert(digits =~= address@.subrange(start as int, n as int));
    if n - start != 40 {
        return None;
    }
    let mut lower = String::new();
    let mut i: usize = start;
    while i < n
        invariant
            start <= i <= n,
            n == address@.len(),
            n - start == 40,
            digits == address@.subrange(start as int, n as int),
            lower@.len() == i - start,
            forall|j: int| 0 <= j < i - start ==> is_hex_digit(#[trigger] digits[j]),
            forall|j: int| 0 <= j < i - start ==> #[trigger] lower@[j] == lower_hex(digits[j]),
        decreases n - i,
    {
        let c = address.get_char(i);
        if !is_hex_digit_exec(c) {
            assert(!is_hex_digit(digits[i - start]));
            return None;
        }
        push_char(&mut lower, lower_hex_exec(c));
        i = i + 1;
    }
    assert(lower@ =~= lowercase_digits(address@));
    Some(lower)
}

/// The checksummed address for the 40 lowercase digits `lower` and the hex
/// digest `digest` of those digits.
pub fn checksum_from_digest(lower: &str, digest: &str) -> (r: String)
    requires
        lower@.len() == 40,
        digest@.len() >= 40,
        forall|i: int| 0 <= i < 40 ==> is_lower_hex_digit(#[trigger] digest@[i]),
    ensures
        r@ == apply_checksum(lower@, digest@),
{
    let mut out = String::new();
    push_char(&mut out, '0');
    push_char(&mut out, 'x');
    let mut i: usize = 0;
    while i < 40
        invariant
            i <= 40,
            lower@.len() == 40,
            digest@.len() >= 40,
            forall|j: int| 0 <= j < 40 ==> is_lower_hex_digit(#[trigger] digest@[j]),
            out@.len() == i + 2,
            out@[0] == '0',
            out@[1] == 'x',
            forall|j: int| 0 <= j < i ==> #[trigger] out@[j + 2] == checksum_char(lower@[j], digest@[j]),
        decreases 40 - i,
    {
        let c = lower.get_char(i);
        let d = digest.get_char(i);
        if hex_value_exec(d) > 7 {
            push_char(&mut out, upper_hex_exec(c));
        } else {
            push_char(&mut out, c);
        }
        i = i + 1;
    }
    assert(out@ =~= apply_checksum(lower@, digest@)) by {
        assert forall|j: int| 2 <= j < 42 implies out@[j] == apply_checksum(lower@, digest@)[j] by {
            assert(out@[(j - 2) + 2] == checksum_char(lower@[j - 2], digest@[j - 2]));
        }
    }
    out
}

/// The checksummed form of `address`: `0x` and its 40 digits, each letter
/// uppercased where the Keccak-256 digest of the lowercase digits has a digit
/// above 7 at the same position.
pub fn eth_checksum_encode(address: &str) -> (r: Result<String, CodecError>)
    ensures
        match r {
            Ok(s) => is_valid_address(address@) && s@ == checksum_encode(address@),
            Err(e) => !is_valid_address(address@) && e == CodecError::InvalidAddressFormat,
        },
{
    let lower = match lowercase_address_digits(address) {
        Some(l) => l,
        None => return Err(CodecError::InvalidAddressFormat),
    };
    let digest = keccak256_hex_of(lower.as_str());
    Ok(checksum_from_digest(lower.as_str(), digest.as_str()))
}

/// Whether `address` is valid and either already checksummed or encodes to
/// a form that encodes to itself.
pub fn validate_eth_address(address: &str) -> (r: bool)
    ensures
        r == is_checksum_valid(address@),
        r == is_valid_address(address@),
{
    proof {
        if is_valid_address(address@) {
            lemma_encode_idempotent(address@);
        }
    }
    match eth_checksum_encode(address) {
        Err(_) => false,
        Ok(check) => {
            if check == String::from_str(address) {
                true
            } else {
                proof {
                    lemma_encode_idempotent(address@);
                }
                match eth_checksum_encode(check.as_str()) {
                    Ok(again) => again == check,
                    Err(_) => false,
                }
            }
        },
    }
}

proof fn lemma_hex_case(c: char)
    requires
        is_lower_hex_digit(c),
    ensures
        is_hex_digit(c),
        is_hex_digit(upper_hex(c)),
        lower_hex(c) == c,
        lower_hex(upper_hex(c)) == c,
{
}

/// Encoding a valid address gives a valid address whose encoding is itself.
pub proof fn lemma_encode_idempotent(a: Seq<char>)
    requires
        is_valid_address(a),
    ensures
        is_valid_address(checksum_encode(a)),
        checksum_encode(checksum_encode(a)) == checksum_encode(a),
{
    let l = lowercase_digits(a);
    let e = checksum_encode(a);
    let d = keccak256_hex(l);
    assert(has_hex_prefix(e));
    assert forall|i: int| 0 <= i < 40 implies is_lower_hex_digit(#[trigger] l[i]) by {
        assert(is_hex_digit(address_digits(a)[i]));
    }
    assert forall|i: int| 0 <= i < 40 implies is_hex_digit(#[trigger] address_digits(e)[i])
        && lower_hex(address_digits(e)[i]) == l[i] by {
        assert(address_digits(e)[i] == e[i + 2]);
        lemma_hex_case(l[i]);
    }
    assert(lowercase_digits(e) =~= l);
}

/// Whether the input's letters are upper- or lowercase, and whether its
/// prefix is written `0x` or `0X`, the encoding is the same.
pub proof fn lemma_encode_case_invariant(a: Seq<char>)
    requires
        is_valid_address(a),
    ensures
        is_valid_address(a.map_values(|c: char| lower_hex(c))),
        is_valid_address(a.map_values(|c: char| upper_hex(c))),
        checksum_encode(a.map_values(|c: char| lower_hex(c))) == checksum_encode(a),
        checksum_encode(a.map_values(|c: char| upper_hex(c))) == checksum_encode(a),
{
    let lo = a.map_values(|c: char| lower_hex(c));
    let up = a.map_values(|c: char| upper_hex(c));
    let da = address_digits(a);
    assert(has_hex_prefix(lo) == has_hex_prefix(a));
    assert(has_hex_prefix(up) == has_hex_prefix(a));
    assert(address_digits(lo) =~= da.map_values(|c: char| lower_hex(c)));
    assert(address_digits(up) =~= da.map_values(|c: char| upper_hex(c)));
    assert forall|i: int| 0 <= i < 40 implies is_hex_digit(#[trigger] address_digits(lo)[i])
        && is_hex_digit(address_digits(up)[i]) && lower_hex(address_digits(lo)[i]) == lower_hex(da[i])
        && lower_hex(address_digits(up)[i]) == lower_hex(da[i]) by {
        assert(is_hex_digit(da[i]));
    }
    assert(lowercase_digits(lo) =~= lowercase_digits(a));
    assert(lowercase_digits(up) =~= lowercase_digits(a));
}

/// The encoding depends on the 40 digits alone, taken without case: two
/// addresses that agree on them encode alike, on every call.
pub proof fn lemma_encode_deterministic(a: Seq<char>, b: Seq<char>)
    requires
        is_valid_address(a),
        is_valid_address(b),
        lowercase_digits(a) == lowercase_digits(b),
    ensures
        checksum_encode(a) == checksum_encode(b),
{
}

/// Every encoded address validates.
pub proof fn lemma_encoded_validates(a: Seq<char>)
    requires
        is_valid_address(a),
    ensures
        is_checksum_valid(checksum_encode(a)),
{
    lemma_encode_idempotent(a);
}

} // verus!
