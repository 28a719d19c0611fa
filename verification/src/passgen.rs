//! Random password generation, for records whose secret is auto-generated.
//!
//! The generator itself is the `passwords` crate; what the store relies on
//! is its fixed complexity policy, stated here as [`meets_policy`].

use vstd::prelude::*;

verus! {

/// Whether `c` is an ASCII digit.
pub open spec fn is_digit_char(c: char) -> bool {
    48 <= c as u32 && c as u32 <= 57
}

/// Whether `c` is an ASCII lowercase letter.
pub open spec fn is_lower_char(c: char) -> bool {
    97 <= c as u32 && c as u32 <= 122
}

/// Whether `c` is an ASCII uppercase letter.
pub open spec fn is_upper_char(c: char) -> bool {
    65 <= c as u32 && c as u32 <= 90
}

/// Whether `c` is an ASCII symbol: the punctuation blocks around the
/// digits and letters.
pub open spec fn is_symbol_char(c: char) -> bool {
    (33 <= c as u32 && c as u32 <= 47) || (58 <= c as u32 && c as u32 <= 64) || (91 <= c as u32
        && c as u32 <= 96) || (123 <= c as u32 && c as u32 <= 126)
}

/// The fixed complexity policy: exactly `len` characters, with at least one
/// digit, one lowercase letter, one uppercase letter and one symbol.
pub open spec fn meets_policy(p: Seq<char>, len: nat) -> bool {
    p.len() == len && (exists|i: int| 0 <= i < p.len() && is_digit_char(p[i])) && (exists|i: int|
        0 <= i < p.len() && is_lower_char(p[i])) && (exists|i: int|
        0 <= i < p.len() && is_upper_char(p[i])) && (exists|i: int|
        0 <= i < p.len() && is_symbol_char(p[i]))
}

/// Relies on `passwords::PasswordGenerator::generate_one` with digits,
/// lowercase letters, uppercase letters and symbols enabled and with strict
/// rules: it succeeds on every length of at least the four enabled classes
/// (it rejects only a zero length, no enabled class, or a strict length
/// below the class count), and the password has exactly `len` characters,
/// all drawn from those classes, with strictness guaranteeing one of each.
#[verifier::external_body]
fn generate_strict(len: usize) -> (r: String)
    requires
        4 <= len,
    ensures
        meets_policy(r@, len as nat),
{
    let pg = passwords::PasswordGenerator {
        length: len,
        numbers: true,
        lowercase_letters: true,
        uppercase_letters: true,
        symbols: true,
        spaces: false,
        exclude_similar_characters: false,
        strict: true,
    };
    pg.generate_one().unwrap()
}

/// A fresh random password under the store's fixed policy: eight
/// characters, at least one digit, one lowercase letter, one uppercase
/// letter and one symbol.
pub fn generate_password() -> (r: String)
    ensures
        meets_policy(r@, 8),
{
    generate_strict(8)
}

} // verus!
