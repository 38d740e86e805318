//! Text of protocol errors: the pieces that come from std's formatting.

use vstd::prelude::*;

verus! {

/// The character of hexadecimal digit `d` (below 16), with capital letters.
pub open spec fn hex_digit(d: int) -> char {
    if d < 10 {
        ('0' as int + d) as char
    } else {
        ('A' as int + d - 10) as char
    }
}

/// A byte as two capital hexadecimal digits.
pub open spec fn hex_byte(b: u8) -> Seq<char> {
    seq![hex_digit(b as int / 16), hex_digit(b as int % 16)]
}

/// `format!("{b:02X}")`: std's `UpperHex` formatting of a byte, padded with zeros to two digits.
#[verifier::external_body]
pub(crate) fn hex_byte_text(b: u8) -> (s: String)
    ensures
        s@ == hex_byte(b),
{
    format!("{b:02X}")
}

/// `err.to_string()`: std's `Display` text of an I/O error. It comes from the platform, so
/// nothing is stated of it.
#[verifier::external_body]
pub(crate) fn io_error_text(err: &std::io::Error) -> String {
    err.to_string()
}

/// `err.to_string()`: std's `Display` text of a UTF-8 conversion error. The error is opaque here,
/// so nothing is stated of the text.
#[verifier::external_body]
pub(crate) fn utf8_error_text(err: &std::string::FromUtf8Error) -> String {
    err.to_string()
}

/// The decimal digits of `n`, most significant first, without leading zeros.
pub open spec fn decimal(n: nat) -> Seq<char>
    decreases n,
{
    if n < 10 {
        seq![hex_digit(n as int)]
    } else {
        decimal(n / 10).push(hex_digit((n % 10) as int))
    }
}


/// The last `n` hexadecimal digits of `v`, with capital letters, most significant first.
pub open spec fn hex_digits(v: nat, n: nat) -> Seq<char>
    decreases n,
{
    if n == 0 {
        Seq::empty()
    } else {
        hex_digits(v / 16, (n - 1) as nat).push(hex_digit((v % 16) as int))
    }
}

/// `format!("{v:016X}")`: std's `UpperHex` formatting of a `u64`, padded with zeros to sixteen
/// digits (a `u64` never needs more).
#[verifier::external_body]
pub(crate) fn hex_u64_text(v: u64) -> (s: String)
    ensures
        s@ == hex_digits(v as nat, 16),
{
    format!("{v:016X}")
}

/// `v.to_string()` for a `usize`: std's `Display` writes its decimal digits.
#[verifier::external_body]
pub(crate) fn usize_text(v: usize) -> (s: String)
    ensures
        s@ == decimal(v as nat),
{
    v.to_string()
}

/// `v.to_string()` for a `u32`: std's `Display` writes its decimal digits.
#[verifier::external_body]
pub(crate) fn u32_text(v: u32) -> (s: String)
    ensures
        s@ == decimal(v as nat),
{
    v.to_string()
}

} // verus!
