//! Byte-level building blocks of the message wire formats: little-endian integers and
//! length-prefixed byte strings, read from the front of a byte slice and appended to a byte
//! vector.

use vstd::bytes::*;
use vstd::prelude::*;
use vstd::slice::slice_subrange;
use vstd::slice::slice_to_vec;
use vstd::utf8::*;

verus! {

#[verifier::external_type_specification]
#[verifier::external_body]
pub struct ExIoError(std::io::Error);

#[verifier::external_type_specification]
#[verifier::external_body]
pub struct ExFromUtf8Error(std::string::FromUtf8Error);

/// What decoding one value from the front of a byte sequence gives.
pub enum Parsed<T> {
    /// The value, and how many bytes it took.
    Done(T, int),
    /// The bytes end before the value does.
    Incomplete,
    /// A message starts with a byte that names no kind of message.
    BadVariant(u8),
    /// The bytes of a string are not UTF-8.
    BadUtf8,
}

/// Why encoding a value stopped early.
pub enum Overflow {
    /// A string is too long for its length prefix.
    String,
    /// A byte array is too long for its length prefix.
    Bytearray,
}

/// What encoding a value writes: the bytes, and whether it stopped early (after writing those
/// bytes) because a length does not fit its prefix.
pub struct Emitted {
    pub bytes: Seq<u8>,
    pub failure: Option<Overflow>,
}

pub open spec fn emitted(bytes: Seq<u8>) -> Emitted {
    Emitted { bytes, failure: None }
}

pub open spec fn overflowed(bytes: Seq<u8>, kind: Overflow) -> Emitted {
    Emitted { bytes, failure: Some(kind) }
}

/// Encoding `first` and then, unless it stopped early, `second`.
pub open spec fn emit_then(first: Emitted, second: Emitted) -> Emitted {
    if first.failure is Some {
        first
    } else {
        Emitted { bytes: first.bytes + second.bytes, failure: second.failure }
    }
}

/// The first `count` bytes after a header of `header` bytes.
pub open spec fn parse_counted(s: Seq<u8>, header: int, count: int) -> Parsed<Seq<u8>> {
    if s.len() < header + count {
        Parsed::Incomplete
    } else {
        Parsed::Done(s.subrange(header, header + count), header + count)
    }
}

pub open spec fn parse_u8(s: Seq<u8>) -> Parsed<u8> {
    if s.len() < 1 {
        Parsed::Incomplete
    } else {
        Parsed::Done(s[0], 1)
    }
}

pub open spec fn parse_u16(s: Seq<u8>) -> Parsed<u16> {
    if s.len() < 2 {
        Parsed::Incomplete
    } else {
        Parsed::Done(spec_u16_from_le_bytes(s.take(2)), 2)
    }
}

pub open spec fn parse_u32(s: Seq<u8>) -> Parsed<u32> {
    if s.len() < 4 {
        Parsed::Incomplete
    } else {
        Parsed::Done(spec_u32_from_le_bytes(s.take(4)), 4)
    }
}

pub open spec fn parse_u64(s: Seq<u8>) -> Parsed<u64> {
    if s.len() < 8 {
        Parsed::Incomplete
    } else {
        Parsed::Done(spec_u64_from_le_bytes(s.take(8)), 8)
    }
}

/// A byte string after a 16-bit little-endian length.
pub open spec fn parse_bytes16(s: Seq<u8>) -> Parsed<Seq<u8>> {
    match parse_u16(s) {
        Parsed::Done(n, _) => parse_counted(s, 2, n as int),
        _ => Parsed::Incomplete,
    }
}

/// A byte string after a 32-bit little-endian length.
pub open spec fn parse_bytes32(s: Seq<u8>) -> Parsed<Seq<u8>> {
    match parse_u32(s) {
        Parsed::Done(n, _) => parse_counted(s, 4, n as int),
        _ => Parsed::Incomplete,
    }
}

/// Reads decoded bytes as UTF-8 text.
pub open spec fn parsed_text(p: Parsed<Seq<u8>>) -> Parsed<Seq<char>> {
    match p {
        Parsed::Done(b, k) => if valid_utf8(b) {
            Parsed::Done(decode_utf8(b), k)
        } else {
            Parsed::BadUtf8
        },
        Parsed::Incomplete => Parsed::Incomplete,
        Parsed::BadVariant(v) => Parsed::BadVariant(v),
        Parsed::BadUtf8 => Parsed::BadUtf8,
    }
}

/// `bytes` after their length as a 16-bit little-endian number; stops before writing anything
/// when the length needs more than 16 bits.
pub open spec fn emit_bytes16(bytes: Seq<u8>, kind: Overflow) -> Emitted {
    if bytes.len() <= u16::MAX {
        emitted(spec_u16_to_le_bytes(bytes.len() as u16) + bytes)
    } else {
        overflowed(Seq::empty(), kind)
    }
}

/// `bytes` after their length as a 32-bit little-endian number; stops before writing anything
/// when the length needs more than 32 bits.
pub open spec fn emit_bytes32(bytes: Seq<u8>, kind: Overflow) -> Emitted {
    if bytes.len() <= u32::MAX {
        emitted(spec_u32_to_le_bytes(bytes.len() as u32) + bytes)
    } else {
        overflowed(Seq::empty(), kind)
    }
}

/// Takes the first `n` bytes off the front of `reader`; `None`, leaving `reader` as it was, when
/// fewer than `n` bytes are left.
pub fn read_exact<'a>(reader: &mut &'a [u8], n: usize) -> (r: Option<&'a [u8]>)
    ensures
        old(reader)@.len() < n ==> r is None && final(reader)@ == old(reader)@,
        old(reader)@.len() >= n ==> (r matches Some(b) && b@ == old(reader)@.take(n as int)
            && final(reader)@ == old(reader)@.skip(n as int)),
{
    if reader.len() < n {
        return None;
    }
    let head = slice_subrange(*reader, 0, n);
    *reader = slice_subrange(*reader, n, reader.len());
    Some(head)
}

pub fn read_u8(reader: &mut &[u8]) -> (r: Option<u8>)
    ensures
        match parse_u8(old(reader)@) {
            Parsed::Done(v, k) => r == Some(v) && final(reader)@ == old(reader)@.skip(k),
            _ => r is None,
        },
{
    match read_exact(reader, 1) {
        Some(b) => Some(b[0]),
        None => None,
    }
}

pub fn read_u16(reader: &mut &[u8]) -> (r: Option<u16>)
    ensures
        match parse_u16(old(reader)@) {
            Parsed::Done(v, k) => r == Some(v) && final(reader)@ == old(reader)@.skip(k),
            _ => r is None,
        },
{
    match read_exact(reader, 2) {
        Some(b) => Some(u16_from_le_bytes(b)),
        None => None,
    }
}

pub fn read_u32(reader: &mut &[u8]) -> (r: Option<u32>)
    ensures
        match parse_u32(old(reader)@) {
            Parsed::Done(v, k) => r == Some(v) && final(reader)@ == old(reader)@.skip(k),
            _ => r is None,
        },
{
    match read_exact(reader, 4) {
        Some(b) => Some(u32_from_le_bytes(b)),
        None => None,
    }
}

pub fn read_u64(reader: &mut &[u8]) -> (r: Option<u64>)
    ensures
        match parse_u64(old(reader)@) {
            Parsed::Done(v, k) => r == Some(v) && final(reader)@ == old(reader)@.skip(k),
            _ => r is None,
        },
{
    match read_exact(reader, 8) {
        Some(b) => Some(u64_from_le_bytes(b)),
        None => None,
    }
}

/// Reads a byte string whose length comes first as a 16-bit number.
pub fn read_bytes16(reader: &mut &[u8]) -> (r: Option<Vec<u8>>)
    ensures
        match parse_bytes16(old(reader)@) {
            Parsed::Done(v, k) => r matches Some(b) && b@ == v && final(reader)@ == old(
                reader,
            )@.skip(k),
            _ => r is None,
        },
{
    let ghost start = reader@;
    let len = match read_u16(reader) {
        Some(len) => len,
        None => return None,
    };
    match read_exact(reader, len as usize) {
        Some(b) => {
            assert(b@ =~= start.subrange(2, 2 + len));
            assert(reader@ =~= start.skip(2 + len));
            Some(slice_to_vec(b))
        },
        None => None,
    }
}

/// Reads a byte string whose length comes first as a 32-bit number.
pub fn read_bytes32(reader: &mut &[u8]) -> (r: Option<Vec<u8>>)
    ensures
        match parse_bytes32(old(reader)@) {
            Parsed::Done(v, k) => r matches Some(b) && b@ == v && final(reader)@ == old(
                reader,
            )@.skip(k),
            _ => r is None,
        },
{
    let ghost start = reader@;
    let len = match read_u32(reader) {
        Some(len) => len,
        None => return None,
    };
    match read_exact(reader, len as usize) {
        Some(b) => {
            assert(b@ =~= start.subrange(4, 4 + len));
            assert(reader@ =~= start.skip(4 + len));
            Some(slice_to_vec(b))
        },
        None => None,
    }
}

/// `std::string::String::from_utf8`. Its documentation: the result is `Ok` exactly when the
/// bytes are valid UTF-8, and then the string's bytes are the given bytes (the vector is taken
/// over without copying).
#[verifier::external_body]
pub(crate) fn string_from_utf8(bytes: Vec<u8>) -> (r: Result<String, std::string::FromUtf8Error>)
    ensures
        r is Ok <==> valid_utf8(bytes@),
        r matches Ok(s) ==> encode_utf8(s@) == bytes@,
{
    String::from_utf8(bytes)
}

/// `std::io::Error::from(std::io::ErrorKind::UnexpectedEof)`: the error that reading past the
/// end of a byte slice gives. Nothing is stated of the (opaque) error value.
#[verifier::external_body]
pub(crate) fn unexpected_eof_error() -> std::io::Error {
    std::io::Error::from(std::io::ErrorKind::UnexpectedEof)
}

/// The UTF-8 bytes of any text are valid UTF-8 and decode back to the text.
pub proof fn lemma_text_bytes(s: Seq<char>)
    ensures
        valid_utf8(encode_utf8(s)),
        decode_utf8(encode_utf8(s)) == s,
{
    encode_utf8_valid_utf8(s);
    encode_utf8_decode_utf8(s);
}

pub fn write_u8(writer: &mut Vec<u8>, v: u8)
    ensures
        final(writer)@ == old(writer)@ + seq![v],
{
    writer.push(v);
    assert(writer@ =~= old(writer)@ + seq![v]);
}

pub fn write_u16(writer: &mut Vec<u8>, v: u16)
    ensures
        final(writer)@ == old(writer)@ + spec_u16_to_le_bytes(v),
{
    let mut b = u16_to_le_bytes(v);
    writer.append(&mut b);
}

pub fn write_u32(writer: &mut Vec<u8>, v: u32)
    ensures
        final(writer)@ == old(writer)@ + spec_u32_to_le_bytes(v),
{
    let mut b = u32_to_le_bytes(v);
    writer.append(&mut b);
}

pub fn write_u64(writer: &mut Vec<u8>, v: u64)
    ensures
        final(writer)@ == old(writer)@ + spec_u64_to_le_bytes(v),
{
    let mut b = u64_to_le_bytes(v);
    writer.append(&mut b);
}

/// Appends `bytes` after their length as a 16-bit number; `false`, writing nothing, when the
/// length needs more than 16 bits.
pub fn write_bytes16(writer: &mut Vec<u8>, bytes: &[u8]) -> (ok: bool)
    ensures
        ok == (bytes@.len() <= u16::MAX),
        ok ==> final(writer)@ == old(writer)@ + spec_u16_to_le_bytes(bytes@.len() as u16)
            + bytes@,
        !ok ==> final(writer)@ == old(writer)@,
{
    if bytes.len() > 0xffff {
        return false;
    }
    write_u16(writer, bytes.len() as u16);
    writer.extend_from_slice(bytes);
    assert(writer@ =~= old(writer)@ + spec_u16_to_le_bytes(bytes@.len() as u16) + bytes@);
    true
}

/// Appends `bytes` after their length as a 32-bit number; `false`, writing nothing, when the
/// length needs more than 32 bits.
pub fn write_bytes32(writer: &mut Vec<u8>, bytes: &[u8]) -> (ok: bool)
    ensures
        ok == (bytes@.len() <= u32::MAX),
        ok ==> final(writer)@ == old(writer)@ + spec_u32_to_le_bytes(bytes@.len() as u32)
            + bytes@,
        !ok ==> final(writer)@ == old(writer)@,
{
    if bytes.len() > 0xffff_ffff {
        return false;
    }
    write_u32(writer, bytes.len() as u32);
    writer.extend_from_slice(bytes);
    assert(writer@ =~= old(writer)@ + spec_u32_to_le_bytes(bytes@.len() as u32) + bytes@);
    true
}

/// The 16-bit length prefix is read back as written, and what follows it is left in place.
pub proof fn lemma_bytes16_roundtrip(bytes: Seq<u8>, rest: Seq<u8>)
    requires
        bytes.len() <= u16::MAX,
    ensures
        parse_bytes16(spec_u16_to_le_bytes(bytes.len() as u16) + bytes + rest) == Parsed::Done(
            bytes,
            2 + bytes.len() as int,
        ),
        (spec_u16_to_le_bytes(bytes.len() as u16) + bytes + rest).skip(2 + bytes.len() as int) == rest,
{
    lemma_auto_spec_u16_to_from_le_bytes();
    let prefix = spec_u16_to_le_bytes(bytes.len() as u16);
    let s = prefix + bytes + rest;
    assert(s.take(2) =~= prefix);
    assert(s.subrange(2, 2 + bytes.len() as int) =~= bytes);
    assert(s.skip(2 + bytes.len() as int) =~= rest);
}

/// The 32-bit length prefix is read back as written, and what follows it is left in place.
pub proof fn lemma_bytes32_roundtrip(bytes: Seq<u8>, rest: Seq<u8>)
    requires
        bytes.len() <= u32::MAX,
    ensures
        parse_bytes32(spec_u32_to_le_bytes(bytes.len() as u32) + bytes + rest) == Parsed::Done(
            bytes,
            4 + bytes.len() as int,
        ),
        (spec_u32_to_le_bytes(bytes.len() as u32) + bytes + rest).skip(4 + bytes.len() as int) == rest,
{
    lemma_auto_spec_u32_to_from_le_bytes();
    let prefix = spec_u32_to_le_bytes(bytes.len() as u32);
    let s = prefix + bytes + rest;
    assert(s.take(4) =~= prefix);
    assert(s.subrange(4, 4 + bytes.len() as int) =~= bytes);
    assert(s.skip(4 + bytes.len() as int) =~= rest);
}

/// Every proper prefix of a 16-bit length-prefixed byte string is incomplete.
pub proof fn lemma_bytes16_prefix(bytes: Seq<u8>, n: int)
    requires
        bytes.len() <= u16::MAX,
        0 <= n < 2 + bytes.len() as int,
    ensures
        parse_bytes16((spec_u16_to_le_bytes(bytes.len() as u16) + bytes).take(n))
            == Parsed::<Seq<u8>>::Incomplete,
{
    lemma_auto_spec_u16_to_from_le_bytes();
    let prefix = spec_u16_to_le_bytes(bytes.len() as u16);
    let p = (prefix + bytes).take(n);
    if n >= 2 {
        assert(p.take(2) =~= prefix);
    }
}

/// Every proper prefix of a 32-bit length-prefixed byte string is incomplete.
pub proof fn lemma_bytes32_prefix(bytes: Seq<u8>, n: int)
    requires
        bytes.len() <= u32::MAX,
        0 <= n < 4 + bytes.len() as int,
    ensures
        parse_bytes32((spec_u32_to_le_bytes(bytes.len() as u32) + bytes).take(n))
            == Parsed::<Seq<u8>>::Incomplete,
{
    lemma_auto_spec_u32_to_from_le_bytes();
    let prefix = spec_u32_to_le_bytes(bytes.len() as u32);
    let p = (prefix + bytes).take(n);
    if n >= 4 {
        assert(p.take(4) =~= prefix);
    }
}

/// A 32-bit number is read back as written, and what follows it is left in place.
pub proof fn lemma_u32_roundtrip(v: u32, rest: Seq<u8>)
    ensures
        parse_u32(spec_u32_to_le_bytes(v) + rest) == Parsed::Done(v, 4),
        (spec_u32_to_le_bytes(v) + rest).skip(4) == rest,
        spec_u32_to_le_bytes(v).len() == 4,
{
    lemma_auto_spec_u32_to_from_le_bytes();
    let s = spec_u32_to_le_bytes(v) + rest;
    assert(s.take(4) =~= spec_u32_to_le_bytes(v));
    assert(s.skip(4) =~= rest);
}

} // verus!
