//! Field codec of the wire protocol: big-endian integers, booleans carried
//! as 32-bit integers, and strings carried as a 32-bit byte count followed
//! by their UTF-8 bytes.

use vstd::prelude::*;
use vstd::slice::slice_subrange;
use vstd::slice::slice_to_vec;
use vstd::utf8::decode_utf8;
use vstd::utf8::encode_utf8_decode_utf8;
use vstd::utf8::encode_utf8_valid_utf8;
use vstd::utf8::encode_utf8;
use vstd::utf8::valid_utf8;
use vstd::string::StringExecFns;

use crate::error::ProtocolError;
use crate::error::ProtocolFault;
use crate::text::decimal;
use crate::text::push_decimal;
use crate::text::push_decimal_digits;

verus! {

// ---------------------------------------------------------------------------
// The byte format, as mathematics
// ---------------------------------------------------------------------------

/// The four big-endian bytes of a 32-bit word.
pub open spec fn be32(x: u32) -> Seq<u8> {
    seq![(x >> 24u32) as u8, (x >> 16u32) as u8, (x >> 8u32) as u8, x as u8]
}

/// The 32-bit word whose big-endian bytes open `b`.
pub open spec fn from_be32(b: Seq<u8>) -> u32 {
    ((b[0] as u32) << 24u32) | ((b[1] as u32) << 16u32) | ((b[2] as u32) << 8u32) | (b[3] as u32)
}

/// The eight big-endian bytes of a 64-bit word.
pub open spec fn be64(x: u64) -> Seq<u8> {
    seq![
        (x >> 56u64) as u8,
        (x >> 48u64) as u8,
        (x >> 40u64) as u8,
        (x >> 32u64) as u8,
        (x >> 24u64) as u8,
        (x >> 16u64) as u8,
        (x >> 8u64) as u8,
        x as u8,
    ]
}

/// The 64-bit word whose big-endian bytes open `b`.
pub open spec fn from_be64(b: Seq<u8>) -> u64 {
    ((b[0] as u64) << 56u64) | ((b[1] as u64) << 48u64) | ((b[2] as u64) << 40u64) | ((
    b[3] as u64) << 32u64) | ((b[4] as u64) << 24u64) | ((b[5] as u64) << 16u64) | ((
    b[6] as u64) << 8u64) | (b[7] as u64)
}

/// How an `i32` field is written: its two's-complement bits, big-endian.
pub open spec fn i32_bytes(v: i32) -> Seq<u8> {
    be32(v as u32)
}

/// How a `u64` field is written.
pub open spec fn u64_bytes(v: u64) -> Seq<u8> {
    be64(v)
}

/// How a boolean is written: as the `i32` 1 or 0.
pub open spec fn bool_bytes(b: bool) -> Seq<u8> {
    i32_bytes(if b { 1i32 } else { 0i32 })
}

/// How a string is written: its UTF-8 byte count as an `i32` (wrapping, as
/// Rust's `as` does, for strings longer than `i32::MAX` bytes), then its bytes.
pub open spec fn string_bytes(s: Seq<char>) -> Seq<u8> {
    i32_bytes(encode_utf8(s).len() as i32) + encode_utf8(s)
}

/// The text of a `NotEnoughBytes` error, for the field kind `what`, the
/// number of bytes the field needs and the number that were left.
pub open spec fn shortfall_text(what: Seq<char>, need: int, have: int) -> Seq<char> {
    "for "@ + what + " (need "@ + decimal(need) + " bytes, have "@ + decimal(have) + ")"@
}

/// What reading an `i32` from the front of `s` gives: the value and the bytes after it.
pub open spec fn spec_read_i32(s: Seq<u8>) -> Result<(i32, Seq<u8>), ProtocolFault> {
    if s.len() < 4 {
        Err(ProtocolFault::NotEnoughBytes(shortfall_text("i32"@, 4, s.len() as int)))
    } else {
        Ok((from_be32(s) as i32, s.skip(4)))
    }
}

/// What reading a `u64` from the front of `s` gives.
pub open spec fn spec_read_u64(s: Seq<u8>) -> Result<(u64, Seq<u8>), ProtocolFault> {
    if s.len() < 8 {
        Err(ProtocolFault::NotEnoughBytes(shortfall_text("u64"@, 8, s.len() as int)))
    } else {
        Ok((from_be64(s), s.skip(8)))
    }
}

/// What reading a boolean from the front of `s` gives: any nonzero `i32` is `true`.
pub open spec fn spec_read_bool(s: Seq<u8>) -> Result<(bool, Seq<u8>), ProtocolFault> {
    match spec_read_i32(s) {
        Ok((v, rest)) => Ok((v != 0, rest)),
        Err(e) => Err(e),
    }
}

/// What reading a string from the front of `s` gives: a byte count, then that
/// many bytes, which must be UTF-8.
pub open spec fn spec_read_string(s: Seq<u8>) -> Result<(Seq<char>, Seq<u8>), ProtocolFault> {
    match spec_read_i32(s) {
        Err(e) => Err(e),
        Ok((len, rest)) => if len < 0 || rest.len() < len {
            Err(ProtocolFault::NotEnoughBytes(shortfall_text("string"@, len as int, rest.len() as int)))
        } else if !valid_utf8(rest.take(len as int)) {
            Err(ProtocolFault::InvalidUtf8String)
        } else {
            Ok((decode_utf8(rest.take(len as int)), rest.skip(len as int)))
        },
    }
}

/// The outcome of a reader, as mathematics: the value read and the bytes left,
/// or the fault.
pub open spec fn read_outcome<'a, T: View>(r: Result<(T, &'a [u8]), ProtocolError>) -> Result<
    (T::V, Seq<u8>),
    ProtocolFault,
> {
    match r {
        Ok((v, rest)) => Ok((v@, rest@)),
        Err(e) => Err(e@),
    }
}

// ---------------------------------------------------------------------------
// Facts about the format
// ---------------------------------------------------------------------------

/// The four bytes of a 32-bit word are its base-256 digits, most
/// significant first.
pub proof fn lemma_be32_digits(x: u32)
    ensures
        be32(x).len() == 4,
        x == be32(x)[0] * 0x100_0000 + be32(x)[1] * 0x1_0000 + be32(x)[2] * 0x100 + be32(x)[3],
{
    let b0 = (x >> 24u32) as u8;
    let b1 = (x >> 16u32) as u8;
    let b2 = (x >> 8u32) as u8;
    let b3 = x as u8;
    assert(x == b0 * 0x100_0000 + b1 * 0x1_0000 + b2 * 0x100 + b3) by (bit_vector)
        requires
            b0 == (x >> 24u32) as u8,
            b1 == (x >> 16u32) as u8,
            b2 == (x >> 8u32) as u8,
            b3 == x as u8,
    ;
}

/// The eight bytes of a 64-bit word are its base-256 digits, most
/// significant first.
pub proof fn lemma_be64_digits(x: u64)
    ensures
        be64(x).len() == 8,
        x == be64(x)[0] * 0x100_0000_0000_0000 + be64(x)[1] * 0x1_0000_0000_0000 + be64(x)[2]
            * 0x100_0000_0000 + be64(x)[3] * 0x1_0000_0000 + be64(x)[4] * 0x100_0000 + be64(x)[5]
            * 0x1_0000 + be64(x)[6] * 0x100 + be64(x)[7],
{
    let b0 = (x >> 56u64) as u8;
    let b1 = (x >> 48u64) as u8;
    let b2 = (x >> 40u64) as u8;
    let b3 = (x >> 32u64) as u8;
    let b4 = (x >> 24u64) as u8;
    let b5 = (x >> 16u64) as u8;
    let b6 = (x >> 8u64) as u8;
    let b7 = x as u8;
    assert(x == b0 * 0x100_0000_0000_0000 + b1 * 0x1_0000_0000_0000 + b2 * 0x100_0000_0000 + b3
        * 0x1_0000_0000 + b4 * 0x100_0000 + b5 * 0x1_0000 + b6 * 0x100 + b7) by (bit_vector)
        requires
            b0 == (x >> 56u64) as u8,
            b1 == (x >> 48u64) as u8,
            b2 == (x >> 40u64) as u8,
            b3 == (x >> 32u64) as u8,
            b4 == (x >> 24u64) as u8,
            b5 == (x >> 16u64) as u8,
            b6 == (x >> 8u64) as u8,
            b7 == x as u8,
    ;
}

/// A string field is its UTF-8 byte count, as an `i32` field, followed by
/// its UTF-8 bytes.
pub proof fn lemma_string_layout(s: Seq<char>)
    ensures
        string_bytes(s).len() == 4 + encode_utf8(s).len(),
        string_bytes(s).take(4) == i32_bytes(encode_utf8(s).len() as i32),
        string_bytes(s).skip(4) == encode_utf8(s),
{
    assert(string_bytes(s).take(4) =~= i32_bytes(encode_utf8(s).len() as i32));
    assert(string_bytes(s).skip(4) =~= encode_utf8(s));
}

/// Why the field readers refuse: too few bytes for an integer, a string
/// count that is negative or runs past the end, or string bytes that are no
/// UTF-8. The shortfall messages name the field and both byte counts.
pub proof fn lemma_read_refusals(s: Seq<u8>)
    ensures
        s.len() < 4 ==> spec_read_i32(s) == Err::<(i32, Seq<u8>), ProtocolFault>(
            ProtocolFault::NotEnoughBytes(
                "for i32 (need 4 bytes, have "@ + decimal(s.len() as int) + ")"@,
            ),
        ),
        s.len() < 8 ==> spec_read_u64(s) == Err::<(u64, Seq<u8>), ProtocolFault>(
            ProtocolFault::NotEnoughBytes(
                "for u64 (need 8 bytes, have "@ + decimal(s.len() as int) + ")"@,
            ),
        ),
        s.len() >= 4 && ((from_be32(s) as i32) < 0 || s.len() - 4 < (from_be32(s) as i32))
            ==> spec_read_string(s) == Err::<(Seq<char>, Seq<u8>), ProtocolFault>(
            ProtocolFault::NotEnoughBytes(
                "for string (need "@ + decimal((from_be32(s) as i32) as int) + " bytes, have "@
                    + decimal(s.len() - 4) + ")"@,
            ),
        ),
        s.len() >= 4 && 0 <= (from_be32(s) as i32) <= s.len() - 4 && !valid_utf8(
            s.subrange(4, 4 + (from_be32(s) as i32)),
        ) ==> spec_read_string(s) == Err::<(Seq<char>, Seq<u8>), ProtocolFault>(
            ProtocolFault::InvalidUtf8String,
        ),
{
    reveal_strlit("for ");
    reveal_strlit("i32");
    reveal_strlit("u64");
    reveal_strlit("string");
    reveal_strlit(" (need ");
    reveal_strlit(" bytes, have ");
    reveal_strlit(")");
    reveal_strlit("for i32 (need 4 bytes, have ");
    reveal_strlit("for u64 (need 8 bytes, have ");
    reveal_strlit("for string (need ");
    assert(decimal(4) =~= seq!['4']);
    assert(decimal(8) =~= seq!['8']);
    let n = s.len() as int;
    assert("for "@ + "i32"@ + " (need "@ + decimal(4) + " bytes, have "@ + decimal(n) + ")"@
        =~= "for i32 (need 4 bytes, have "@ + decimal(n) + ")"@);
    assert("for "@ + "u64"@ + " (need "@ + decimal(8) + " bytes, have "@ + decimal(n) + ")"@
        =~= "for u64 (need 8 bytes, have "@ + decimal(n) + ")"@);
    if s.len() >= 4 {
        let c = (from_be32(s) as i32) as int;
        assert("for "@ + "string"@ + " (need "@ + decimal(c) + " bytes, have "@ + decimal(n - 4)
            + ")"@ =~= "for string (need "@ + decimal(c) + " bytes, have "@ + decimal(n - 4)
            + ")"@);
        assert(s.skip(4).len() == n - 4);
        if 0 <= c <= n - 4 {
            assert(s.skip(4).take(c) =~= s.subrange(4, 4 + c));
        }
    }
}

/// Decoding the big-endian bytes of a word gives the word back.
pub proof fn lemma_be32_roundtrip(x: u32)
    ensures
        from_be32(be32(x)) == x,
{
    let b0 = (x >> 24u32) as u8;
    let b1 = (x >> 16u32) as u8;
    let b2 = (x >> 8u32) as u8;
    let b3 = x as u8;
    assert(((b0 as u32) << 24u32) | ((b1 as u32) << 16u32) | ((b2 as u32) << 8u32) | (b3 as u32)
        == x) by (bit_vector)
        requires
            b0 == (x >> 24u32) as u8,
            b1 == (x >> 16u32) as u8,
            b2 == (x >> 8u32) as u8,
            b3 == x as u8,
    ;
}

/// Decoding the big-endian bytes of a 64-bit word gives the word back.
pub proof fn lemma_be64_roundtrip(x: u64)
    ensures
        from_be64(be64(x)) == x,
{
    let b0 = (x >> 56u64) as u8;
    let b1 = (x >> 48u64) as u8;
    let b2 = (x >> 40u64) as u8;
    let b3 = (x >> 32u64) as u8;
    let b4 = (x >> 24u64) as u8;
    let b5 = (x >> 16u64) as u8;
    let b6 = (x >> 8u64) as u8;
    let b7 = x as u8;
    assert(((b0 as u64) << 56u64) | ((b1 as u64) << 48u64) | ((b2 as u64) << 40u64) | ((
    b3 as u64) << 32u64) | ((b4 as u64) << 24u64) | ((b5 as u64) << 16u64) | ((b6 as u64)
        << 8u64) | (b7 as u64) == x) by (bit_vector)
        requires
            b0 == (x >> 56u64) as u8,
            b1 == (x >> 48u64) as u8,
            b2 == (x >> 40u64) as u8,
            b3 == (x >> 32u64) as u8,
            b4 == (x >> 24u64) as u8,
            b5 == (x >> 16u64) as u8,
            b6 == (x >> 8u64) as u8,
            b7 == x as u8,
    ;
}

/// Two's-complement bits of an `i32` read back as the same `i32`.
pub proof fn lemma_i32_bits(v: i32)
    ensures
        (v as u32) as i32 == v,
{
    assert((v as u32) as i32 == v) by (bit_vector);
}

/// The bytes of a string fit the `i32` byte count that precedes them.
pub open spec fn string_fits(s: Seq<char>) -> bool {
    encode_utf8(s).len() <= i32::MAX
}

/// An `i32` written and then read back, with any bytes after it, is the same value.
pub proof fn lemma_read_i32_written(v: i32, tail: Seq<u8>)
    ensures
        spec_read_i32(i32_bytes(v) + tail) == Ok::<_, ProtocolFault>((v, tail)),
{
    let s = i32_bytes(v) + tail;
    lemma_be32_roundtrip(v as u32);
    lemma_i32_bits(v);
    assert(from_be32(s) == from_be32(i32_bytes(v)));
    assert(s.skip(4) =~= tail);
}

/// A `u64` written and then read back is the same value.
pub proof fn lemma_read_u64_written(v: u64, tail: Seq<u8>)
    ensures
        spec_read_u64(u64_bytes(v) + tail) == Ok::<_, ProtocolFault>((v, tail)),
{
    let s = u64_bytes(v) + tail;
    lemma_be64_roundtrip(v);
    assert(from_be64(s) == from_be64(u64_bytes(v)));
    assert(s.skip(8) =~= tail);
}

/// A boolean written and then read back is the same value.
pub proof fn lemma_read_bool_written(b: bool, tail: Seq<u8>)
    ensures
        spec_read_bool(bool_bytes(b) + tail) == Ok::<_, ProtocolFault>((b, tail)),
{
    lemma_read_i32_written(if b { 1i32 } else { 0i32 }, tail);
}

/// A string whose bytes fit the count written and then read back is the same string.
pub proof fn lemma_read_string_written(s: Seq<char>, tail: Seq<u8>)
    requires
        string_fits(s),
    ensures
        spec_read_string(string_bytes(s) + tail) == Ok::<_, ProtocolFault>((s, tail)),
{
    let enc = encode_utf8(s);
    let n = enc.len() as i32;
    assert(n == enc.len());
    assert(string_bytes(s) + tail =~= i32_bytes(n) + (enc + tail));
    lemma_read_i32_written(n, enc + tail);
    assert((enc + tail).take(n as int) =~= enc);
    assert((enc + tail).skip(n as int) =~= tail);
    encode_utf8_valid_utf8(s);
    encode_utf8_decode_utf8(s);
}

// ---------------------------------------------------------------------------
// Calls into std
// ---------------------------------------------------------------------------

/// `String::from_utf8`: it succeeds exactly when the bytes are valid UTF-8,
/// and then the string holds the characters those bytes encode.
#[verifier::external_body]
fn string_from_utf8(bytes: Vec<u8>) -> (res: Result<String, std::string::FromUtf8Error>)
    ensures
        res is Ok <==> valid_utf8(bytes@),
        res matches Ok(s) ==> s@ == decode_utf8(bytes@),
{
    String::from_utf8(bytes)
}

/// The text of a `NotEnoughBytes` error.
fn shortfall_message(what: &str, need: i64, have: usize) -> (res: String)
    ensures
        res@ == shortfall_text(what@, need as int, have as int),
{
    let mut msg = String::from_str("for ");
    msg.append(what);
    msg.append(" (need ");
    push_decimal(&mut msg, need);
    msg.append(" bytes, have ");
    push_decimal_digits(&mut msg, have as u64);
    msg.append(")");
    msg
}

// ---------------------------------------------------------------------------
// Readers
// ---------------------------------------------------------------------------

/// Reads a big-endian `i32` from the front of `bytes`.
pub fn read_i32(bytes: &[u8]) -> (res: Result<(i32, &[u8]), ProtocolError>)
    ensures
        read_outcome(res) == spec_read_i32(bytes@),
{
    if bytes.len() < 4 {
        let msg = shortfall_message("i32", 4, bytes.len());
        return Err(ProtocolError::NotEnoughBytes(msg));
    }
    let x: u32 = ((bytes[0] as u32) << 24u32) | ((bytes[1] as u32) << 16u32) | ((bytes[2] as u32)
        << 8u32) | (bytes[3] as u32);
    let rest = slice_subrange(bytes, 4, bytes.len());
    Ok((x as i32, rest))
}

/// Reads a big-endian `u64` from the front of `bytes`.
pub fn read_u64(bytes: &[u8]) -> (res: Result<(u64, &[u8]), ProtocolError>)
    ensures
        read_outcome(res) == spec_read_u64(bytes@),
{
    if bytes.len() < 8 {
        let msg = shortfall_message("u64", 8, bytes.len());
        return Err(ProtocolError::NotEnoughBytes(msg));
    }
    let x: u64 = ((bytes[0] as u64) << 56u64) | ((bytes[1] as u64) << 48u64) | ((bytes[2] as u64)
        << 40u64) | ((bytes[3] as u64) << 32u64) | ((bytes[4] as u64) << 24u64) | ((
    bytes[5] as u64) << 16u64) | ((bytes[6] as u64) << 8u64) | (bytes[7] as u64);
    let rest = slice_subrange(bytes, 8, bytes.len());
    Ok((x, rest))
}

/// Reads a boolean, carried as an `i32`, from the front of `bytes`.
pub fn read_bool(bytes: &[u8]) -> (res: Result<(bool, &[u8]), ProtocolError>)
    ensures
        read_outcome(res) == spec_read_bool(bytes@),
{
    match read_i32(bytes) {
        Ok((value, rest)) => Ok((value != 0, rest)),
        Err(e) => Err(e),
    }
}

/// Reads a length-prefixed UTF-8 string from the front of `bytes`.
pub fn read_string(bytes: &[u8]) -> (res: Result<(String, &[u8]), ProtocolError>)
    ensures
        read_outcome(res) == spec_read_string(bytes@),
{
    let (len, rest) = match read_i32(bytes) {
        Ok(p) => p,
        Err(e) => return Err(e),
    };
    if len < 0 || rest.len() < len as usize {
        let msg = shortfall_message("string", len as i64, rest.len());
        return Err(ProtocolError::NotEnoughBytes(msg));
    }
    let n = len as usize;
    let string_bytes = slice_subrange(rest, 0, n);
    let remaining = slice_subrange(rest, n, rest.len());
    match string_from_utf8(slice_to_vec(string_bytes)) {
        Ok(s) => Ok((s, remaining)),
        Err(e) => Err(ProtocolError::InvalidUtf8String(e)),
    }
}

// ---------------------------------------------------------------------------
// Writers
// ---------------------------------------------------------------------------

/// Appends the bytes of `data` to `buf`.
pub fn push_bytes(buf: &mut Vec<u8>, data: &[u8])
    ensures
        final(buf)@ == old(buf)@ + data@,
{
    let mut i: usize = 0;
    while i < data.len()
        invariant
            i <= data@.len(),
            buf@ == old(buf)@ + data@.take(i as int),
        decreases data@.len() - i,
    {
        buf.push(data[i]);
        i = i + 1;
        assert(data@.take(i as int) == data@.take((i - 1) as int).push(data@[i - 1]));
    }
    assert(data@.take(data@.len() as int) == data@);
}

/// Appends `value` as a big-endian `i32`.
pub fn push_i32(buf: &mut Vec<u8>, value: i32)
    ensures
        final(buf)@ == old(buf)@ + i32_bytes(value),
{
    let x = value as u32;
    buf.push((x >> 24u32) as u8);
    buf.push((x >> 16u32) as u8);
    buf.push((x >> 8u32) as u8);
    buf.push(x as u8);
    assert(buf@ =~= old(buf)@ + i32_bytes(value));
}

/// Appends `value` as a big-endian `u64`.
pub fn push_u64(buf: &mut Vec<u8>, value: u64)
    ensures
        final(buf)@ == old(buf)@ + u64_bytes(value),
{
    buf.push((value >> 56u64) as u8);
    buf.push((value >> 48u64) as u8);
    buf.push((value >> 40u64) as u8);
    buf.push((value >> 32u64) as u8);
    buf.push((value >> 24u64) as u8);
    buf.push((value >> 16u64) as u8);
    buf.push((value >> 8u64) as u8);
    buf.push(value as u8);
    assert(buf@ =~= old(buf)@ + u64_bytes(value));
}

/// Appends a boolean as the `i32` 1 or 0.
pub fn push_bool(buf: &mut Vec<u8>, value: bool)
    ensures
        final(buf)@ == old(buf)@ + bool_bytes(value),
{
    push_i32(buf, if value { 1 } else { 0 });
}

/// Appends a string: its UTF-8 byte count, then its UTF-8 bytes.
pub fn push_string(buf: &mut Vec<u8>, value: &str)
    ensures
        final(buf)@ == old(buf)@ + string_bytes(value@),
{
    let bytes = value.as_bytes();
    push_i32(buf, bytes.len() as i32);
    push_bytes(buf, bytes);
    assert(buf@ =~= old(buf)@ + string_bytes(value@));
}

} // verus!
