//! The little-endian primitives of osu!stable's database files (`osu!.db`,
//! `collection.db`): fixed-width integers, the ULEB128 length prefix and the
//! length-prefixed UTF-8 string.
//!
//! Readers take the whole file and a position.  Each one is specified by a
//! spec function that says, for every byte sequence and position, which value
//! is read and where the next field starts, or which error is reported.
use vstd::prelude::*;
use vstd::utf8::*;
use crate::text::{concat_str, decimal, u64_to_string};

verus! {

/// The part of a file that a read ran out of bytes in.
#[derive(Clone, Copy, Debug, PartialEq, Eq, Structural)]
pub enum ReadPart {
    /// A fixed-width field of `osu!.db`.
    OsuDb,
    /// A 32-bit integer (the reader of `collection.db`).
    CollectionDb,
    /// The marker byte in front of a string.
    StringMarker,
    /// The ULEB128 length of a string.
    StringLength,
    /// The bytes of a string.
    StringContent,
}

/// Why a database file could not be read.
#[derive(Clone, Copy, Debug, PartialEq, Eq, Structural)]
pub enum DbError {
    /// The file ended inside a field.
    UnexpectedEnd(ReadPart),
    /// A string starts with a byte other than `0x00` and `0x0b`.
    BadStringMarker,
    /// The length of a string takes more than five ULEB128 bytes.
    StringLengthTooLarge,
    /// The bytes of a string are not UTF-8; `valid_up_to` and `error_len` are
    /// what `std::str::Utf8Error` reports.
    InvalidUtf8 { valid_up_to: usize, error_len: Option<usize> },
    /// A star-rating entry of `osu!.db` does not start with the byte 8.
    UnknownStarRatingMarker,
    /// A star-rating value of `osu!.db` is tagged with a byte other than 12 and 13.
    UnknownStarRatingValue,
}

/// The length of the longest prefix of `bytes` that is valid UTF-8 (what
/// `Utf8Error::valid_up_to` reports).
pub open spec fn utf8_valid_up_to(bytes: Seq<u8>) -> nat {
    choose|k: nat| k <= bytes.len() && valid_utf8(bytes.take(k as int))
        && forall|j: nat| k < j <= bytes.len() ==> !valid_utf8(#[trigger] bytes.take(j as int))
}

/// What `Utf8Error::error_len` reports for invalid UTF-8: `None` when the
/// bytes end inside a character, else the length of the invalid sequence
/// that starts at `utf8_valid_up_to`.
pub uninterp spec fn utf8_error_len(bytes: Seq<u8>) -> Option<usize>;

/// The error for bytes that are not valid UTF-8.
pub open spec fn utf8_error(bytes: Seq<u8>) -> DbError {
    DbError::InvalidUtf8 { valid_up_to: utf8_valid_up_to(bytes) as usize, error_len: utf8_error_len(bytes) }
}

/// What `Read::read_exact` reports when a file ends inside a field.
pub open spec fn eof_text() -> Seq<char> {
    "failed to fill whole buffer"@
}

/// What `std::str::Utf8Error` says of invalid UTF-8.
pub open spec fn utf8_error_text(valid_up_to: usize, error_len: Option<usize>) -> Seq<char> {
    match error_len {
        Some(n) => "invalid utf-8 sequence of "@ + decimal(n as nat) + " bytes from index "@ + decimal(valid_up_to as nat),
        None => "incomplete utf-8 byte sequence from index "@ + decimal(valid_up_to as nat),
    }
}

/// The message of a failed read: for a file that ended early, the reader's
/// words and the I/O error; else what went wrong.
pub open spec fn spec_db_error_message(e: DbError) -> Seq<char> {
    match e {
        DbError::UnexpectedEnd(ReadPart::OsuDb) => "读取 osu!.db 失败："@ + eof_text(),
        DbError::UnexpectedEnd(ReadPart::CollectionDb) => "读取 collection.db 失败："@ + eof_text(),
        DbError::UnexpectedEnd(ReadPart::StringMarker) => "读取字符串失败："@ + eof_text(),
        DbError::UnexpectedEnd(ReadPart::StringLength) => "读取字符串长度失败："@ + eof_text(),
        DbError::UnexpectedEnd(ReadPart::StringContent) => "读取字符串内容失败："@ + eof_text(),
        DbError::BadStringMarker => "collection.db 字符串格式无法识别。"@,
        DbError::StringLengthTooLarge => "collection.db 字符串长度过大。"@,
        DbError::InvalidUtf8 { valid_up_to, error_len } => "字符串不是 UTF-8："@ + utf8_error_text(valid_up_to, error_len),
        DbError::UnknownStarRatingMarker => "osu!.db 星数缓存格式无法识别。"@,
        DbError::UnknownStarRatingValue => "osu!.db 星数缓存数值格式无法识别。"@,
    }
}

/// The message the app shows for a failed read (see `spec_db_error_message`).
pub fn db_error_message(e: DbError) -> (r: String)
    ensures
        r@ == spec_db_error_message(e),
{
    let eof = "failed to fill whole buffer";
    match e {
        DbError::UnexpectedEnd(ReadPart::OsuDb) => concat_str("读取 osu!.db 失败：", eof),
        DbError::UnexpectedEnd(ReadPart::CollectionDb) => concat_str("读取 collection.db 失败：", eof),
        DbError::UnexpectedEnd(ReadPart::StringMarker) => concat_str("读取字符串失败：", eof),
        DbError::UnexpectedEnd(ReadPart::StringLength) => concat_str("读取字符串长度失败：", eof),
        DbError::UnexpectedEnd(ReadPart::StringContent) => concat_str("读取字符串内容失败：", eof),
        DbError::BadStringMarker => "collection.db 字符串格式无法识别。".to_string(),
        DbError::StringLengthTooLarge => "collection.db 字符串长度过大。".to_string(),
        DbError::InvalidUtf8 { valid_up_to, error_len } => {
            let index = u64_to_string(valid_up_to as u64);
            let detail = match error_len {
                Some(n) => {
                    let head = concat_str("invalid utf-8 sequence of ", u64_to_string(n as u64).as_str());
                    concat_str(concat_str(head.as_str(), " bytes from index ").as_str(), index.as_str())
                },
                None => concat_str("incomplete utf-8 byte sequence from index ", index.as_str()),
            };
            concat_str("字符串不是 UTF-8：", detail.as_str())
        },
        DbError::UnknownStarRatingMarker => "osu!.db 星数缓存格式无法识别。".to_string(),
        DbError::UnknownStarRatingValue => "osu!.db 星数缓存数值格式无法识别。".to_string(),
    }
}

/// An executable read agrees with its specification: on success the same
/// value (by view) and the same end position; on failure the same error.
pub open spec fn read_agrees<T: View>(
    res: Result<T, DbError>,
    end: int,
    expected: Result<(T::V, int), DbError>,
) -> bool {
    match expected {
        Ok((v, p)) => res matches Ok(x) && x@ == v && end == p,
        Err(e) => res matches Err(e2) && e2 == e,
    }
}

/// `n` bytes are available at `pos`.
pub open spec fn available(s: Seq<u8>, pos: int, n: int) -> bool {
    0 <= pos && 0 <= n && pos + n <= s.len()
}

pub open spec fn le16(s: Seq<u8>, p: int) -> int {
    s[p] + 256 * s[p + 1]
}

pub open spec fn le32(s: Seq<u8>, p: int) -> int {
    s[p] + 256 * s[p + 1] + 65536 * s[p + 2] + 16777216 * s[p + 3]
}

pub open spec fn le64(s: Seq<u8>, p: int) -> int {
    le32(s, p) + 4294967296 * le32(s, p + 4)
}

/// Two's complement reading of an unsigned value `u` of `bits` bits.
pub open spec fn twos(u: int, half: int) -> int {
    if u < half {
        u
    } else {
        u - 2 * half
    }
}

pub open spec fn spec_read_u8(s: Seq<u8>, pos: int) -> Result<(u8, int), DbError> {
    if available(s, pos, 1) {
        Ok((s[pos], pos + 1))
    } else {
        Err(DbError::UnexpectedEnd(ReadPart::OsuDb))
    }
}

pub open spec fn spec_read_bool(s: Seq<u8>, pos: int) -> Result<(bool, int), DbError> {
    match spec_read_u8(s, pos) {
        Ok((b, p)) => Ok((b != 0, p)),
        Err(e) => Err(e),
    }
}

pub open spec fn spec_read_i16(s: Seq<u8>, pos: int) -> Result<(i16, int), DbError> {
    if available(s, pos, 2) {
        Ok((twos(le16(s, pos), 0x8000) as i16, pos + 2))
    } else {
        Err(DbError::UnexpectedEnd(ReadPart::OsuDb))
    }
}

pub open spec fn spec_read_i32(s: Seq<u8>, pos: int) -> Result<(i32, int), DbError> {
    if available(s, pos, 4) {
        Ok((twos(le32(s, pos), 0x8000_0000) as i32, pos + 4))
    } else {
        Err(DbError::UnexpectedEnd(ReadPart::CollectionDb))
    }
}

pub open spec fn spec_read_i64(s: Seq<u8>, pos: int) -> Result<(i64, int), DbError> {
    if available(s, pos, 8) {
        Ok((twos(le64(s, pos), 0x8000_0000_0000_0000) as i64, pos + 8))
    } else {
        Err(DbError::UnexpectedEnd(ReadPart::OsuDb))
    }
}

/// The bits of a little-endian IEEE-754 single.
pub open spec fn spec_read_f32_bits(s: Seq<u8>, pos: int) -> Result<(u32, int), DbError> {
    if available(s, pos, 4) {
        Ok((le32(s, pos) as u32, pos + 4))
    } else {
        Err(DbError::UnexpectedEnd(ReadPart::OsuDb))
    }
}

/// The bits of a little-endian IEEE-754 double.
pub open spec fn spec_read_f64_bits(s: Seq<u8>, pos: int) -> Result<(u64, int), DbError> {
    if available(s, pos, 8) {
        Ok((le64(s, pos) as u64, pos + 8))
    } else {
        Err(DbError::UnexpectedEnd(ReadPart::OsuDb))
    }
}

/// ULEB128 from the `k`-th length byte on (at most five bytes in all).
pub open spec fn uleb_from(s: Seq<u8>, pos: int, k: nat) -> Result<(nat, int), DbError>
    decreases 4 - k,
{
    if !available(s, pos, 1) {
        Err(DbError::UnexpectedEnd(ReadPart::StringLength))
    } else if s[pos] < 128 {
        Ok((s[pos] as nat, pos + 1))
    } else if k >= 4 {
        Err(DbError::StringLengthTooLarge)
    } else {
        match uleb_from(s, pos + 1, k + 1) {
            Ok((v, p)) => Ok((((s[pos] - 128) + 128 * v) as nat, p)),
            Err(e) => Err(e),
        }
    }
}

pub open spec fn spec_read_uleb128(s: Seq<u8>, pos: int) -> Result<(nat, int), DbError> {
    uleb_from(s, pos, 0)
}

/// The string that follows an `0x0b` marker: its length, then its UTF-8 bytes.
pub open spec fn spec_string_body(s: Seq<u8>, pos: int) -> Result<(Seq<char>, int), DbError> {
    match spec_read_uleb128(s, pos) {
        Err(e) => Err(e),
        Ok((len, p)) => if !available(s, p, len as int) {
            Err(DbError::UnexpectedEnd(ReadPart::StringContent))
        } else if !valid_utf8(s.subrange(p, p + len)) {
            Err(utf8_error(s.subrange(p, p + len)))
        } else {
            Ok((decode_utf8(s.subrange(p, p + len)), p + len))
        },
    }
}

pub open spec fn spec_read_osu_string(s: Seq<u8>, pos: int) -> Result<(Seq<char>, int), DbError> {
    if !available(s, pos, 1) {
        Err(DbError::UnexpectedEnd(ReadPart::StringMarker))
    } else if s[pos] == 0 {
        Ok((Seq::empty(), pos + 1))
    } else if s[pos] != 0x0b {
        Err(DbError::BadStringMarker)
    } else {
        spec_string_body(s, pos + 1)
    }
}

/// The four little-endian bytes of `v` in two's complement.
pub open spec fn i32_bytes(v: i32) -> Seq<u8> {
    let u: int = if v >= 0 { v as int } else { v + 0x1_0000_0000 };
    seq![
        (u % 256) as u8,
        ((u / 256) % 256) as u8,
        ((u / 65536) % 256) as u8,
        ((u / 16777216) % 256) as u8,
    ]
}

/// The ULEB128 encoding of `v`: seven bits per byte, lowest first, the high
/// bit set on every byte but the last.
pub open spec fn uleb_bytes(v: nat) -> Seq<u8>
    decreases v,
{
    if v < 128 {
        seq![v as u8]
    } else {
        seq![((v % 128) + 128) as u8] + uleb_bytes(v / 128)
    }
}

/// The encoding of a string in the database files: `0x00` for the empty
/// string, else `0x0b`, the ULEB128 byte length and the UTF-8 bytes.
pub open spec fn osu_string_bytes(s: Seq<char>) -> Seq<u8> {
    if s.len() == 0 {
        seq![0u8]
    } else {
        seq![0x0bu8] + uleb_bytes(encode_utf8(s).len()) + encode_utf8(s)
    }
}

pub open spec fn pow128(n: nat) -> nat
    decreases n,
{
    if n == 0 {
        1
    } else {
        128 * pow128((n - 1) as nat)
    }
}

/// Reads one byte.
pub fn read_u8(bytes: &[u8], pos: &mut usize) -> (res: Result<u8, DbError>)
    ensures
        read_agrees(res, *final(pos) as int, spec_read_u8(bytes@, *old(pos) as int)),
{
    if *pos < bytes.len() {
        let b = bytes[*pos];
        *pos = *pos + 1;
        Ok(b)
    } else {
        Err(DbError::UnexpectedEnd(ReadPart::OsuDb))
    }
}

/// Reads one byte as a boolean: any byte but zero is `true`.
pub fn read_bool(bytes: &[u8], pos: &mut usize) -> (res: Result<bool, DbError>)
    ensures
        read_agrees(res, *final(pos) as int, spec_read_bool(bytes@, *old(pos) as int)),
{
    let b = read_u8(bytes, pos)?;
    Ok(b != 0)
}

fn u16_le(b0: u8, b1: u8) -> (r: u16)
    ensures
        r == b0 + 256 * b1,
{
    (b0 as u16) + (b1 as u16) * 256
}

fn u32_le(b0: u8, b1: u8, b2: u8, b3: u8) -> (r: u32)
    ensures
        r == b0 + 256 * b1 + 65536 * b2 + 16777216 * b3,
{
    (b0 as u32) + (b1 as u32) * 256 + (b2 as u32) * 65536 + (b3 as u32) * 16777216
}

/// Reads a little-endian `i16`.
pub fn read_i16(bytes: &[u8], pos: &mut usize) -> (res: Result<i16, DbError>)
    ensures
        read_agrees(res, *final(pos) as int, spec_read_i16(bytes@, *old(pos) as int)),
{
    if *pos < bytes.len() && bytes.len() - *pos >= 2 {
        let p = *pos;
        let u = u16_le(bytes[p], bytes[p + 1]);
        *pos = p + 2;
        let v: i16 = if u < 0x8000 {
            u as i16
        } else {
            ((u - 0x8000) as i16) - 0x4000 - 0x4000
        };
        Ok(v)
    } else {
        Err(DbError::UnexpectedEnd(ReadPart::OsuDb))
    }
}

/// Reads a little-endian `i32`.
pub fn read_i32(bytes: &[u8], pos: &mut usize) -> (res: Result<i32, DbError>)
    ensures
        read_agrees(res, *final(pos) as int, spec_read_i32(bytes@, *old(pos) as int)),
{
    if *pos < bytes.len() && bytes.len() - *pos >= 4 {
        let p = *pos;
        let u = u32_le(bytes[p], bytes[p + 1], bytes[p + 2], bytes[p + 3]);
        *pos = p + 4;
        let v: i32 = if u < 0x8000_0000 {
            u as i32
        } else {
            ((u - 0x8000_0000) as i32) - 0x4000_0000 - 0x4000_0000
        };
        Ok(v)
    } else {
        Err(DbError::UnexpectedEnd(ReadPart::CollectionDb))
    }
}

fn u64_at(bytes: &[u8], p: usize) -> (r: u64)
    requires
        p + 8 <= bytes.len(),
    ensures
        r == le64(bytes@, p as int),
{
    let lo = u32_le(bytes[p], bytes[p + 1], bytes[p + 2], bytes[p + 3]);
    let hi = u32_le(bytes[p + 4], bytes[p + 5], bytes[p + 6], bytes[p + 7]);
    (lo as u64) + (hi as u64) * 4294967296
}

/// Reads a little-endian `i64`.
pub fn read_i64(bytes: &[u8], pos: &mut usize) -> (res: Result<i64, DbError>)
    ensures
        read_agrees(res, *final(pos) as int, spec_read_i64(bytes@, *old(pos) as int)),
{
    if *pos < bytes.len() && bytes.len() - *pos >= 8 {
        let p = *pos;
        let u = u64_at(bytes, p);
        *pos = p + 8;
        let v: i64 = if u < 0x8000_0000_0000_0000 {
            u as i64
        } else {
            ((u - 0x8000_0000_0000_0000) as i64) - 0x4000_0000_0000_0000 - 0x4000_0000_0000_0000
        };
        Ok(v)
    } else {
        Err(DbError::UnexpectedEnd(ReadPart::OsuDb))
    }
}

/// Reads the four bytes of a little-endian IEEE-754 single, as its bit pattern.
pub fn read_f32_bits(bytes: &[u8], pos: &mut usize) -> (res: Result<u32, DbError>)
    ensures
        read_agrees(res, *final(pos) as int, spec_read_f32_bits(bytes@, *old(pos) as int)),
{
    if *pos < bytes.len() && bytes.len() - *pos >= 4 {
        let p = *pos;
        let u = u32_le(bytes[p], bytes[p + 1], bytes[p + 2], bytes[p + 3]);
        *pos = p + 4;
        Ok(u)
    } else {
        Err(DbError::UnexpectedEnd(ReadPart::OsuDb))
    }
}

/// Reads the eight bytes of a little-endian IEEE-754 double, as its bit pattern.
pub fn read_f64_bits(bytes: &[u8], pos: &mut usize) -> (res: Result<u64, DbError>)
    ensures
        read_agrees(res, *final(pos) as int, spec_read_f64_bits(bytes@, *old(pos) as int)),
{
    if *pos < bytes.len() && bytes.len() - *pos >= 8 {
        let p = *pos;
        let u = u64_at(bytes, p);
        *pos = p + 8;
        Ok(u)
    } else {
        Err(DbError::UnexpectedEnd(ReadPart::OsuDb))
    }
}

/// Reads a ULEB128 length of at most five bytes.
pub fn read_uleb128(bytes: &[u8], pos: &mut usize) -> (res: Result<u64, DbError>)
    ensures
        match spec_read_uleb128(bytes@, *old(pos) as int) {
            Ok((v, p)) => res == Ok::<u64, DbError>(v as u64) && *final(pos) == p
                && v < 0x8_0000_0000 && p <= bytes@.len(),
            Err(e) => res == Err::<u64, DbError>(e),
        },
{
    let ghost s = bytes@;
    let ghost start = *pos as int;
    let mut result: u64 = 0;
    let mut weight: u64 = 1;
    let mut k: usize = 0;
    proof {
        reveal_with_fuel(pow128, 6);
    }
    loop
        invariant
            s == bytes@,
            start == *old(pos) as int,
            k <= 4,
            weight == pow128(k as nat),
            result < weight,
            start <= *pos,
            spec_read_uleb128(s, start) == match uleb_from(s, *pos as int, k as nat) {
                Ok((v, p)) => Ok(((result + weight * v) as nat, p)),
                Err(e) => Err::<(nat, int), DbError>(e),
            },
            pow128(4) == 268435456,
            pow128(5) == 0x8_0000_0000,
        decreases 4 - k,
    {
        if *pos >= bytes.len() {
            assert(uleb_from(s, *pos as int, k as nat) == Err::<(nat, int), DbError>(
                DbError::UnexpectedEnd(ReadPart::StringLength),
            ));
            return Err(DbError::UnexpectedEnd(ReadPart::StringLength));
        }
        let ghost p0 = *pos as int;
        let b = bytes[*pos];
        *pos = *pos + 1;
        if b < 128 {
            assert(weight * b <= weight * 127) by (nonlinear_arith)
                requires b < 128, weight >= 1;
            assert(weight <= 268435456) by {
                lemma_pow128_monotone(k as nat, 4);
            }
            let r = result + weight * (b as u64);
            proof {
                assert(r < pow128(5)) by (nonlinear_arith)
                    requires r < weight + weight * 127, weight <= 268435456,
                        pow128(5) == 128 * pow128(4), pow128(4) == 268435456;
            }
            return Ok(r);
        }
        if k >= 4 {
            assert(uleb_from(s, p0, k as nat) == Err::<(nat, int), DbError>(
                DbError::StringLengthTooLarge,
            ));
            return Err(DbError::StringLengthTooLarge);
        }
        let low = (b - 128) as u64;
        assert(weight * low <= weight * 127) by (nonlinear_arith)
            requires low < 128, weight >= 1;
        assert(weight <= 2097152) by {
            lemma_pow128_monotone(k as nat, 3);
        }
        let ghost old_result = result;
        let ghost old_weight = weight;
        result = result + weight * low;
        weight = weight * 128;
        proof {
            assert(uleb_from(s, p0, k as nat) == match uleb_from(s, *pos as int, (k + 1) as nat) {
                Ok((v, p)) => Ok::<(nat, int), DbError>(((low + 128 * v) as nat, p)),
                Err(e) => Err::<(nat, int), DbError>(e),
            });
            match uleb_from(s, *pos as int, (k + 1) as nat) {
                Ok((v, p)) => {
                    assert(old_result + old_weight * (low + 128 * v) == result + weight * v)
                        by (nonlinear_arith)
                        requires result == old_result + old_weight * low, weight == old_weight * 128;
                },
                Err(e) => {},
            }
        }
        k = k + 1;
    }
}

pub proof fn lemma_pow128_monotone(a: nat, b: nat)
    requires
        a <= b,
    ensures
        pow128(a) <= pow128(b),
    decreases b,
{
    if a < b {
        lemma_pow128_monotone(a, (b - 1) as nat);
    }
}


/// `String::from_utf8`: succeeds exactly when the bytes are valid UTF-8, and
/// then holds the characters they encode; on failure the error carries what
/// `Utf8Error::valid_up_to` reports (the length of the longest valid prefix,
/// as its documentation says) and what `Utf8Error::error_len` reports (named).
#[verifier::external_body]
fn utf8_to_string(bytes: Vec<u8>) -> (res: Result<String, DbError>)
    ensures
        res is Ok <==> valid_utf8(bytes@),
        res matches Ok(s) ==> s@ == decode_utf8(bytes@),
        res matches Err(e) ==> e == (DbError::InvalidUtf8 { valid_up_to: utf8_valid_up_to(bytes@) as usize, error_len: utf8_error_len(bytes@) }),
{
    match String::from_utf8(bytes) {
        Ok(s) => Ok(s),
        Err(e) => Err(DbError::InvalidUtf8 {
            valid_up_to: e.utf8_error().valid_up_to(),
            error_len: e.utf8_error().error_len(),
        }),
    }
}

/// Reads a string: a marker byte (`0x00` for the empty string, `0x0b` for a
/// string that follows), its ULEB128 byte length and its UTF-8 bytes.
pub fn read_osu_string(bytes: &[u8], pos: &mut usize) -> (res: Result<String, DbError>)
    ensures
        read_agrees(res, *final(pos) as int, spec_read_osu_string(bytes@, *old(pos) as int)),
{
    let ghost start = *pos as int;
    if *pos >= bytes.len() {
        return Err(DbError::UnexpectedEnd(ReadPart::StringMarker));
    }
    let marker = bytes[*pos];
    *pos = *pos + 1;
    if marker == 0 {
        let empty = String::new();
        assert(empty@ =~= Seq::<char>::empty());
        return Ok(empty);
    }
    if marker != 0x0b {
        return Err(DbError::BadStringMarker);
    }
    assert(spec_read_osu_string(bytes@, start) == spec_string_body(bytes@, start + 1));
    let len = read_uleb128(bytes, pos)?;
    let p = *pos;
    assert(spec_read_uleb128(bytes@, start + 1) == Ok::<(nat, int), DbError>((len as nat, p as int)));
    if (bytes.len() - p) as u64 >= len {
        let end = p + len as usize;
        let content = vstd::slice::slice_to_vec(&bytes[p..end]);
        assert(content@ == bytes@.subrange(p as int, p + len));
        let text = match utf8_to_string(content) {
            Ok(t) => t,
            Err(e) => {
                assert(!valid_utf8(bytes@.subrange(p as int, p + len)));
                return Err(e);
            },
        };
        *pos = end;
        Ok(text)
    } else {
        Err(DbError::UnexpectedEnd(ReadPart::StringContent))
    }
}

/// Appends the four little-endian bytes of `value`.
pub fn write_i32(bytes: &mut Vec<u8>, value: i32)
    ensures
        final(bytes)@ == old(bytes)@ + i32_bytes(value),
{
    let u: u32 = if value >= 0 {
        value as u32
    } else {
        ((value + 0x4000_0000 + 0x4000_0000) as u32) + 0x8000_0000
    };
    bytes.push((u % 256) as u8);
    bytes.push(((u / 256) % 256) as u8);
    bytes.push(((u / 65536) % 256) as u8);
    bytes.push(((u / 16777216) % 256) as u8);
}

/// Appends the ULEB128 encoding of `value`.
pub fn write_uleb128(bytes: &mut Vec<u8>, value: u64)
    ensures
        final(bytes)@ == old(bytes)@ + uleb_bytes(value as nat),
{
    let ghost start = bytes@;
    let mut v = value;
    loop
        invariant
            start == old(bytes)@,
            start + uleb_bytes(value as nat) == bytes@ + uleb_bytes(v as nat),
        decreases v,
    {
        let low = (v % 128) as u8;
        let rest = v / 128;
        if rest == 0 {
            assert(uleb_bytes(v as nat) == seq![low]);
            let ghost before = bytes@;
            bytes.push(low);
            assert(bytes@ =~= before + uleb_bytes(v as nat));
            return;
        }
        assert(uleb_bytes(v as nat) == seq![(low + 128) as u8] + uleb_bytes(rest as nat));
        let ghost before = bytes@;
        bytes.push(low + 128);
        assert(before + uleb_bytes(v as nat) =~= bytes@ + uleb_bytes(rest as nat));
        v = rest;
    }
}

/// Appends `value` as a database string: `0x00` when empty, else `0x0b`,
/// the ULEB128 byte length and the UTF-8 bytes.
pub fn write_osu_string(bytes: &mut Vec<u8>, value: &str)
    ensures
        final(bytes)@ == old(bytes)@ + osu_string_bytes(value@),
{
    if value.is_empty() {
        bytes.push(0);
        return;
    }
    bytes.push(0x0b);
    let raw = value.as_bytes();
    write_uleb128(bytes, raw.len() as u64);
    let mut i: usize = 0;
    let ghost mid = bytes@;
    while i < raw.len()
        invariant
            i <= raw.len(),
            bytes@ == mid + raw@.take(i as int),
        decreases raw.len() - i,
    {
        bytes.push(raw[i]);
        assert(raw@.take(i + 1) == raw@.take(i as int).push(raw@[i as int]));
        i = i + 1;
    }
    assert(raw@.take(raw.len() as int) == raw@);
}

/// A ULEB128 encoding is read back from the `k`-th length byte on, whatever
/// follows it, when it fits in the remaining `5 - k` bytes.
pub proof fn lemma_uleb_from_bytes(v: nat, k: nat, s: Seq<u8>, pos: int)
    requires
        0 <= pos,
        pos + uleb_bytes(v).len() <= s.len(),
        s.subrange(pos, pos + uleb_bytes(v).len()) == uleb_bytes(v),
        k + uleb_bytes(v).len() <= 5,
    ensures
        uleb_from(s, pos, k) == Ok::<(nat, int), DbError>((v, pos + uleb_bytes(v).len())),
    decreases v,
{
    let b = uleb_bytes(v);
    assert(s[pos] == b[0]);
    if v >= 128 {
        let rest = uleb_bytes(v / 128);
        assert(b == seq![((v % 128) + 128) as u8] + rest);
        assert(s.subrange(pos + 1, pos + 1 + rest.len()) == rest) by {
            assert(s.subrange(pos + 1, pos + 1 + rest.len()) == s.subrange(pos, pos + b.len()).subrange(1, b.len() as int));
        }
        lemma_uleb_from_bytes(v / 128, k + 1, s, pos + 1);
    }
}

/// Five ULEB128 bytes hold every value below `128^5`.
pub proof fn lemma_uleb_len(v: nat, n: nat)
    requires
        v < pow128(n),
        n >= 1,
    ensures
        uleb_bytes(v).len() <= n,
        uleb_bytes(v).len() >= 1,
    decreases v,
{
    assert(pow128(0) == 1);
    if v >= 128 {
        if n == 1 {
            assert(pow128(1) == 128);
        } else {
            let m = pow128((n - 1) as nat);
            assert(pow128(n) == 128 * m);
            assert(v / 128 < m) by (nonlinear_arith)
                requires v < 128 * m;
            lemma_uleb_len(v / 128, (n - 1) as nat);
        }
    }
}

/// Law: a length written with `write_uleb128` is read back by `read_uleb128`,
/// whatever follows it, when it is below `128^5` (the reader's limit of five
/// bytes).
pub proof fn law_uleb128_roundtrip(v: nat, tail: Seq<u8>)
    requires
        v < pow128(5),
    ensures
        spec_read_uleb128(uleb_bytes(v) + tail, 0)
            == Ok::<(nat, int), DbError>((v, uleb_bytes(v).len() as int)),
{
    lemma_uleb_len(v, 5);
    let s = uleb_bytes(v) + tail;
    assert(s.subrange(0, uleb_bytes(v).len() as int) == uleb_bytes(v));
    lemma_uleb_from_bytes(v, 0, s, 0);
}

proof fn lemma_encode_nonempty(s: Seq<char>)
    requires
        s.len() > 0,
    ensures
        encode_utf8(s).len() > 0,
{
    assert(encode_utf8(s) == encode_scalar(s[0] as u32) + encode_utf8(s.drop_first()));
}

/// Reading a string at `pos` gives back `text` when its encoding stands there.
pub proof fn lemma_read_osu_string_at(text: Seq<char>, s: Seq<u8>, pos: int)
    requires
        encode_utf8(text).len() < pow128(5),
        0 <= pos,
        pos + osu_string_bytes(text).len() <= s.len(),
        s.subrange(pos, pos + osu_string_bytes(text).len()) == osu_string_bytes(text),
    ensures
        spec_read_osu_string(s, pos)
            == Ok::<(Seq<char>, int), DbError>((text, pos + osu_string_bytes(text).len())),
{
    broadcast use encode_utf8_valid_utf8, encode_utf8_decode_utf8;

    let w = osu_string_bytes(text);
    assert(s[pos] == w[0]);
    if text.len() > 0 {
        lemma_encode_nonempty(text);
        let enc = encode_utf8(text);
        let len_bytes = uleb_bytes(enc.len());
        lemma_uleb_len(enc.len(), 5);
        assert(w == seq![0x0bu8] + len_bytes + enc);
        assert(s.subrange(pos + 1, pos + 1 + len_bytes.len() as int) == len_bytes) by {
            assert(s.subrange(pos + 1, pos + 1 + len_bytes.len() as int)
                =~= w.subrange(1, 1 + len_bytes.len() as int));
        }
        lemma_uleb_from_bytes(enc.len(), 0, s, pos + 1);
        let p: int = pos + 1 + len_bytes.len() as int;
        assert(s.subrange(p, p + enc.len() as int) == enc) by {
            assert(s.subrange(p, p + enc.len() as int)
                =~= w.subrange(1 + len_bytes.len() as int, w.len() as int));
        }
        assert(spec_read_uleb128(s, pos + 1) == Ok::<(nat, int), DbError>((enc.len(), p)));
        assert(valid_utf8(enc));
        assert(decode_utf8(enc) == text);
        assert(spec_string_body(s, pos + 1) == Ok::<(Seq<char>, int), DbError>((text, p + enc.len())));
    } else {
        assert(text =~= Seq::<char>::empty());
    }
}

/// Law: a string written with `write_osu_string` is read back by
/// `read_osu_string`, whatever follows it, when its UTF-8 encoding is shorter
/// than `128^5` bytes.
pub proof fn law_osu_string_roundtrip(text: Seq<char>, tail: Seq<u8>)
    requires
        encode_utf8(text).len() < pow128(5),
    ensures
        spec_read_osu_string(osu_string_bytes(text) + tail, 0)
            == Ok::<(Seq<char>, int), DbError>((text, osu_string_bytes(text).len() as int)),
{
    let s = osu_string_bytes(text) + tail;
    assert(s.subrange(0, osu_string_bytes(text).len() as int) =~= osu_string_bytes(text));
    lemma_read_osu_string_at(text, s, 0);
}

/// Reading an `i32` at `pos` gives back `v` when its bytes stand there.
pub proof fn lemma_read_i32_at(v: i32, s: Seq<u8>, pos: int)
    requires
        0 <= pos,
        pos + 4 <= s.len(),
        s.subrange(pos, pos + 4) == i32_bytes(v),
    ensures
        spec_read_i32(s, pos) == Ok::<(i32, int), DbError>((v, pos + 4)),
{
    let b = i32_bytes(v);
    let u: int = if v >= 0 { v as int } else { v + 0x1_0000_0000 };
    assert(s[pos] == b[0] && s[pos + 1] == b[1] && s[pos + 2] == b[2] && s[pos + 3] == b[3]);
    assert(le32(s, pos) == u) by (nonlinear_arith)
        requires
            0 <= u < 0x1_0000_0000,
            s[pos] == u % 256,
            s[pos + 1] == (u / 256) % 256,
            s[pos + 2] == (u / 65536) % 256,
            s[pos + 3] == (u / 16777216) % 256,
            le32(s, pos) == s[pos] + 256 * s[pos + 1] + 65536 * s[pos + 2] + 16777216 * s[pos + 3];
}

/// Law: an `i32` written with `write_i32` is read back by `read_i32`.
pub proof fn law_i32_roundtrip(v: i32, tail: Seq<u8>)
    ensures
        spec_read_i32(i32_bytes(v) + tail, 0) == Ok::<(i32, int), DbError>((v, 4)),
{
    let s = i32_bytes(v) + tail;
    assert(s.subrange(0, 4) =~= i32_bytes(v));
    lemma_read_i32_at(v, s, 0);
}

}
