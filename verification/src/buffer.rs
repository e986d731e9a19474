//! A forward-only, bounds-checked reader of big-endian values.

use vstd::prelude::*;
use vstd::arithmetic::power::pow;
use vstd::slice::*;
use vstd::utf8::{
    decode_utf8, encode_utf8, encode_utf8_decode_utf8, encode_utf8_valid_utf8, is_ascii_chars,
    is_ascii_chars_encode_utf8, valid_utf8,
};
use crate::class_reader_error::{truncated, ClassReaderError, ErrorView, Result};

verus! {

/// What a read at some position gives: the value and the position behind
/// it, or the error.
pub type Read<T> = std::result::Result<(T, int), ErrorView>;

/// The `size` bytes of `data` at position `at`, or the truncation error
/// where `data` has fewer.
pub open spec fn take(data: Seq<u8>, at: int, size: int) -> Read<Seq<u8>> {
    if 0 <= at && 0 <= size && at + size <= data.len() {
        Ok((data.subrange(at, at + size), at + size))
    } else {
        Err(truncated())
    }
}

/// The number that `bytes` write in base 256, first byte first.
pub open spec fn big_endian(bytes: Seq<u8>) -> nat
    decreases bytes.len(),
{
    if bytes.len() == 0 {
        0
    } else {
        big_endian(bytes.drop_last()) * 256 + bytes.last() as nat
    }
}

/// The number that `bytes` write in two's complement, first byte first.
pub open spec fn twos_complement(bytes: Seq<u8>) -> int {
    if bytes.len() > 0 && bytes[0] >= 128 {
        big_endian(bytes) - pow(256, bytes.len())
    } else {
        big_endian(bytes) as int
    }
}

/// The byte at position `at`.
pub open spec fn u8_at(data: Seq<u8>, at: int) -> Read<u8> {
    match take(data, at, 1) {
        Ok((bytes, end)) => Ok((big_endian(bytes) as u8, end)),
        Err(error) => Err(error),
    }
}

/// The unsigned 16-bit number at position `at`.
pub open spec fn u16_at(data: Seq<u8>, at: int) -> Read<u16> {
    match take(data, at, 2) {
        Ok((bytes, end)) => Ok((big_endian(bytes) as u16, end)),
        Err(error) => Err(error),
    }
}

/// The unsigned 32-bit number at position `at`.
pub open spec fn u32_at(data: Seq<u8>, at: int) -> Read<u32> {
    match take(data, at, 4) {
        Ok((bytes, end)) => Ok((big_endian(bytes) as u32, end)),
        Err(error) => Err(error),
    }
}

/// The unsigned 64-bit number at position `at`.
pub open spec fn u64_at(data: Seq<u8>, at: int) -> Read<u64> {
    match take(data, at, 8) {
        Ok((bytes, end)) => Ok((big_endian(bytes) as u64, end)),
        Err(error) => Err(error),
    }
}

/// The signed 32-bit number at position `at`.
pub open spec fn i32_at(data: Seq<u8>, at: int) -> Read<i32> {
    match take(data, at, 4) {
        Ok((bytes, end)) => Ok((twos_complement(bytes) as i32, end)),
        Err(error) => Err(error),
    }
}

/// The signed 64-bit number at position `at`.
pub open spec fn i64_at(data: Seq<u8>, at: int) -> Read<i64> {
    match take(data, at, 8) {
        Ok((bytes, end)) => Ok((twos_complement(bytes) as i64, end)),
        Err(error) => Err(error),
    }
}

/// Two bytes as a number.
fn number_of_2(bytes: &[u8]) -> (value: u16)
    requires
        bytes@.len() == 2,
    ensures
        value == big_endian(bytes@),
{
    proof {
        reveal_with_fuel(big_endian, 3);
        assert(bytes@.drop_last().last() == bytes@[0]);
    }
    bytes[0] as u16 * 256 + bytes[1] as u16
}

/// Four bytes as a number.
fn number_of_4(bytes: &[u8]) -> (value: u32)
    requires
        bytes@.len() == 4,
    ensures
        value == big_endian(bytes@),
        value >= 0x8000_0000 <==> bytes@[0] >= 128,
{
    proof {
        reveal_with_fuel(big_endian, 5);
        let b3 = bytes@.drop_last();
        let b2 = b3.drop_last();
        let b1 = b2.drop_last();
        assert(b3.last() == bytes@[2]);
        assert(b2.last() == bytes@[1]);
        assert(b1.last() == bytes@[0]);
    }
    ((bytes[0] as u32 * 256 + bytes[1] as u32) * 256 + bytes[2] as u32) * 256 + bytes[3] as u32
}

/// Eight bytes as a number.
fn number_of_8(bytes: &[u8]) -> (value: u64)
    requires
        bytes@.len() == 8,
    ensures
        value == big_endian(bytes@),
        value >= 0x8000_0000_0000_0000 <==> bytes@[0] >= 128,
{
    proof {
        reveal_with_fuel(big_endian, 9);
        let b7 = bytes@.drop_last();
        let b6 = b7.drop_last();
        let b5 = b6.drop_last();
        let b4 = b5.drop_last();
        let b3 = b4.drop_last();
        let b2 = b3.drop_last();
        let b1 = b2.drop_last();
        assert(b7.last() == bytes@[6]);
        assert(b6.last() == bytes@[5]);
        assert(b5.last() == bytes@[4]);
        assert(b4.last() == bytes@[3]);
        assert(b3.last() == bytes@[2]);
        assert(b2.last() == bytes@[1]);
        assert(b1.last() == bytes@[0]);
    }
    let high: u64 = ((bytes[0] as u64 * 256 + bytes[1] as u64) * 256 + bytes[2] as u64) * 256
        + bytes[3] as u64;
    let low: u64 = ((bytes[4] as u64 * 256 + bytes[5] as u64) * 256 + bytes[6] as u64) * 256
        + bytes[7] as u64;
    high * 0x1_0000_0000 + low
}

/// Makes `cesu8::Cesu8DecodingError` known, the error with which
/// `cesu8::from_java_cesu8` rejects bytes. It holds nothing, and nothing is
/// claimed of it.
#[verifier::external_type_specification]
#[verifier::external_body]
pub struct ExCesu8DecodingError(cesu8::Cesu8DecodingError);

/// The text that `bytes` hold in the modified UTF-8 of class files, as
/// `cesu8::from_java_cesu8` decodes it; `None` where it rejects them.
/// Nothing more is said of it here than that it is the same for the same
/// bytes.
pub uninterp spec fn java_cesu8_text(bytes: Seq<u8>) -> Option<Seq<char>>;

/// Calls `cesu8::from_java_cesu8`, which decodes modified UTF-8: the null
/// character may be written as two bytes, and a character beyond the basic
/// plane as a pair of three-byte surrogates. Taken on trust, and not proved:
/// that the call returns for all bytes; that what it returns depends on the
/// bytes alone, so that it is the text, or the rejection, that
/// `java_cesu8_text` names; and that bytes which are UTF-8 as they stand
/// are handed back as the text they encode. The text is handed out as an
/// owned string.
#[verifier::external_body]
fn from_java_cesu8(bytes: &[u8]) -> (decoded: std::result::Result<
    String,
    cesu8::Cesu8DecodingError,
>)
    ensures
        match decoded {
            Ok(text) => java_cesu8_text(bytes@) == Some(text@),
            Err(_) => java_cesu8_text(bytes@) is None,
        },
        valid_utf8(bytes@) ==> decoded is Ok && decoded->Ok_0@ == decode_utf8(bytes@),
{
    match cesu8::from_java_cesu8(bytes) {
        Ok(text) => Ok(text.into_owned()),
        Err(error) => Err(error),
    }
}

/// The error for bytes that are not modified UTF-8.
pub open spec fn invalid_utf8() -> ErrorView {
    ErrorView::InvalidClassData("invalid utf8 data"@)
}

/// Whether `bytes` hold neither a zero byte nor a byte of 0xF0 or more.
/// Modified UTF-8 has neither: it writes the null character in two bytes,
/// and a character beyond the basic plane as two surrogates of three bytes
/// each, where standard UTF-8 has one sequence of four bytes.
pub open spec fn without_plain_null_or_wide(bytes: Seq<u8>) -> bool {
    forall|i: int| 0 <= i < bytes.len() ==> bytes[i] != 0 && bytes[i] < 0xF0
}

/// The text of the `len` bytes at position `at`. Bytes with a zero byte or
/// with a sequence of four bytes are no modified UTF-8, whatever the
/// decoder makes of them.
pub open spec fn utf8_at(data: Seq<u8>, at: int, len: int) -> Read<Seq<char>> {
    match take(data, at, len) {
        Ok((bytes, end)) => if !without_plain_null_or_wide(bytes) {
            Err(invalid_utf8())
        } else {
            match java_cesu8_text(bytes) {
                Some(text) => Ok((text, end)),
                None => Err(invalid_utf8()),
            }
        },
        Err(error) => Err(error),
    }
}

/// Whether `bytes` hold neither a zero byte nor a byte of 0xF0 or more.
pub fn has_no_plain_null_or_wide(bytes: &[u8]) -> (ok: bool)
    ensures
        ok == without_plain_null_or_wide(bytes@),
{
    let mut i: usize = 0;
    while i < bytes.len()
        invariant
            i <= bytes.len(),
            forall|k: int| 0 <= k < i ==> bytes@[k] != 0 && bytes@[k] < 0xF0,
        decreases bytes.len() - i,
    {
        if bytes[i] == 0 || bytes[i] >= 0xF0 {
            return false;
        }
        i += 1;
    }
    true
}

/// Bytes below 128 are UTF-8 as they stand, and encode themselves as
/// characters; without a zero byte among them they are modified UTF-8 too.
pub proof fn lemma_ascii_is_utf8(bytes: Seq<u8>)
    requires
        forall|i: int| 0 <= i < bytes.len() ==> bytes[i] < 128,
    ensures
        valid_utf8(bytes),
        decode_utf8(bytes) == Seq::new(bytes.len(), |i: int| bytes[i] as char),
        (forall|i: int| 0 <= i < bytes.len() ==> bytes[i] != 0) ==> without_plain_null_or_wide(
            bytes,
        ),
{
    let chars = Seq::new(bytes.len(), |i: int| bytes[i] as char);
    assert(is_ascii_chars(chars));
    is_ascii_chars_encode_utf8(chars);
    assert(encode_utf8(chars) =~= bytes);
    encode_utf8_valid_utf8(chars);
    encode_utf8_decode_utf8(chars);
}

/// Turns what the decoder gave into what the reader gives: the text, or the
/// error for invalid modified UTF-8.
pub fn decoded_text(decoded: std::result::Result<String, cesu8::Cesu8DecodingError>) -> (result:
    Result<String>)
    ensures
        match decoded {
            Ok(text) => result is Ok && result->Ok_0@ == text@,
            Err(_) => result is Err && result->Err_0@ == invalid_utf8(),
        },
{
    match decoded {
        Ok(text) => Ok(text),
        Err(_) => Err(ClassReaderError::invalid("invalid utf8 data")),
    }
}

/// A cursor over borrowed bytes.
pub struct BufferReader<'a> {
    buffer: &'a [u8],
    position: usize,
}

impl<'a> BufferReader<'a> {
    #[verifier::type_invariant]
    spec fn within_buffer(self) -> bool {
        self.position <= self.buffer@.len()
    }

    /// The bytes that this reader reads.
    pub closed spec fn data(self) -> Seq<u8> {
        self.buffer@
    }

    /// The position of the next byte to read.
    pub closed spec fn position(self) -> int {
        self.position as int
    }

    /// A read that gave `result` and led from `self` to `after` gave what
    /// `expected` says: the value and the new position, or the error with
    /// the position unchanged. The bytes stay the same.
    pub open spec fn reads<T>(self, after: Self, result: Result<T>, expected: Read<T>) -> bool {
        &&& after.data() == self.data()
        &&& 0 <= after.position() <= after.data().len()
        &&& match result {
            Ok(value) => expected == Ok::<(T, int), ErrorView>((value, after.position())),
            Err(error) => expected == Err::<(T, int), ErrorView>(error@) && after.position()
                == self.position(),
        }
    }

    /// Reading on from `self` gave `outcome` and led to `after`, as
    /// `expected` says: the value and the new position, or the error. The
    /// bytes stay the same.
    pub open spec fn parses<V>(
        self,
        after: Self,
        outcome: std::result::Result<V, ErrorView>,
        expected: Read<V>,
    ) -> bool {
        &&& after.data() == self.data()
        &&& 0 <= after.position() <= after.data().len()
        &&& match outcome {
            Ok(value) => expected == Ok::<(V, int), ErrorView>((value, after.position())),
            Err(error) => expected == Err::<(V, int), ErrorView>(error),
        }
    }

    /// A reader at the start of `data`.
    pub fn new(data: &'a [u8]) -> (reader: Self)
        ensures
            reader.data() == data@,
            reader.position() == 0,
    {
        BufferReader { buffer: data, position: 0 }
    }

    /// Hands out the next `size` bytes and steps behind them, or fails
    /// without a step where fewer are left.
    pub fn advance(&mut self, size: usize) -> (result: Result<&'a [u8]>)
        ensures
            final(self).data() == old(self).data(),
            0 <= final(self).position() <= final(self).data().len(),
            match result {
                Ok(bytes) => take(old(self).data(), old(self).position(), size as int) == Ok::<
                    (Seq<u8>, int),
                    ErrorView,
                >((bytes@, final(self).position())),
                Err(error) => take(old(self).data(), old(self).position(), size as int) == Err::<
                    (Seq<u8>, int),
                    ErrorView,
                >(error@) && final(self).position() == old(self).position(),
            },
    {
        proof {
            use_type_invariant(&*self);
        }
        if size > self.buffer.len() - self.position {
            Err(ClassReaderError::invalid("class does not have expected length"))
        } else {
            let slice = slice_subrange(self.buffer, self.position, self.position + size);
            self.position += size;
            Ok(slice)
        }
    }

    /// Reads one byte.
    pub fn read_u8(&mut self) -> (result: Result<u8>)
        ensures
            old(self).reads(*final(self), result, u8_at(old(self).data(), old(self).position())),
    {
        match self.advance(1) {
            Ok(bytes) => {
                proof {
                    reveal_with_fuel(big_endian, 2);
                }
                Ok(bytes[0])
            },
            Err(error) => Err(error),
        }
    }

    /// Reads an unsigned 16-bit number.
    pub fn read_u16(&mut self) -> (result: Result<u16>)
        ensures
            old(self).reads(*final(self), result, u16_at(old(self).data(), old(self).position())),
    {
        match self.advance(2) {
            Ok(bytes) => Ok(number_of_2(bytes)),
            Err(error) => Err(error),
        }
    }

    /// Reads an unsigned 32-bit number.
    pub fn read_u32(&mut self) -> (result: Result<u32>)
        ensures
            old(self).reads(*final(self), result, u32_at(old(self).data(), old(self).position())),
    {
        match self.advance(4) {
            Ok(bytes) => Ok(number_of_4(bytes)),
            Err(error) => Err(error),
        }
    }

    /// Reads a signed 32-bit number.
    pub fn read_i32(&mut self) -> (result: Result<i32>)
        ensures
            old(self).reads(*final(self), result, i32_at(old(self).data(), old(self).position())),
    {
        match self.advance(4) {
            Ok(bytes) => {
                let raw = number_of_4(bytes);
                proof {
                    reveal_with_fuel(pow, 5);
                }
                if raw >= 0x8000_0000 {
                    Ok((raw - 0x8000_0000) as i32 - 0x7FFF_FFFF - 1)
                } else {
                    Ok(raw as i32)
                }
            },
            Err(error) => Err(error),
        }
    }

    /// Reads a signed 64-bit number.
    pub fn read_i64(&mut self) -> (result: Result<i64>)
        ensures
            old(self).reads(*final(self), result, i64_at(old(self).data(), old(self).position())),
    {
        match self.advance(8) {
            Ok(bytes) => {
                let raw = number_of_8(bytes);
                proof {
                    reveal_with_fuel(pow, 9);
                }
                if raw >= 0x8000_0000_0000_0000 {
                    Ok((raw - 0x8000_0000_0000_0000) as i64 - 0x7FFF_FFFF_FFFF_FFFF - 1)
                } else {
                    Ok(raw as i64)
                }
            },
            Err(error) => Err(error),
        }
    }

    /// Reads the bit pattern of a single-precision number.
    pub fn read_f32(&mut self) -> (result: Result<u32>)
        ensures
            old(self).reads(*final(self), result, u32_at(old(self).data(), old(self).position())),
    {
        self.read_u32()
    }

    /// Reads the bit pattern of a double-precision number.
    pub fn read_f64(&mut self) -> (result: Result<u64>)
        ensures
            old(self).reads(*final(self), result, u64_at(old(self).data(), old(self).position())),
    {
        match self.advance(8) {
            Ok(bytes) => Ok(number_of_8(bytes)),
            Err(error) => Err(error),
        }
    }

    /// Reads `len` bytes as modified UTF-8. Where fewer bytes are left the
    /// reader stays in place; where the bytes are not modified UTF-8 it has
    /// stepped behind them. Bytes that are UTF-8 as they stand, without a
    /// zero byte and without a sequence of four bytes, are read as the text
    /// they encode.
    pub fn read_utf8(&mut self, len: usize) -> (result: Result<String>)
        ensures
            final(self).data() == old(self).data(),
            0 <= final(self).position() <= final(self).data().len(),
            take(old(self).data(), old(self).position(), len as int) matches Ok((bytes, _)) ==> (
            valid_utf8(bytes) && without_plain_null_or_wide(bytes) ==> result is Ok
                && result->Ok_0@ == decode_utf8(bytes)),
            match result {
                Ok(text) => utf8_at(old(self).data(), old(self).position(), len as int) == Ok::<
                    (Seq<char>, int),
                    ErrorView,
                >((text@, final(self).position())),
                Err(error) => utf8_at(old(self).data(), old(self).position(), len as int) == Err::<
                    (Seq<char>, int),
                    ErrorView,
                >(error@),
            },
            final(self).position() == if take(
                old(self).data(),
                old(self).position(),
                len as int,
            ) is Ok {
                old(self).position() + len
            } else {
                old(self).position()
            },
    {
        match self.advance(len) {
            Ok(bytes) => if has_no_plain_null_or_wide(bytes) {
                decoded_text(from_java_cesu8(bytes))
            } else {
                Err(ClassReaderError::invalid("invalid utf8 data"))
            },
            Err(error) => Err(error),
        }
    }

    /// Whether any byte is left to read.
    pub fn has_more_data(&self) -> (more: bool)
        ensures
            more == (self.position() < self.data().len()),
            0 <= self.position() <= self.data().len(),
    {
        proof {
            use_type_invariant(self);
        }
        self.position < self.buffer.len()
    }
}

} // verus!
