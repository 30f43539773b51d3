//! A cursor over an immutable byte buffer; every read is bounds-checked, and a
//! read that fails leaves the position where it was.
use vstd::prelude::*;
use vstd::slice::slice_subrange;
use crate::error::{KanbanError, KanbanErrorKind};
use crate::format::{parse_byte, parse_bytes, parse_text, parse_varint, parse_text_with_length};
use crate::text::{decimal, push_decimal, push_str, utf8_decode};
use crate::varint::{
    varint_value, pow128, lemma_varint_len_continued, lemma_varint_too_large,
    lemma_varint_len_ends, lemma_varint_value_extend,
};

verus! {

/// The message of a read past the end: the position the read would reach and
/// the buffer's length.
pub open spec fn bounds_message(reading: nat, total: nat) -> Seq<char> {
    "Failed to read project file: Out of bound (reading "@ + decimal(reading) + " out of "@
        + decimal(total) + ")"@
}

/// `a + b`, or the largest `usize` when the sum does not fit.
pub open spec fn saturating_sum(a: nat, b: nat) -> nat {
    if a + b <= usize::MAX {
        a + b
    } else {
        usize::MAX as nat
    }
}

/// The error of a read of `length` bytes at `address` in a buffer of `total`.
pub open spec fn is_bounds_error(e: KanbanError, address: nat, length: nat, total: nat) -> bool {
    e.kind == KanbanErrorKind::ProjectError && e.message@ == bounds_message(
        saturating_sum(address, length),
        total,
    )
}

/// The message of a malformed varint.
pub open spec fn number_message() -> Seq<char> {
    "Failed to parse LEB128 number: Badly formatted."@
}

/// The error of a malformed varint.
fn malformed_number() -> (e: KanbanError)
    ensures
        e.kind == KanbanErrorKind::NumberError,
        e.message@ == number_message(),
{
    KanbanError::new(KanbanErrorKind::NumberError, "Failed to parse LEB128 number: Badly formatted.")
}

/// A buffer and the position of the next read.
#[derive(Debug)]
pub struct BinaryReader {
    pub bytes: Vec<u8>,
    pub address: usize,
}

impl BinaryReader {
    /// A cursor at the start of a copy of `bytes`.
    pub fn new(bytes: &[u8]) -> (r: BinaryReader)
        ensures
            r.bytes@ == bytes@,
            r.address == 0,
    {
        let mut v: Vec<u8> = Vec::new();
        let mut i: usize = 0;
        while i < bytes.len()
            invariant
                i <= bytes@.len(),
                v@ == bytes@.subrange(0, i as int),
            decreases bytes@.len() - i,
        {
            v.push(bytes[i]);
            assert(bytes@.subrange(0, i + 1) =~= bytes@.subrange(0, i as int).push(bytes@[i as int]));
            i = i + 1;
        }
        assert(bytes@.subrange(0, bytes@.len() as int) =~= bytes@);
        BinaryReader { bytes: v, address: 0 }
    }

    /// Succeeds exactly when `length` bytes remain from the position; any
    /// position and length are accepted.
    pub fn check_bound(&self, length: usize) -> (r: Result<(), KanbanError>)
        ensures
            r is Ok <==> self.address + length <= self.bytes@.len(),
            r matches Err(e) ==> is_bounds_error(
                e,
                self.address as nat,
                length as nat,
                self.bytes@.len(),
            ),
    {
        let total: usize = self.bytes.len();
        if self.address <= total && length <= total - self.address {
            return Ok(());
        }
        let reading: usize = self.address.saturating_add(length);
        let mut message = String::new();
        push_str(&mut message, "Failed to read project file: Out of bound (reading ");
        push_decimal(&mut message, reading);
        push_str(&mut message, " out of ");
        push_decimal(&mut message, total);
        push_str(&mut message, ")");
        Err(KanbanError { kind: KanbanErrorKind::ProjectError, message, source: None })
    }

    /// The byte at the position, which does not move.
    pub fn peek(&self) -> (r: Result<u8, KanbanError>)
        ensures
            match parse_byte(self.bytes@, self.address as nat) {
                Ok((v, _)) => r matches Ok(x) && x == v,
                Err(_) => r matches Err(e) && is_bounds_error(
                    e,
                    self.address as nat,
                    1,
                    self.bytes@.len(),
                ),
            },
    {
        self.check_bound(1)?;
        Ok(self.bytes[self.address])
    }

    /// The byte at the position; the position moves past it.
    pub fn next_byte(&mut self) -> (r: Result<u8, KanbanError>)
        ensures
            final(self).bytes@ == old(self).bytes@,
            match parse_byte(old(self).bytes@, old(self).address as nat) {
                Ok((v, p)) => r matches Ok(x) && x == v && final(self).address == p,
                Err(_) => r matches Err(e) && is_bounds_error(
                    e,
                    old(self).address as nat,
                    1,
                    old(self).bytes@.len(),
                ) && final(self).address == old(self).address,
            },
    {
        self.check_bound(1)?;
        let _total: usize = self.bytes.len();
        let byte: u8 = self.bytes[self.address];
        self.address = self.address + 1;
        Ok(byte)
    }

    /// The next `length` bytes; the position moves past them.
    pub fn next_bytes(&mut self, length: usize) -> (r: Result<Vec<u8>, KanbanError>)
        ensures
            final(self).bytes@ == old(self).bytes@,
            match parse_bytes(old(self).bytes@, old(self).address as nat, length as nat) {
                Ok((v, p)) => r matches Ok(x) && x@ == v && final(self).address == p,
                Err(_) => r matches Err(e) && is_bounds_error(
                    e,
                    old(self).address as nat,
                    length as nat,
                    old(self).bytes@.len(),
                ) && final(self).address == old(self).address,
            },
    {
        self.check_bound(length)?;
        let total: usize = self.bytes.len();
        let start: usize = self.address;
        let mut v: Vec<u8> = Vec::new();
        let mut i: usize = 0;
        while i < length
            invariant
                i <= length,
                start + length <= self.bytes@.len(),
                total == self.bytes@.len(),
                v@ == self.bytes@.subrange(start as int, start + i),
            decreases length - i,
        {
            v.push(self.bytes[start + i]);
            assert(self.bytes@.subrange(start as int, start + i + 1) =~= self.bytes@.subrange(
                start as int,
                start + i,
            ).push(self.bytes@[start + i]));
            i = i + 1;
        }
        self.address = start + length;
        Ok(v)
    }

    /// The next `length` bytes read as UTF-8 text; the position moves past
    /// them only when the read succeeds.
    pub fn next_string_by_length(&mut self, length: usize) -> (r: Result<String, KanbanError>)
        ensures
            final(self).bytes@ == old(self).bytes@,
            match parse_text(old(self).bytes@, old(self).address as nat, length as nat) {
                Ok((v, p)) => r matches Ok(x) && x@ == v && final(self).address == p,
                Err(k) => r matches Err(e) && e.kind == k && final(self).address == old(
                    self,
                ).address && (k == KanbanErrorKind::ProjectError ==> is_bounds_error(
                    e,
                    old(self).address as nat,
                    length as nat,
                    old(self).bytes@.len(),
                )),
            },
    {
        self.check_bound(length)?;
        let total: usize = self.bytes.len();
        let start: usize = self.address;
        let slice: &[u8] = slice_subrange(self.bytes.as_slice(), start, start + length);
        match utf8_decode(slice) {
            Ok(s) => {
                self.address = start + length;
                Ok(s)
            },
            Err(description) => Err(KanbanError::from_box_source(KanbanErrorKind::TextError, description)),
        }
    }

    /// A varint at the position: bytes up to and including the first one
    /// without the continuation bit. Fails, with the position restored, when
    /// the buffer ends before such a byte or the value exceeds `usize`.
    pub fn next_leb128_number(&mut self) -> (r: Result<usize, KanbanError>)
        ensures
            final(self).bytes@ == old(self).bytes@,
            match parse_varint(old(self).bytes@, old(self).address as nat) {
                Ok((v, p)) => r matches Ok(x) && x == v && final(self).address == p,
                Err(_) => r matches Err(e) && e.kind == KanbanErrorKind::NumberError
                    && e.message@ == number_message() && final(self).address == old(self).address,
            },
    {
        let start: usize = self.address;
        let total: usize = self.bytes.len();
        if start > total {
            return Err(malformed_number());
        }
        let ghost s = self.bytes@.subrange(start as int, total as int);
        let mut i: usize = 0;
        let mut acc: usize = 0;
        let mut weight: usize = 1;
        let mut weight_overflowed: bool = false;
        assert(s.take(0) =~= Seq::<u8>::empty());
        loop
            invariant
                self.bytes@ == old(self).bytes@,
                self.address == start,
                start == old(self).address,
                total == self.bytes@.len(),
                start <= total,
                s == self.bytes@.subrange(start as int, total as int),
                i <= s.len(),
                forall|j: int| 0 <= j < i ==> s[j] >= 128,
                acc == varint_value(s.take(i as int)),
                !weight_overflowed ==> weight == pow128(i as nat),
                weight_overflowed ==> pow128(i as nat) > usize::MAX,
            decreases s.len() - i,
        {
            if i >= total - start {
                proof {
                    lemma_varint_len_continued(s, i as nat);
                }
                return Err(malformed_number());
            }
            let byte: u8 = self.bytes[start + i];
            assert(byte == s[i as int]);
            let digit: usize = (byte % 128) as usize;
            proof {
                lemma_varint_value_extend(s, i as nat);
            }
            let next_acc: usize;
            assert(digit as nat == (s[i as int] % 128) as nat);
            if digit == 0 {
                next_acc = acc;
                assert((s[i as int] % 128) as nat * pow128(i as nat) == 0) by (nonlinear_arith)
                    requires
                        (s[i as int] % 128) as nat == 0,
                ;
            } else if weight_overflowed {
                proof {
                    assert(digit * pow128(i as nat) >= pow128(i as nat)) by (nonlinear_arith)
                        requires
                            digit >= 1,
                    ;
                    lemma_varint_too_large(s, i as nat);
                }
                return Err(malformed_number());
            } else {
                match digit.checked_mul(weight) {
                    Some(part) => match acc.checked_add(part) {
                        Some(sum) => {
                            next_acc = sum;
                        },
                        None => {
                            proof {
                                lemma_varint_too_large(s, i as nat);
                            }
                            return Err(malformed_number());
                        },
                    },
                    None => {
                        proof {
                            lemma_varint_too_large(s, i as nat);
                        }
                        return Err(malformed_number());
                    },
                }
            }
            assert(next_acc == varint_value(s.take((i + 1) as int)));
            if byte < 128 {
                proof {
                    lemma_varint_len_ends(s, i as nat);
                }
                self.address = start + i + 1;
                return Ok(next_acc);
            }
            acc = next_acc;
            proof {
                assert(pow128((i + 1) as nat) == 128 * pow128(i as nat));
            }
            if !weight_overflowed {
                match weight.checked_mul(128) {
                    Some(w) => {
                        weight = w;
                    },
                    None => {
                        weight_overflowed = true;
                    },
                }
            }
            i = i + 1;
        }
    }

    /// A string with a varint length before it. On any failure the position
    /// is restored.
    pub fn next_string(&mut self) -> (r: Result<String, KanbanError>)
        ensures
            final(self).bytes@ == old(self).bytes@,
            match parse_text_with_length(old(self).bytes@, old(self).address as nat, false) {
                Ok((v, p)) => r matches Ok(x) && x@ == v && final(self).address == p,
                Err(k) => r matches Err(e) && e.kind == k && final(self).address == old(
                    self,
                ).address,
            },
    {
        self.next_string_with_length(false)
    }

    /// A string in the chosen convention: in short mode one length byte, else
    /// a varint length. On any failure the position is restored.
    pub fn next_string_with_length(&mut self, short_mode: bool) -> (r: Result<String, KanbanError>)
        ensures
            final(self).bytes@ == old(self).bytes@,
            match parse_text_with_length(old(self).bytes@, old(self).address as nat, short_mode) {
                Ok((v, p)) => r matches Ok(x) && x@ == v && final(self).address == p,
                Err(k) => r matches Err(e) && e.kind == k && final(self).address == old(
                    self,
                ).address,
            },
    {
        let previous: usize = self.address;
        let length: usize = if short_mode {
            self.next_byte()? as usize
        } else {
            self.next_leb128_number()?
        };
        let result = self.next_string_by_length(length);
        if result.is_err() {
            self.address = previous;
        }
        result
    }
}

} // verus!
