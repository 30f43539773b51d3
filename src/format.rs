//! The two string conventions of the file format and the reading of each
//! primitive field, stated over a byte sequence and a position in it.
use vstd::prelude::*;
use vstd::utf8::*;
use crate::error::KanbanErrorKind;
use crate::varint::{leb128_bytes, decode_varint};

verus! {

/// The single length byte of a short string: its byte length, capped at 255.
pub open spec fn short_prefix(n: nat) -> u8 {
    if n < 255 {
        n as u8
    } else {
        255
    }
}

/// Whether a text's byte length fits the 32-bit length of a long string.
pub open spec fn long_text_fits(s: Seq<char>) -> bool {
    encode_utf8(s).len() <= u32::MAX
}

/// A short string: one capped length byte, then every byte of the text.
pub open spec fn short_text_bytes(s: Seq<char>) -> Seq<u8> {
    seq![short_prefix(encode_utf8(s).len())] + encode_utf8(s)
}

/// A long string: its length as a varint, then the bytes of the text.
pub open spec fn long_text_bytes(s: Seq<char>) -> Seq<u8> {
    leb128_bytes(encode_utf8(s).len()) + encode_utf8(s)
}

/// A string in the chosen convention.
pub open spec fn text_with_length(s: Seq<char>, short_mode: bool) -> Seq<u8> {
    if short_mode {
        short_text_bytes(s)
    } else {
        long_text_bytes(s)
    }
}

/// What a read of a field gives: the value and the position after it, or the
/// kind of failure.
pub type Parsed<T> = Result<(T, nat), KanbanErrorKind>;

/// `n` raw bytes at `pos`; a bounds failure when fewer remain.
pub open spec fn parse_bytes(b: Seq<u8>, pos: nat, n: nat) -> Parsed<Seq<u8>> {
    if pos + n <= b.len() {
        Ok((b.subrange(pos as int, (pos + n) as int), pos + n))
    } else {
        Err(KanbanErrorKind::ProjectError)
    }
}

/// One byte at `pos`.
pub open spec fn parse_byte(b: Seq<u8>, pos: nat) -> Parsed<u8> {
    if pos < b.len() {
        Ok((b[pos as int], pos + 1))
    } else {
        Err(KanbanErrorKind::ProjectError)
    }
}

/// `n` bytes at `pos` read as UTF-8 text.
pub open spec fn parse_text(b: Seq<u8>, pos: nat, n: nat) -> Parsed<Seq<char>> {
    match parse_bytes(b, pos, n) {
        Ok((s, p)) => if valid_utf8(s) {
            Ok((decode_utf8(s), p))
        } else {
            Err(KanbanErrorKind::TextError)
        },
        Err(e) => Err(e),
    }
}

/// A varint at `pos`: a number error when the bytes end before a terminating
/// byte or the value exceeds `usize`.
pub open spec fn parse_varint(b: Seq<u8>, pos: nat) -> Parsed<nat> {
    if pos <= b.len() {
        match decode_varint(b.subrange(pos as int, b.len() as int)) {
            Some((v, n)) => Ok((v, pos + n)),
            None => Err(KanbanErrorKind::NumberError),
        }
    } else {
        Err(KanbanErrorKind::NumberError)
    }
}

/// A string in the chosen convention at `pos`: its length field, then its text.
pub open spec fn parse_text_with_length(b: Seq<u8>, pos: nat, short_mode: bool) -> Parsed<
    Seq<char>,
> {
    if short_mode {
        match parse_byte(b, pos) {
            Ok((n, p)) => parse_text(b, p, n as nat),
            Err(e) => Err(e),
        }
    } else {
        match parse_varint(b, pos) {
            Ok((n, p)) => parse_text(b, p, n),
            Err(e) => Err(e),
        }
    }
}

} // verus!
