//! A growable byte sink: every write appends.
use vstd::prelude::*;
use crate::format::{text_with_length, short_prefix};
use crate::varint::leb128_bytes;
use vstd::utf8::encode_utf8;

verus! {

/// Bytes written so far, in order.
pub struct BinaryWriter {
    pub bytes: Vec<u8>,
}

impl View for BinaryWriter {
    type V = Seq<u8>;

    open spec fn view(&self) -> Seq<u8> {
        self.bytes@
    }
}

impl BinaryWriter {
    /// An empty sink.
    pub fn new() -> (r: BinaryWriter)
        ensures
            r@ == Seq::<u8>::empty(),
    {
        BinaryWriter { bytes: Vec::new() }
    }

    /// Appends one byte.
    pub fn write_byte(&mut self, byte: u8)
        ensures
            final(self)@ == old(self)@.push(byte),
    {
        self.bytes.push(byte);
    }

    /// Appends the given bytes.
    pub fn write_bytes(&mut self, bytes: &[u8])
        ensures
            final(self)@ == old(self)@ + bytes@,
    {
        let mut i: usize = 0;
        while i < bytes.len()
            invariant
                i <= bytes@.len(),
                self@ == old(self)@ + bytes@.subrange(0, i as int),
            decreases bytes@.len() - i,
        {
            self.bytes.push(bytes[i]);
            assert(bytes@.subrange(0, i + 1) =~= bytes@.subrange(0, i as int).push(bytes@[i as int]));
            i = i + 1;
        }
        assert(bytes@.subrange(0, bytes@.len() as int) =~= bytes@);
    }

    /// Appends `value` as a varint: seven bits per byte, least significant
    /// first, the continuation bit on every byte but the last.
    pub fn write_leb128(&mut self, value: u32)
        ensures
            final(self)@ == old(self)@ + leb128_bytes(value as nat),
    {
        let mut rest: u32 = value;
        loop
            invariant_except_break
                self@ + leb128_bytes(rest as nat) == old(self)@ + leb128_bytes(value as nat),
            ensures
                self@ == old(self)@ + leb128_bytes(value as nat),
            decreases rest,
        {
            if rest < 128 {
                self.write_byte(rest as u8);
                assert(self@ =~= old(self)@ + leb128_bytes(value as nat));
                break;
            }
            let group: u8 = (rest % 128 + 128) as u8;
            self.write_byte(group);
            proof {
                assert(leb128_bytes(rest as nat) == seq![group] + leb128_bytes((rest / 128) as nat));
                assert(self@ + leb128_bytes((rest / 128) as nat) =~= old(self)@ + leb128_bytes(
                    value as nat,
                ));
            }
            rest = rest / 128;
        }
    }

    /// Appends the UTF-8 bytes of `string`, with no length before them.
    pub fn write_string(&mut self, string: &str)
        ensures
            final(self)@ == old(self)@ + encode_utf8(string@),
    {
        let bytes: &[u8] = string.as_bytes();
        self.write_bytes(bytes);
    }

    /// Appends `string` with its length before it. In short mode the length is
    /// one byte capped at 255, and the whole string follows even when it is
    /// longer; otherwise the length is a varint of the byte length, which
    /// must fit in 32 bits.
    pub fn write_string_with_length(&mut self, string: &str, short_mode: bool)
        requires
            short_mode || encode_utf8(string@).len() <= u32::MAX,
        ensures
            final(self)@ == old(self)@ + text_with_length(string@, short_mode),
    {
        let bytes: &[u8] = string.as_bytes();
        let len: usize = bytes.len();
        if short_mode {
            let prefix: u8 = if len < 255 {
                len as u8
            } else {
                255
            };
            assert(prefix == short_prefix(encode_utf8(string@).len()));
            self.write_byte(prefix);
        } else {
            self.write_leb128(len as u32);
        }
        self.write_bytes(bytes);
        assert(self@ =~= old(self)@ + text_with_length(string@, short_mode));
    }

    /// The bytes written so far.
    pub fn as_bytes(&self) -> (r: &[u8])
        ensures
            r@ == self@,
    {
        self.bytes.as_slice()
    }
}

} // verus!
