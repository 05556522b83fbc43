//! How the fields of a message are laid out in bytes.
//!
//! Integers wider than a byte are variable-length integers, coordinates are
//! four little-endian bytes, a flag is one byte (0 or 1), a byte string or a
//! text is its length followed by its bytes (UTF-8 for text), an optional
//! value is a flag followed by the value when the flag is 1, and a list is its
//! length followed by its items.
//!
//! Each layout is a spec function from the value to its bytes, together with
//! a spec function that reads the value back from the front of a byte string
//! and says how many bytes it took.

use vstd::prelude::*;
use vstd::slice::{slice_subrange, slice_to_vec};
use vstd::utf8::{
    decode_utf8, encode_utf8, encode_utf8_decode_utf8, encode_utf8_valid_utf8, valid_utf8,
};

use crate::encoding::{
    le_bytes, le_value, lemma_le_bytes_len, lemma_le_value_bound, lemma_le_value_of_bytes,
    lemma_pow256_values, lemma_varint_bytes_len, lemma_varint_roundtrip, pow256, varint_bytes,
    varint_parse, VarintParse, SINGLE_BYTE_MAX, U16_BYTE, U32_BYTE, U64_BYTE,
};

verus! {

/// A 32-bit integer as bytes: a variable-length integer.
pub open spec fn u32_bytes(value: u32) -> Seq<u8> {
    varint_bytes(value as u64)
}

/// A flag as bytes: one byte, 1 for true and 0 for false.
pub open spec fn flag_bytes(flag: bool) -> Seq<u8> {
    seq![if flag { 1u8 } else { 0u8 }]
}

/// The bit pattern of a coordinate as bytes: four, least significant first.
pub open spec fn word_bytes(word: u32) -> Seq<u8> {
    le_bytes(word as nat, 4)
}

/// A byte string as bytes: its length, then the bytes.
pub open spec fn blob_bytes(blob: Seq<u8>) -> Seq<u8> {
    varint_bytes(blob.len() as u64) + blob
}

/// A text as bytes: the length of its UTF-8 encoding, then the encoding.
pub open spec fn text_bytes(text: Seq<char>) -> Seq<u8> {
    blob_bytes(encode_utf8(text))
}

/// A text that may be absent as bytes: a flag, then the text if there is
/// one.
pub open spec fn optional_text_bytes(text: Option<Seq<char>>) -> Seq<u8> {
    match text {
        None => flag_bytes(false),
        Some(t) => flag_bytes(true) + text_bytes(t),
    }
}

/// An integer that may be absent as bytes: a flag, then the integer if
/// there is one.
pub open spec fn optional_u64_bytes(value: Option<u64>) -> Seq<u8> {
    match value {
        None => flag_bytes(false),
        Some(v) => flag_bytes(true) + varint_bytes(v),
    }
}

/// The items of a list one after the other, without the length.
pub open spec fn u64_items_bytes(items: Seq<u64>) -> Seq<u8>
    decreases items.len(),
{
    if items.len() == 0 {
        Seq::empty()
    } else {
        u64_items_bytes(items.drop_last()) + varint_bytes(items.last())
    }
}

/// A list of integers as bytes: its length, then its items.
pub open spec fn u64_list_bytes(items: Seq<u64>) -> Seq<u8> {
    varint_bytes(items.len() as u64) + u64_items_bytes(items)
}

/// Reads an integer from the front of `bytes`; gives it with the number
/// of bytes that it took.
pub open spec fn parse_u64(bytes: Seq<u8>) -> Option<(u64, nat)> {
    match varint_parse(bytes) {
        VarintParse::Value { value, len } => Some((value, len)),
        _ => None,
    }
}

/// Reads an integer that fits in 32 bits.
pub open spec fn parse_u32(bytes: Seq<u8>) -> Option<(u32, nat)> {
    match parse_u64(bytes) {
        Some((value, len)) => if value <= u32::MAX {
            Some((value as u32, len))
        } else {
            None
        },
        None => None,
    }
}

/// Reads a flag: a byte that is 0 or 1.
pub open spec fn parse_flag(bytes: Seq<u8>) -> Option<(bool, nat)> {
    if bytes.len() >= 1 && bytes[0] <= 1 {
        Some((bytes[0] == 1, 1))
    } else {
        None
    }
}

/// Reads the bit pattern of a coordinate: four bytes.
pub open spec fn parse_word(bytes: Seq<u8>) -> Option<(u32, nat)> {
    if bytes.len() >= 4 {
        Some((le_value(bytes.take(4)) as u32, 4))
    } else {
        None
    }
}

/// Reads a byte string: a length, and as many bytes as it says.
pub open spec fn parse_blob(bytes: Seq<u8>) -> Option<(Seq<u8>, nat)> {
    match parse_u64(bytes) {
        Some((count, len)) => if count <= bytes.len() - len {
            Some((bytes.subrange(len as int, len + count), len + count as nat))
        } else {
            None
        },
        None => None,
    }
}

/// Reads a text: a byte string that is valid UTF-8.
pub open spec fn parse_text(bytes: Seq<u8>) -> Option<(Seq<char>, nat)> {
    match parse_blob(bytes) {
        Some((blob, len)) => if valid_utf8(blob) {
            Some((decode_utf8(blob), len))
        } else {
            None
        },
        None => None,
    }
}

/// Reads a text that may be absent.
pub open spec fn parse_optional_text(bytes: Seq<u8>) -> Option<(Option<Seq<char>>, nat)> {
    match parse_flag(bytes) {
        Some((present, len)) => if present {
            match parse_text(bytes.skip(len as int)) {
                Some((text, n)) => Some((Some(text), len + n)),
                None => None,
            }
        } else {
            Some((None, len))
        },
        None => None,
    }
}

/// Reads an integer that may be absent.
pub open spec fn parse_optional_u64(bytes: Seq<u8>) -> Option<(Option<u64>, nat)> {
    match parse_flag(bytes) {
        Some((present, len)) => if present {
            match parse_u64(bytes.skip(len as int)) {
                Some((value, n)) => Some((Some(value), len + n)),
                None => None,
            }
        } else {
            Some((None, len))
        },
        None => None,
    }
}

/// Reads `count` integers from the front of `bytes`.
pub open spec fn parse_u64_items(bytes: Seq<u8>, count: nat) -> Option<(Seq<u64>, nat)>
    decreases count,
{
    if count == 0 {
        Some((Seq::empty(), 0))
    } else {
        match parse_u64_items(bytes, (count - 1) as nat) {
            Some((items, len)) => match parse_u64(bytes.skip(len as int)) {
                Some((value, n)) => Some((items.push(value), len + n)),
                None => None,
            },
            None => None,
        }
    }
}

/// Reads a list of integers: a length, and as many integers as it says.
pub open spec fn parse_u64_list(bytes: Seq<u8>) -> Option<(Seq<u64>, nat)> {
    match parse_u64(bytes) {
        Some((count, len)) => match parse_u64_items(bytes.skip(len as int), count as nat) {
            Some((items, n)) => Some((items, len + n)),
            None => None,
        },
        None => None,
    }
}

/// An integer that was written, whatever follows it, is read back.
pub proof fn lemma_parse_u64(value: u64, rest: Seq<u8>)
    ensures
        parse_u64(varint_bytes(value) + rest) == Some((value, varint_bytes(value).len())),
        1 <= varint_bytes(value).len() <= 9,
{
    lemma_varint_roundtrip(value, rest);
    lemma_varint_bytes_len(value);
}

/// A 32-bit integer that was written, whatever follows it, is read back.
pub proof fn lemma_parse_u32(value: u32, rest: Seq<u8>)
    ensures
        parse_u32(u32_bytes(value) + rest) == Some((value, u32_bytes(value).len())),
{
    lemma_parse_u64(value as u64, rest);
}

/// A flag that was written, whatever follows it, is read back.
pub proof fn lemma_parse_flag(flag: bool, rest: Seq<u8>)
    ensures
        parse_flag(flag_bytes(flag) + rest) == Some((flag, 1nat)),
        flag_bytes(flag).len() == 1,
{
}

/// A coordinate that was written, whatever follows it, is read back.
pub proof fn lemma_parse_word(word: u32, rest: Seq<u8>)
    ensures
        parse_word(word_bytes(word) + rest) == Some((word, 4nat)),
        word_bytes(word).len() == 4,
{
    lemma_le_bytes_len(word as nat, 4);
    lemma_pow256_values();
    lemma_le_value_of_bytes(word as nat, 4);
    assert((word_bytes(word) + rest).take(4) =~= word_bytes(word));
}

/// A byte string that was written, whatever follows it, is read back.
pub proof fn lemma_parse_blob(blob: Seq<u8>, rest: Seq<u8>)
    requires
        blob.len() <= u64::MAX,
    ensures
        parse_blob(blob_bytes(blob) + rest) == Some((blob, blob_bytes(blob).len())),
{
    let count = blob.len() as u64;
    let head = varint_bytes(count);
    lemma_parse_u64(count, blob + rest);
    assert(blob_bytes(blob) + rest =~= head + (blob + rest));
    assert((head + (blob + rest)).subrange(head.len() as int, head.len() + count) =~= blob);
}

/// A text that was written, whatever follows it, is read back.
pub proof fn lemma_parse_text(text: Seq<char>, rest: Seq<u8>)
    requires
        encode_utf8(text).len() <= u64::MAX,
    ensures
        parse_text(text_bytes(text) + rest) == Some((text, text_bytes(text).len())),
{
    lemma_parse_blob(encode_utf8(text), rest);
    encode_utf8_valid_utf8(text);
    encode_utf8_decode_utf8(text);
}

/// Whether the text is short enough for its length to be written.
pub open spec fn text_fits(text: Option<Seq<char>>) -> bool {
    text matches Some(t) ==> encode_utf8(t).len() <= u64::MAX
}

/// A text that may be absent and was written, whatever follows it, is
/// read back.
pub proof fn lemma_parse_optional_text(text: Option<Seq<char>>, rest: Seq<u8>)
    requires
        text_fits(text),
    ensures
        parse_optional_text(optional_text_bytes(text) + rest) == Some(
            (text, optional_text_bytes(text).len()),
        ),
{
    match text {
        None => {},
        Some(t) => {
            let all = optional_text_bytes(text) + rest;
            lemma_parse_text(t, rest);
            assert(all.skip(1) =~= text_bytes(t) + rest);
        },
    }
}

/// An integer that may be absent and was written, whatever follows it, is
/// read back.
pub proof fn lemma_parse_optional_u64(value: Option<u64>, rest: Seq<u8>)
    ensures
        parse_optional_u64(optional_u64_bytes(value) + rest) == Some(
            (value, optional_u64_bytes(value).len()),
        ),
{
    match value {
        None => {},
        Some(v) => {
            let all = optional_u64_bytes(value) + rest;
            lemma_parse_u64(v, rest);
            assert(all.skip(1) =~= varint_bytes(v) + rest);
        },
    }
}

/// The items of a list that were written, whatever follows them, are read
/// back.
pub proof fn lemma_parse_u64_items(items: Seq<u64>, rest: Seq<u8>)
    ensures
        parse_u64_items(u64_items_bytes(items) + rest, items.len()) == Some(
            (items, u64_items_bytes(items).len()),
        ),
    decreases items.len(),
{
    if items.len() > 0 {
        let front = items.drop_last();
        let last = varint_bytes(items.last());
        let all = u64_items_bytes(items) + rest;
        lemma_parse_u64_items(front, last + rest);
        assert(all =~= u64_items_bytes(front) + (last + rest));
        assert(all.skip(u64_items_bytes(front).len() as int) =~= last + rest);
        lemma_parse_u64(items.last(), rest);
        assert(front.push(items.last()) =~= items);
    }
}

/// A list that was written, whatever follows it, is read back.
pub proof fn lemma_parse_u64_list(items: Seq<u64>, rest: Seq<u8>)
    requires
        items.len() <= u64::MAX,
    ensures
        parse_u64_list(u64_list_bytes(items) + rest) == Some((items, u64_list_bytes(items).len())),
{
    let count = items.len() as u64;
    let head = varint_bytes(count);
    let all = u64_list_bytes(items) + rest;
    lemma_parse_u64(count, u64_items_bytes(items) + rest);
    assert(all =~= head + (u64_items_bytes(items) + rest));
    assert(all.skip(head.len() as int) =~= u64_items_bytes(items) + rest);
    lemma_parse_u64_items(items, rest);
}

/// Once the items cannot be read, no longer list of them can.
pub proof fn lemma_parse_u64_items_fails(bytes: Seq<u8>, shorter: nat, count: nat)
    requires
        shorter <= count,
        parse_u64_items(bytes, shorter) is None,
    ensures
        parse_u64_items(bytes, count) is None,
    decreases count,
{
    if shorter < count {
        lemma_parse_u64_items_fails(bytes, shorter, (count - 1) as nat);
    }
}

/// Every item takes at least one byte.
pub proof fn lemma_parse_u64_items_len(bytes: Seq<u8>, count: nat)
    ensures
        parse_u64_items(bytes, count) matches Some((items, len)) ==> {
            &&& items.len() == count
            &&& count <= len <= bytes.len()
        },
    decreases count,
{
    if count > 0 {
        lemma_parse_u64_items_len(bytes, (count - 1) as nat);
    }
}

/// `String::from_utf8`: the text that `bytes` spell in UTF-8. There is one
/// exactly when the bytes are valid UTF-8.
#[verifier::external_body]
pub(crate) fn string_from_utf8(bytes: Vec<u8>) -> (text: Option<String>)
    ensures
        text is Some <==> valid_utf8(bytes@),
        text matches Some(t) ==> t@ == decode_utf8(bytes@),
{
    match String::from_utf8(bytes) {
        Ok(text) => Some(text),
        Err(_) => None,
    }
}

/// Appends the `width` low bytes of `value`, least significant first.
pub(crate) fn write_le(out: &mut Vec<u8>, value: u64, width: usize)
    ensures
        final(out)@ == old(out)@ + le_bytes(value as nat, width as nat),
    decreases width,
{
    if width > 0 {
        out.push((value % 256) as u8);
        write_le(out, value / 256, width - 1);
        assert(out@ =~= old(out)@ + le_bytes(value as nat, width as nat));
    } else {
        assert(out@ =~= old(out)@ + le_bytes(value as nat, width as nat));
    }
}

/// The number that `width` bytes from `start` spell, least significant first.
pub(crate) fn read_le(bytes: &[u8], start: usize, width: usize) -> (value: u64)
    requires
        width <= 8,
        start + width <= bytes@.len(),
    ensures
        value == le_value(bytes@.subrange(start as int, start + width)),
{
    let len: usize = bytes.len();
    let mut value: u64 = 0;
    let mut i: usize = width;
    assert(bytes@.subrange(start + width, start + width) =~= Seq::<u8>::empty());
    while i > 0
        invariant
            i <= width <= 8,
            start + width <= len == bytes@.len(),
            value == le_value(bytes@.subrange(start + i, start + width)),
        decreases i,
    {
        let ghost tail = bytes@.subrange(start + i, start + width);
        i = i - 1;
        let ghost all = bytes@.subrange(start + i, start + width);
        proof {
            assert(all.skip(1) =~= tail);
            lemma_le_value_bound(tail);
            reveal_with_fuel(pow256, 9);
        }
        value = value * 256 + bytes[start + i] as u64;
    }
    value
}

/// Appends an integer.
pub(crate) fn write_u64(out: &mut Vec<u8>, value: u64)
    ensures
        final(out)@ == old(out)@ + varint_bytes(value),
{
    if value <= SINGLE_BYTE_MAX as u64 {
        out.push(value as u8);
    } else if value <= u16::MAX as u64 {
        out.push(U16_BYTE);
        write_le(out, value, 2);
    } else if value <= u32::MAX as u64 {
        out.push(U32_BYTE);
        write_le(out, value, 4);
    } else {
        out.push(U64_BYTE);
        write_le(out, value, 8);
    }
    assert(out@ =~= old(out)@ + varint_bytes(value));
}

/// Appends a 32-bit integer.
pub(crate) fn write_u32(out: &mut Vec<u8>, value: u32)
    ensures
        final(out)@ == old(out)@ + u32_bytes(value),
{
    write_u64(out, value as u64);
}

/// Appends a flag.
pub(crate) fn write_flag(out: &mut Vec<u8>, flag: bool)
    ensures
        final(out)@ == old(out)@ + flag_bytes(flag),
{
    out.push(if flag { 1 } else { 0 });
    assert(out@ =~= old(out)@ + flag_bytes(flag));
}

/// Appends the bit pattern of a coordinate.
pub(crate) fn write_word(out: &mut Vec<u8>, word: u32)
    ensures
        final(out)@ == old(out)@ + word_bytes(word),
{
    write_le(out, word as u64, 4);
}

/// Appends a byte string.
pub(crate) fn write_blob(out: &mut Vec<u8>, blob: &[u8])
    ensures
        final(out)@ == old(out)@ + blob_bytes(blob@),
        blob@.len() <= u64::MAX,
{
    write_u64(out, blob.len() as u64);
    out.extend_from_slice(blob);
    assert(out@ =~= old(out)@ + blob_bytes(blob@));
}

/// Appends a text.
pub(crate) fn write_text(out: &mut Vec<u8>, text: &str)
    ensures
        final(out)@ == old(out)@ + text_bytes(text@),
        text_fits(Some(text@)),
{
    write_blob(out, text.as_bytes());
}

/// Appends a text that may be absent.
pub(crate) fn write_optional_text(out: &mut Vec<u8>, text: &Option<String>)
    ensures
        final(out)@ == old(out)@ + optional_text_bytes(text.deep_view()),
        text_fits(text.deep_view()),
{
    match text {
        None => {
            write_flag(out, false);
        },
        Some(t) => {
            write_flag(out, true);
            write_text(out, t.as_str());
            assert(out@ =~= old(out)@ + optional_text_bytes(text.deep_view()));
        },
    }
}

/// Appends an integer that may be absent.
pub(crate) fn write_optional_u64(out: &mut Vec<u8>, value: Option<u64>)
    ensures
        final(out)@ == old(out)@ + optional_u64_bytes(value),
{
    match value {
        None => {
            write_flag(out, false);
        },
        Some(v) => {
            write_flag(out, true);
            write_u64(out, v);
            assert(out@ =~= old(out)@ + optional_u64_bytes(value));
        },
    }
}

/// Appends a list of integers.
pub(crate) fn write_u64_list(out: &mut Vec<u8>, items: &Vec<u64>)
    ensures
        final(out)@ == old(out)@ + u64_list_bytes(items@),
        items@.len() <= u64::MAX,
{
    write_u64(out, items.len() as u64);
    let ghost start = out@;
    let mut i: usize = 0;
    assert(out@ =~= start + u64_items_bytes(items@.take(0)));
    while i < items.len()
        invariant
            i <= items.len(),
            out@ == start + u64_items_bytes(items@.take(i as int)),
        decreases items.len() - i,
    {
        write_u64(out, items[i]);
        proof {
            let next = items@.take(i + 1);
            assert(next.drop_last() =~= items@.take(i as int));
            assert(next.last() == items@[i as int]);
            assert(out@ =~= start + u64_items_bytes(next));
        }
        i = i + 1;
    }
    assert(items@.take(i as int) =~= items@);
    assert(out@ =~= old(out)@ + u64_list_bytes(items@));
}

/// A byte string that is read from its front.
pub(crate) struct Reader<'a> {
    pub(crate) rest: &'a [u8],
}

impl<'a> Reader<'a> {
    /// Drops the first `count` bytes.
    fn skip(&mut self, count: usize)
        requires
            count <= old(self).rest@.len(),
        ensures
            final(self).rest@ == old(self).rest@.skip(count as int),
    {
        let bytes = self.rest;
        self.rest = slice_subrange(bytes, count, bytes.len());
    }

    /// Reads an integer, and moves past it.
    pub(crate) fn read_u64(&mut self) -> (result: Option<u64>)
        ensures
            match parse_u64(old(self).rest@) {
                Some((value, len)) => {
                    &&& result == Some(value)
                    &&& final(self).rest@ == old(self).rest@.skip(len as int)
                },
                None => result is None,
            },
    {
        let bytes = self.rest;
        if bytes.len() == 0 {
            return None;
        }
        let first: u8 = bytes[0];
        if first <= SINGLE_BYTE_MAX {
            self.skip(1);
            return Some(first as u64);
        }
        if first > U64_BYTE {
            return None;
        }
        let tail: usize = if first == U16_BYTE {
            2
        } else if first == U32_BYTE {
            4
        } else {
            8
        };
        if bytes.len() - 1 < tail {
            return None;
        }
        let value: u64 = read_le(bytes, 1, tail);
        self.skip(1 + tail);
        Some(value)
    }

    /// Reads an integer that fits in 32 bits, and moves past it.
    pub(crate) fn read_u32(&mut self) -> (result: Option<u32>)
        ensures
            match parse_u32(old(self).rest@) {
                Some((value, len)) => {
                    &&& result == Some(value)
                    &&& final(self).rest@ == old(self).rest@.skip(len as int)
                },
                None => result is None,
            },
    {
        match self.read_u64() {
            Some(value) => if value <= u32::MAX as u64 {
                Some(value as u32)
            } else {
                None
            },
            None => None,
        }
    }

    /// Reads a flag, and moves past it.
    pub(crate) fn read_flag(&mut self) -> (result: Option<bool>)
        ensures
            match parse_flag(old(self).rest@) {
                Some((value, len)) => {
                    &&& result == Some(value)
                    &&& final(self).rest@ == old(self).rest@.skip(len as int)
                },
                None => result is None,
            },
    {
        let bytes = self.rest;
        if bytes.len() == 0 {
            return None;
        }
        let first: u8 = bytes[0];
        if first > 1 {
            return None;
        }
        self.skip(1);
        Some(first == 1)
    }

    /// Reads the bit pattern of a coordinate, and moves past it.
    pub(crate) fn read_word(&mut self) -> (result: Option<u32>)
        ensures
            match parse_word(old(self).rest@) {
                Some((value, len)) => {
                    &&& result == Some(value)
                    &&& final(self).rest@ == old(self).rest@.skip(len as int)
                },
                None => result is None,
            },
    {
        let bytes = self.rest;
        if bytes.len() < 4 {
            return None;
        }
        let value: u64 = read_le(bytes, 0, 4);
        proof {
            assert(bytes@.subrange(0, 4) =~= bytes@.take(4));
            lemma_le_value_bound(bytes@.take(4));
            lemma_pow256_values();
        }
        self.skip(4);
        Some(value as u32)
    }

    /// Reads a byte string, and moves past it.
    pub(crate) fn read_blob(&mut self) -> (result: Option<Vec<u8>>)
        ensures
            match parse_blob(old(self).rest@) {
                Some((value, len)) => {
                    &&& result matches Some(blob)
                    &&& blob@ == value
                    &&& final(self).rest@ == old(self).rest@.skip(len as int)
                },
                None => result is None,
            },
    {
        let ghost all = self.rest@;
        let count: u64 = match self.read_u64() {
            Some(count) => count,
            None => {
                return None;
            },
        };
        let bytes = self.rest;
        if count > bytes.len() as u64 {
            return None;
        }
        let blob: Vec<u8> = slice_to_vec(slice_subrange(bytes, 0, count as usize));
        self.skip(count as usize);
        proof {
            let len = parse_u64(all).unwrap().1;
            assert(blob@ =~= all.subrange(len as int, len + count));
            assert(self.rest@ =~= all.skip(len + count));
        }
        Some(blob)
    }

    /// Reads a text, and moves past it.
    pub(crate) fn read_text(&mut self) -> (result: Option<String>)
        ensures
            match parse_text(old(self).rest@) {
                Some((value, len)) => {
                    &&& result matches Some(text)
                    &&& text@ == value
                    &&& final(self).rest@ == old(self).rest@.skip(len as int)
                },
                None => result is None,
            },
    {
        match self.read_blob() {
            Some(blob) => string_from_utf8(blob),
            None => None,
        }
    }

    /// Reads a text that may be absent, and moves past it.
    pub(crate) fn read_optional_text(&mut self) -> (result: Option<Option<String>>)
        ensures
            match parse_optional_text(old(self).rest@) {
                Some((value, len)) => {
                    &&& result matches Some(text)
                    &&& text.deep_view() == value
                    &&& final(self).rest@ == old(self).rest@.skip(len as int)
                },
                None => result is None,
            },
    {
        let ghost all = self.rest@;
        match self.read_flag() {
            Some(true) => match self.read_text() {
                Some(text) => {
                    proof {
                        let n = parse_text(all.skip(1)).unwrap().1;
                        assert(all.skip(1).skip(n as int) =~= all.skip(1 + n as int));
                    }
                    Some(Some(text))
                },
                None => None,
            },
            Some(false) => Some(None),
            None => None,
        }
    }

    /// Reads an integer that may be absent, and moves past it.
    pub(crate) fn read_optional_u64(&mut self) -> (result: Option<Option<u64>>)
        ensures
            match parse_optional_u64(old(self).rest@) {
                Some((value, len)) => {
                    &&& result == Some(value)
                    &&& final(self).rest@ == old(self).rest@.skip(len as int)
                },
                None => result is None,
            },
    {
        let ghost all = self.rest@;
        match self.read_flag() {
            Some(true) => match self.read_u64() {
                Some(value) => {
                    proof {
                        let n = parse_u64(all.skip(1)).unwrap().1;
                        assert(all.skip(1).skip(n as int) =~= all.skip(1 + n as int));
                    }
                    Some(Some(value))
                },
                None => None,
            },
            Some(false) => Some(None),
            None => None,
        }
    }

    /// Reads a list of integers, and moves past it.
    pub(crate) fn read_u64_list(&mut self) -> (result: Option<Vec<u64>>)
        ensures
            match parse_u64_list(old(self).rest@) {
                Some((value, len)) => {
                    &&& result matches Some(items)
                    &&& items@ == value
                    &&& final(self).rest@ == old(self).rest@.skip(len as int)
                },
                None => result is None,
            },
    {
        let ghost all = self.rest@;
        let count: u64 = match self.read_u64() {
            Some(count) => count,
            None => {
                return None;
            },
        };
        let ghost head = parse_u64(all).unwrap().1;
        let ghost body = self.rest@;
        if count > self.rest.len() as u64 {
            proof {
                lemma_parse_u64_items_len(body, count as nat);
            }
            return None;
        }
        let mut items: Vec<u64> = Vec::new();
        let mut i: u64 = 0;
        let ghost mut taken: nat = 0;
        assert(body.skip(0) =~= body);
        while i < count
            invariant
                i <= count,
                all == old(self).rest@,
                parse_u64(all) == Some((count, head)),
                body == all.skip(head as int),
                parse_u64_items(body, i as nat) == Some((items@, taken)),
                self.rest@ == body.skip(taken as int),
                taken <= body.len(),
            decreases count - i,
        {
            let ghost before = self.rest@;
            match self.read_u64() {
                Some(value) => {
                    proof {
                        let n = parse_u64(before).unwrap().1;
                        assert(body.skip(taken as int).skip(n as int) =~= body.skip((taken + n) as int));
                        taken = taken + n;
                        lemma_varint_parse_len(before);
                    }
                    items.push(value);
                },
                None => {
                    proof {
                        lemma_parse_u64_items_fails(body, (i + 1) as nat, count as nat);
                    }
                    return None;
                },
            }
            i = i + 1;
        }
        proof {
            assert(all.skip(head as int).skip(taken as int) =~= all.skip((head + taken) as int));
        }
        Some(items)
    }
}

/// An integer that was read took no more bytes than there were.
pub proof fn lemma_varint_parse_len(bytes: Seq<u8>)
    ensures
        parse_u64(bytes) matches Some((value, len)) ==> 1 <= len <= bytes.len() && len <= 9,
{
}

} // verus!
