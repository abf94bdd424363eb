//! What values look like as bytes.
//!
//! [`Wire`] states the format of a type, and that reading undoes writing.
//! [`KeteWrite`] and [`KeteRead`] carry it out.
use crate::errors::{Error, IoFault, KeteResult};
use crate::float::{F32, F64};
use crate::io::bytes;
use crate::io::reader;
use crate::io::reader::Reader;
use vstd::prelude::*;

verus! {

/// The format of a type.
pub trait Wire {
    /// What is kept of a value in the file.
    type V;

    /// What is kept of this value.
    spec fn wire(&self) -> Self::V;

    /// The bytes that stand for `v`.
    spec fn enc(v: Self::V) -> Seq<u8>;

    /// Every length in `v` can be told by the bytes which the format has for it, and
    /// `v` passes the checks made on reading.
    spec fn fits(v: Self::V) -> bool;

    /// What the bytes `b` start with, and the bytes after it.
    spec fn dec(b: Seq<u8>) -> KeteResult<(Self::V, Seq<u8>)>;

    /// Reading gives back what was written and stops right behind it.
    proof fn lemma_round_trip(v: Self::V, rest: Seq<u8>)
        requires
            Self::fits(v),
        ensures
            Self::dec(Self::enc(v) + rest) == Ok::<(Self::V, Seq<u8>), Error>((v, rest)),
    ;
}

/// Serialize a value into bytes.
pub trait KeteWrite: Wire {
    /// Append the bytes of `self`.
    fn write_to(&self, w: &mut Vec<u8>) -> (res: KeteResult<()>)
        ensures
            res is Ok,
            final(w)@ == old(w)@ + Self::enc(self.wire()),
    ;
}

/// Deserialize a value from bytes.
pub trait KeteRead: Wire + Sized {
    /// Read a value and move behind it.
    fn read_from(r: &mut Reader<'_>) -> (res: KeteResult<Self>)
        ensures
            match Self::dec(old(r)@) {
                Ok((v, rest)) => res is Ok && res->Ok_0.wire() == v && final(r)@ == rest,
                Err(e) => res == Err::<Self, Error>(e),
            },
    ;
}

/// The number in the first `n` bytes, and the bytes after it.
pub open spec fn dec_number(b: Seq<u8>, n: nat) -> KeteResult<(nat, Seq<u8>)> {
    match reader::take_bytes(b, n) {
        Ok((bytes, rest)) => Ok((bytes::le_value(bytes), rest)),
        Err(e) => Err(e),
    }
}

/// A number which fits its bytes is read as it was written.
pub proof fn lemma_number_round_trip(x: nat, n: nat, rest: Seq<u8>)
    requires
        x < bytes::pow256(n),
    ensures
        dec_number(bytes::le_bytes(x, n) + rest, n) == Ok::<(nat, Seq<u8>), Error>((x, rest)),
{
    let b = bytes::le_bytes(x, n);
    bytes::lemma_le_bytes_len(x, n);
    bytes::lemma_le_round_trip(x, n);
    assert((b + rest).take(n as int) =~= b);
    assert((b + rest).skip(n as int) =~= rest);
}

/// Read a number of `n` bytes.
fn read_number(r: &mut Reader<'_>, n: usize) -> (res: KeteResult<u64>)
    requires
        n <= 8,
    ensures
        match dec_number(old(r)@, n as nat) {
            Ok((x, rest)) => {
                &&& res is Ok && res->Ok_0 == x
                &&& x < bytes::pow256(n as nat)
                &&& final(r)@ == rest
            },
            Err(e) => res == Err::<u64, Error>(e),
        },
{
    match r.take(n) {
        Ok(b) => {
            proof {
                bytes::lemma_le_value_bound(b@);
            }
            Ok(bytes::read_le(b))
        },
        Err(e) => Err(e),
    }
}

/// A length in `width` bytes, and the bytes it counts.
pub open spec fn enc_block(block: Seq<u8>, width: nat) -> Seq<u8> {
    bytes::le_bytes(block.len(), width) + block
}

/// The bytes counted by the length in the first `width` bytes, and the bytes after
/// them.
pub open spec fn dec_block(b: Seq<u8>, width: nat) -> KeteResult<(Seq<u8>, Seq<u8>)> {
    match dec_number(b, width) {
        Ok((len, rest)) => reader::take_bytes(rest, len),
        Err(e) => Err(e),
    }
}

/// A block whose length fits is read as it was written.
pub proof fn lemma_block_round_trip(block: Seq<u8>, width: nat, rest: Seq<u8>)
    requires
        block.len() < bytes::pow256(width),
    ensures
        dec_block(enc_block(block, width) + rest, width) == Ok::<(Seq<u8>, Seq<u8>), Error>(
            (block, rest),
        ),
{
    let head = bytes::le_bytes(block.len(), width);
    lemma_number_round_trip(block.len(), width, block + rest);
    assert(head + block + rest =~= head + (block + rest));
    assert((block + rest).take(block.len() as int) =~= block);
    assert((block + rest).skip(block.len() as int) =~= rest);
}

/// Append a block behind the `width` least significant bytes of its length.
pub fn write_block(block: &[u8], width: usize, w: &mut Vec<u8>)
    ensures
        final(w)@ == old(w)@ + enc_block(block@, width as nat),
{
    let ghost start = w@;
    bytes::write_le(w, block.len() as u64, width);
    let ghost middle = w@;
    w.extend_from_slice(block);
    assert(w@ =~= middle + block@);
    assert(w@ =~= start + enc_block(block@, width as nat));
}

/// Read the block counted by a length of `width` bytes.
pub fn read_block<'a>(r: &mut Reader<'a>, width: usize) -> (res: KeteResult<&'a [u8]>)
    requires
        width <= 4,
    ensures
        match dec_block(old(r)@, width as nat) {
            Ok((block, rest)) => res is Ok && res->Ok_0@ == block && final(r)@ == rest,
            Err(e) => res == Err::<&'a [u8], Error>(e),
        },
{
    proof {
        bytes::lemma_pow256();
        bytes::lemma_pow256_monotone(width as nat, 4);
    }
    match read_number(r, width) {
        Ok(len) => r.take(len as usize),
        Err(e) => Err(e),
    }
}

// ---------------------------------------------------------------------------
// Numbers
// ---------------------------------------------------------------------------

impl Wire for u8 {
    type V = u8;

    open spec fn wire(&self) -> u8 {
        *self
    }

    open spec fn enc(v: u8) -> Seq<u8> {
        bytes::le_bytes(v as nat, 1)
    }

    open spec fn fits(v: u8) -> bool {
        true
    }

    open spec fn dec(b: Seq<u8>) -> KeteResult<(u8, Seq<u8>)> {
        match dec_number(b, 1) {
            Ok((x, rest)) => Ok((x as u8, rest)),
            Err(e) => Err(e),
        }
    }

    proof fn lemma_round_trip(v: u8, rest: Seq<u8>) {
        bytes::lemma_pow256();
        lemma_number_round_trip(v as nat, 1, rest);
    }
}

impl KeteWrite for u8 {
    fn write_to(&self, w: &mut Vec<u8>) -> KeteResult<()> {
        bytes::write_le(w, *self as u64, 1);
        Ok(())
    }
}

impl KeteRead for u8 {
    fn read_from(r: &mut Reader<'_>) -> KeteResult<Self> {
        proof {
            bytes::lemma_pow256();
        }
        match read_number(r, 1) {
            Ok(x) => Ok(x as u8),
            Err(e) => Err(e),
        }
    }
}

impl Wire for u16 {
    type V = u16;

    open spec fn wire(&self) -> u16 {
        *self
    }

    open spec fn enc(v: u16) -> Seq<u8> {
        bytes::le_bytes(v as nat, 2)
    }

    open spec fn fits(v: u16) -> bool {
        true
    }

    open spec fn dec(b: Seq<u8>) -> KeteResult<(u16, Seq<u8>)> {
        match dec_number(b, 2) {
            Ok((x, rest)) => Ok((x as u16, rest)),
            Err(e) => Err(e),
        }
    }

    proof fn lemma_round_trip(v: u16, rest: Seq<u8>) {
        bytes::lemma_pow256();
        lemma_number_round_trip(v as nat, 2, rest);
    }
}

impl KeteWrite for u16 {
    fn write_to(&self, w: &mut Vec<u8>) -> KeteResult<()> {
        bytes::write_le(w, *self as u64, 2);
        Ok(())
    }
}

impl KeteRead for u16 {
    fn read_from(r: &mut Reader<'_>) -> KeteResult<Self> {
        proof {
            bytes::lemma_pow256();
        }
        match read_number(r, 2) {
            Ok(x) => Ok(x as u16),
            Err(e) => Err(e),
        }
    }
}

impl Wire for u32 {
    type V = u32;

    open spec fn wire(&self) -> u32 {
        *self
    }

    open spec fn enc(v: u32) -> Seq<u8> {
        bytes::le_bytes(v as nat, 4)
    }

    open spec fn fits(v: u32) -> bool {
        true
    }

    open spec fn dec(b: Seq<u8>) -> KeteResult<(u32, Seq<u8>)> {
        match dec_number(b, 4) {
            Ok((x, rest)) => Ok((x as u32, rest)),
            Err(e) => Err(e),
        }
    }

    proof fn lemma_round_trip(v: u32, rest: Seq<u8>) {
        bytes::lemma_pow256();
        lemma_number_round_trip(v as nat, 4, rest);
    }
}

impl KeteWrite for u32 {
    fn write_to(&self, w: &mut Vec<u8>) -> KeteResult<()> {
        bytes::write_le(w, *self as u64, 4);
        Ok(())
    }
}

impl KeteRead for u32 {
    fn read_from(r: &mut Reader<'_>) -> KeteResult<Self> {
        proof {
            bytes::lemma_pow256();
        }
        match read_number(r, 4) {
            Ok(x) => Ok(x as u32),
            Err(e) => Err(e),
        }
    }
}

impl Wire for u64 {
    type V = u64;

    open spec fn wire(&self) -> u64 {
        *self
    }

    open spec fn enc(v: u64) -> Seq<u8> {
        bytes::le_bytes(v as nat, 8)
    }

    open spec fn fits(v: u64) -> bool {
        true
    }

    open spec fn dec(b: Seq<u8>) -> KeteResult<(u64, Seq<u8>)> {
        match dec_number(b, 8) {
            Ok((x, rest)) => Ok((x as u64, rest)),
            Err(e) => Err(e),
        }
    }

    proof fn lemma_round_trip(v: u64, rest: Seq<u8>) {
        bytes::lemma_pow256();
        lemma_number_round_trip(v as nat, 8, rest);
    }
}

impl KeteWrite for u64 {
    fn write_to(&self, w: &mut Vec<u8>) -> KeteResult<()> {
        bytes::write_le(w, *self as u64, 8);
        Ok(())
    }
}

impl KeteRead for u64 {
    fn read_from(r: &mut Reader<'_>) -> KeteResult<Self> {
        proof {
            bytes::lemma_pow256();
        }
        match read_number(r, 8) {
            Ok(x) => Ok(x as u64),
            Err(e) => Err(e),
        }
    }
}

/// The number whose bytes stand for `v` in two's complement.
pub open spec fn i32_bits(v: i32) -> nat {
    if v < 0 {
        (v + 0x1_0000_0000) as nat
    } else {
        v as nat
    }
}

/// The number with this two's complement.
pub open spec fn i32_value(x: nat) -> i32 {
    if x >= 0x8000_0000 {
        (x - 0x1_0000_0000) as i32
    } else {
        x as i32
    }
}

impl Wire for i32 {
    type V = i32;

    open spec fn wire(&self) -> i32 {
        *self
    }

    open spec fn enc(v: i32) -> Seq<u8> {
        bytes::le_bytes(i32_bits(v), 4)
    }

    open spec fn fits(v: i32) -> bool {
        true
    }

    open spec fn dec(b: Seq<u8>) -> KeteResult<(i32, Seq<u8>)> {
        match dec_number(b, 4) {
            Ok((x, rest)) => Ok((i32_value(x), rest)),
            Err(e) => Err(e),
        }
    }

    proof fn lemma_round_trip(v: i32, rest: Seq<u8>) {
        bytes::lemma_pow256();
        lemma_number_round_trip(i32_bits(v), 4, rest);
    }
}

impl KeteWrite for i32 {
    fn write_to(&self, w: &mut Vec<u8>) -> KeteResult<()> {
        bytes::write_le(w, if *self < 0 { (*self as i64 + 0x1_0000_0000) as u64 } else { *self as u64 }, 4);
        Ok(())
    }
}

impl KeteRead for i32 {
    fn read_from(r: &mut Reader<'_>) -> KeteResult<Self> {
        proof {
            bytes::lemma_pow256();
        }
        match read_number(r, 4) {
            Ok(x) => Ok(if x >= 0x8000_0000 { (x as i64 - 0x1_0000_0000) as i32 } else { x as i32 }),
            Err(e) => Err(e),
        }
    }
}

impl Wire for F32 {
    type V = F32;

    open spec fn wire(&self) -> F32 {
        *self
    }

    open spec fn enc(v: F32) -> Seq<u8> {
        bytes::le_bytes(v.bits as nat, 4)
    }

    open spec fn fits(v: F32) -> bool {
        true
    }

    open spec fn dec(b: Seq<u8>) -> KeteResult<(F32, Seq<u8>)> {
        match dec_number(b, 4) {
            Ok((x, rest)) => Ok((F32 { bits: x as u32 }, rest)),
            Err(e) => Err(e),
        }
    }

    proof fn lemma_round_trip(v: F32, rest: Seq<u8>) {
        bytes::lemma_pow256();
        lemma_number_round_trip(v.bits as nat, 4, rest);
    }
}

impl KeteWrite for F32 {
    fn write_to(&self, w: &mut Vec<u8>) -> KeteResult<()> {
        bytes::write_le(w, self.bits as u64, 4);
        Ok(())
    }
}

impl KeteRead for F32 {
    fn read_from(r: &mut Reader<'_>) -> KeteResult<Self> {
        proof {
            bytes::lemma_pow256();
        }
        match read_number(r, 4) {
            Ok(x) => Ok(F32 { bits: x as u32 }),
            Err(e) => Err(e),
        }
    }
}

impl Wire for F64 {
    type V = F64;

    open spec fn wire(&self) -> F64 {
        *self
    }

    open spec fn enc(v: F64) -> Seq<u8> {
        bytes::le_bytes(v.bits as nat, 8)
    }

    open spec fn fits(v: F64) -> bool {
        true
    }

    open spec fn dec(b: Seq<u8>) -> KeteResult<(F64, Seq<u8>)> {
        match dec_number(b, 8) {
            Ok((x, rest)) => Ok((F64 { bits: x as u64 }, rest)),
            Err(e) => Err(e),
        }
    }

    proof fn lemma_round_trip(v: F64, rest: Seq<u8>) {
        bytes::lemma_pow256();
        lemma_number_round_trip(v.bits as nat, 8, rest);
    }
}

impl KeteWrite for F64 {
    fn write_to(&self, w: &mut Vec<u8>) -> KeteResult<()> {
        bytes::write_le(w, self.bits, 8);
        Ok(())
    }
}

impl KeteRead for F64 {
    fn read_from(r: &mut Reader<'_>) -> KeteResult<Self> {
        proof {
            bytes::lemma_pow256();
        }
        match read_number(r, 8) {
            Ok(x) => Ok(F64 { bits: x }),
            Err(e) => Err(e),
        }
    }
}

// ---------------------------------------------------------------------------
// Characters, truth values, optional values
// ---------------------------------------------------------------------------

/// `char::from_u32`: the character with this number, which exists for every number
/// up to 0x10ffff that is not a surrogate, and for no other.
#[verifier::external_body]
fn char_from_u32(x: u32) -> (c: Option<char>)
    ensures
        c is Some <==> vstd::utf8::is_scalar(x),
        c matches Some(c) ==> c as u32 == x,
{
    char::from_u32(x)
}

impl Wire for char {
    type V = char;

    open spec fn wire(&self) -> char {
        *self
    }

    open spec fn enc(v: char) -> Seq<u8> {
        u32::enc(v as u32)
    }

    open spec fn fits(v: char) -> bool {
        true
    }

    open spec fn dec(b: Seq<u8>) -> KeteResult<(char, Seq<u8>)> {
        match u32::dec(b) {
            Ok((x, rest)) => if vstd::utf8::is_scalar(x) {
                Ok((x as char, rest))
            } else {
                Err(Error::IOError(IoFault::InvalidChar(x)))
            },
            Err(e) => Err(e),
        }
    }

    proof fn lemma_round_trip(v: char, rest: Seq<u8>) {
        u32::lemma_round_trip(v as u32, rest);
        vstd::utf8::char_is_scalar(v);
        vstd::utf8::char_u32_cast(v, v as u32);
    }
}

impl KeteWrite for char {
    fn write_to(&self, w: &mut Vec<u8>) -> KeteResult<()> {
        (*self as u32).write_to(w)
    }
}

impl KeteRead for char {
    fn read_from(r: &mut Reader<'_>) -> KeteResult<Self> {
        match u32::read_from(r) {
            Ok(x) => match char_from_u32(x) {
                Some(c) => {
                    proof {
                        vstd::utf8::char_u32_cast(c, x);
                    }
                    Ok(c)
                },
                None => Err(Error::IOError(IoFault::InvalidChar(x))),
            },
            Err(e) => Err(e),
        }
    }
}

impl Wire for bool {
    type V = bool;

    open spec fn wire(&self) -> bool {
        *self
    }

    open spec fn enc(v: bool) -> Seq<u8> {
        if v {
            u8::enc(1)
        } else {
            u8::enc(0)
        }
    }

    open spec fn fits(v: bool) -> bool {
        true
    }

    open spec fn dec(b: Seq<u8>) -> KeteResult<(bool, Seq<u8>)> {
        match u8::dec(b) {
            Ok((x, rest)) => if x == 0 {
                Ok((false, rest))
            } else if x == 1 {
                Ok((true, rest))
            } else {
                Err(Error::IOError(IoFault::InvalidBool(x)))
            },
            Err(e) => Err(e),
        }
    }

    proof fn lemma_round_trip(v: bool, rest: Seq<u8>) {
        u8::lemma_round_trip(0, rest);
        u8::lemma_round_trip(1, rest);
    }
}

impl KeteWrite for bool {
    fn write_to(&self, w: &mut Vec<u8>) -> KeteResult<()> {
        if *self {
            1u8.write_to(w)
        } else {
            0u8.write_to(w)
        }
    }
}

impl KeteRead for bool {
    fn read_from(r: &mut Reader<'_>) -> KeteResult<Self> {
        match u8::read_from(r) {
            Ok(x) => match x {
                0 => Ok(false),
                1 => Ok(true),
                t => Err(Error::IOError(IoFault::InvalidBool(t))),
            },
            Err(e) => Err(e),
        }
    }
}

impl<T: Wire> Wire for Option<T> {
    type V = Option<T::V>;

    open spec fn wire(&self) -> Option<T::V> {
        match self {
            Some(x) => Some(x.wire()),
            None => None,
        }
    }

    open spec fn enc(v: Option<T::V>) -> Seq<u8> {
        match v {
            Some(x) => u8::enc(1) + T::enc(x),
            None => u8::enc(0),
        }
    }

    open spec fn fits(v: Option<T::V>) -> bool {
        match v {
            Some(x) => T::fits(x),
            None => true,
        }
    }

    open spec fn dec(b: Seq<u8>) -> KeteResult<(Option<T::V>, Seq<u8>)> {
        match u8::dec(b) {
            Ok((tag, rest)) => if tag == 0 {
                Ok((None, rest))
            } else if tag == 1 {
                match T::dec(rest) {
                    Ok((x, rest)) => Ok((Some(x), rest)),
                    Err(e) => Err(e),
                }
            } else {
                Err(Error::IOError(IoFault::InvalidOptionTag(tag)))
            },
            Err(e) => Err(e),
        }
    }

    proof fn lemma_round_trip(v: Option<T::V>, rest: Seq<u8>) {
        match v {
            Some(x) => {
                u8::lemma_round_trip(1, T::enc(x) + rest);
                assert(u8::enc(1) + T::enc(x) + rest =~= u8::enc(1) + (T::enc(x) + rest));
                T::lemma_round_trip(x, rest);
            },
            None => {
                u8::lemma_round_trip(0, rest);
            },
        }
    }
}

impl<T: KeteWrite> KeteWrite for Option<T> {
    fn write_to(&self, w: &mut Vec<u8>) -> KeteResult<()> {
        match self {
            Some(x) => {
                let ghost start = w@;
                let _ = 1u8.write_to(w);
                let res = x.write_to(w);
                assert(w@ =~= start + (u8::enc(1) + T::enc(x.wire())));
                res
            },
            None => 0u8.write_to(w),
        }
    }
}

impl<T: KeteRead> KeteRead for Option<T> {
    fn read_from(r: &mut Reader<'_>) -> KeteResult<Self> {
        match u8::read_from(r) {
            Ok(tag) => match tag {
                0 => Ok(None),
                1 => match T::read_from(r) {
                    Ok(x) => Ok(Some(x)),
                    Err(e) => Err(e),
                },
                t => Err(Error::IOError(IoFault::InvalidOptionTag(t))),
            },
            Err(e) => Err(e),
        }
    }
}

// ---------------------------------------------------------------------------
// Texts
// ---------------------------------------------------------------------------

/// `String::from_utf8`: the text whose UTF-8 encoding these bytes are, which exists
/// exactly if they are valid UTF-8.
#[verifier::external_body]
fn string_from_utf8(bytes: Vec<u8>) -> (s: Option<String>)
    ensures
        s is Some <==> vstd::utf8::valid_utf8(bytes@),
        s matches Some(s) ==> s@ == vstd::utf8::decode_utf8(bytes@),
{
    String::from_utf8(bytes).ok()
}

/// `String::into_boxed_str`: the same text in a box.
#[verifier::external_body]
fn into_boxed_str(s: String) -> (b: Box<str>)
    ensures
        (*b)@ == s@,
{
    s.into_boxed_str()
}

/// The bytes of a text: its length in UTF-8, in two bytes, and its UTF-8 encoding.
pub open spec fn enc_text(v: Seq<char>) -> Seq<u8> {
    enc_block(vstd::utf8::encode_utf8(v), 2)
}

/// Can two bytes tell the length of the text in UTF-8.
pub open spec fn text_fits(v: Seq<char>) -> bool {
    vstd::utf8::encode_utf8(v).len() < 0x1_0000
}

/// The text which the bytes `b` start with, and the bytes after it.
pub open spec fn dec_text(b: Seq<u8>) -> KeteResult<(Seq<char>, Seq<u8>)> {
    match dec_block(b, 2) {
        Ok((block, rest)) => if vstd::utf8::valid_utf8(block) {
            Ok((vstd::utf8::decode_utf8(block), rest))
        } else {
            Err(Error::IOError(IoFault::InvalidUtf8))
        },
        Err(e) => Err(e),
    }
}

/// A text whose length fits is read as it was written.
pub proof fn lemma_text_round_trip(v: Seq<char>, rest: Seq<u8>)
    requires
        text_fits(v),
    ensures
        dec_text(enc_text(v) + rest) == Ok::<(Seq<char>, Seq<u8>), Error>((v, rest)),
{
    bytes::lemma_pow256();
    lemma_block_round_trip(vstd::utf8::encode_utf8(v), 2, rest);
    vstd::utf8::encode_utf8_valid_utf8(v);
    vstd::utf8::encode_utf8_decode_utf8(v);
}

impl Wire for str {
    type V = Seq<char>;

    open spec fn wire(&self) -> Seq<char> {
        self@
    }

    open spec fn enc(v: Seq<char>) -> Seq<u8> {
        enc_text(v)
    }

    open spec fn fits(v: Seq<char>) -> bool {
        text_fits(v)
    }

    open spec fn dec(b: Seq<u8>) -> KeteResult<(Seq<char>, Seq<u8>)> {
        dec_text(b)
    }

    proof fn lemma_round_trip(v: Seq<char>, rest: Seq<u8>) {
        lemma_text_round_trip(v, rest);
    }
}

impl KeteWrite for str {
    fn write_to(&self, w: &mut Vec<u8>) -> KeteResult<()> {
        write_block(self.as_bytes(), 2, w);
        Ok(())
    }
}

impl Wire for String {
    type V = Seq<char>;

    open spec fn wire(&self) -> Seq<char> {
        self@
    }

    open spec fn enc(v: Seq<char>) -> Seq<u8> {
        enc_text(v)
    }

    open spec fn fits(v: Seq<char>) -> bool {
        text_fits(v)
    }

    open spec fn dec(b: Seq<u8>) -> KeteResult<(Seq<char>, Seq<u8>)> {
        dec_text(b)
    }

    proof fn lemma_round_trip(v: Seq<char>, rest: Seq<u8>) {
        lemma_text_round_trip(v, rest);
    }
}

impl KeteRead for String {
    fn read_from(r: &mut Reader<'_>) -> KeteResult<Self> {
        match read_block(r, 2) {
            Ok(block) => match string_from_utf8(vstd::slice::slice_to_vec(block)) {
                Some(s) => Ok(s),
                None => Err(Error::IOError(IoFault::InvalidUtf8)),
            },
            Err(e) => Err(e),
        }
    }
}

impl Wire for Box<str> {
    type V = Seq<char>;

    open spec fn wire(&self) -> Seq<char> {
        (**self)@
    }

    open spec fn enc(v: Seq<char>) -> Seq<u8> {
        enc_text(v)
    }

    open spec fn fits(v: Seq<char>) -> bool {
        text_fits(v)
    }

    open spec fn dec(b: Seq<u8>) -> KeteResult<(Seq<char>, Seq<u8>)> {
        dec_text(b)
    }

    proof fn lemma_round_trip(v: Seq<char>, rest: Seq<u8>) {
        lemma_text_round_trip(v, rest);
    }
}

impl KeteRead for Box<str> {
    fn read_from(r: &mut Reader<'_>) -> KeteResult<Self> {
        match String::read_from(r) {
            Ok(s) => Ok(into_boxed_str(s)),
            Err(e) => Err(e),
        }
    }
}

// ---------------------------------------------------------------------------
// Lists
// ---------------------------------------------------------------------------

/// The bytes of the items, one after the other.
pub open spec fn enc_items<T: Wire>(v: Seq<T::V>) -> Seq<u8>
    decreases v.len(),
{
    if v.len() == 0 {
        Seq::empty()
    } else {
        T::enc(v[0]) + enc_items::<T>(v.skip(1))
    }
}

/// The `n` items which the bytes `b` start with, and the bytes after them.
pub open spec fn dec_items<T: Wire>(b: Seq<u8>, n: nat) -> KeteResult<(Seq<T::V>, Seq<u8>)>
    decreases n,
{
    if n == 0 {
        Ok((Seq::empty(), b))
    } else {
        match T::dec(b) {
            Ok((x, rest)) => match dec_items::<T>(rest, (n - 1) as nat) {
                Ok((xs, rest)) => Ok((seq![x] + xs, rest)),
                Err(e) => Err(e),
            },
            Err(e) => Err(e),
        }
    }
}

/// Does every item fit.
pub open spec fn items_fit<T: Wire>(v: Seq<T::V>) -> bool {
    forall|i: int| 0 <= i < v.len() ==> T::fits(#[trigger] v[i])
}

/// What is kept of each item.
pub open spec fn wires<T: Wire>(items: Seq<T>) -> Seq<T::V> {
    Seq::new(items.len(), |i: int| items[i].wire())
}

/// Items which fit are read as they were written.
pub proof fn lemma_items_round_trip<T: Wire>(v: Seq<T::V>, rest: Seq<u8>)
    requires
        items_fit::<T>(v),
    ensures
        dec_items::<T>(enc_items::<T>(v) + rest, v.len()) == Ok::<(Seq<T::V>, Seq<u8>), Error>(
            (v, rest),
        ),
    decreases v.len(),
{
    if v.len() == 0 {
        assert(enc_items::<T>(v) + rest =~= rest);
        assert(v =~= Seq::empty());
    } else {
        let tail = v.skip(1);
        let head = T::enc(v[0]);
        assert(T::fits(v[0]));
        assert forall|i: int| 0 <= i < tail.len() implies T::fits(#[trigger] tail[i]) by {
            assert(tail[i] == v[i + 1]);
        }
        assert(enc_items::<T>(v) + rest =~= head + (enc_items::<T>(tail) + rest));
        T::lemma_round_trip(v[0], enc_items::<T>(tail) + rest);
        lemma_items_round_trip::<T>(tail, rest);
        assert(seq![v[0]] + tail =~= v);
    }
}

/// One more item at the end adds its bytes at the end.
pub proof fn lemma_enc_items_push<T: Wire>(v: Seq<T::V>, x: T::V)
    ensures
        enc_items::<T>(v.push(x)) == enc_items::<T>(v) + T::enc(x),
    decreases v.len(),
{
    if v.len() == 0 {
        assert(v.push(x).skip(1) =~= Seq::empty());
        reveal_with_fuel(enc_items, 2);
        assert(enc_items::<T>(v.push(x)) =~= enc_items::<T>(v) + T::enc(x));
    } else {
        assert(v.push(x).skip(1) =~= v.skip(1).push(x));
        lemma_enc_items_push::<T>(v.skip(1), x);
        assert(enc_items::<T>(v.push(x)) =~= enc_items::<T>(v) + T::enc(x));
    }
}

/// Append the items, one after the other.
pub fn write_items<T: KeteWrite>(items: &[T], w: &mut Vec<u8>)
    ensures
        final(w)@ == old(w)@ + enc_items::<T>(wires(items@)),
{
    let ghost start = w@;
    let ghost all = wires(items@);
    let mut i: usize = 0;
    assert(all.take(0) =~= Seq::empty());
    assert(w@ =~= start + enc_items::<T>(all.take(0)));
    while i < items.len()
        invariant
            i <= items@.len(),
            all == wires(items@),
            w@ == start + enc_items::<T>(all.take(i as int)),
        decreases items.len() - i,
    {
        let ghost before = w@;
        let _ = items[i].write_to(w);
        proof {
            lemma_enc_items_push::<T>(all.take(i as int), all[i as int]);
            assert(all.take(i + 1) =~= all.take(i as int).push(all[i as int]));
            assert(w@ =~= start + enc_items::<T>(all.take(i + 1)));
        }
        i = i + 1;
    }
    assert(all.take(i as int) =~= all);
}

/// `parsed` with `front` before what was read.
spec fn behind<V>(front: Seq<V>, parsed: KeteResult<(Seq<V>, Seq<u8>)>) -> KeteResult<
    (Seq<V>, Seq<u8>),
> {
    match parsed {
        Ok((v, rest)) => Ok((front + v, rest)),
        Err(e) => Err(e),
    }
}

/// Read `n` items, one after the other.
pub fn read_items<T: KeteRead>(r: &mut Reader<'_>, n: usize) -> (res: KeteResult<Vec<T>>)
    ensures
        match dec_items::<T>(old(r)@, n as nat) {
            Ok((v, rest)) => res is Ok && wires(res->Ok_0@) == v && final(r)@ == rest,
            Err(e) => res == Err::<Vec<T>, Error>(e),
        },
{
    let ghost start = r@;
    let mut items: Vec<T> = Vec::new();
    let mut i: usize = 0;
    proof {
        let all = dec_items::<T>(start, n as nat);
        assert(wires(items@) =~= Seq::empty());
        if let Ok((v, rest)) = all {
            assert(wires(items@) + v =~= v);
        }
    }
    while i < n
        invariant
            i <= n,
            i == items@.len(),
            start == old(r)@,
            dec_items::<T>(start, n as nat) == behind(
                wires(items@),
                dec_items::<T>(r@, (n - i) as nat),
            ),
        decreases n - i,
    {
        let ghost before = r@;
        let ghost front = wires(items@);
        let ghost left = (n - i - 1) as nat;
        match T::read_from(r) {
            Ok(item) => {
                items.push(item);
                proof {
                    assert(wires(items@) =~= front.push(item.wire()));
                    if let Ok((v, rest)) = dec_items::<T>(r@, left) {
                        assert(front + (seq![item.wire()] + v) =~= wires(items@) + v);
                    }
                }
            },
            Err(e) => {
                return Err(e);
            },
        }
        i = i + 1;
    }
    assert(wires(items@) + Seq::empty() =~= wires(items@));
    Ok(items)
}

impl<T: Wire> Wire for Vec<T> {
    type V = Seq<T::V>;

    open spec fn wire(&self) -> Seq<T::V> {
        wires(self@)
    }

    open spec fn enc(v: Seq<T::V>) -> Seq<u8> {
        bytes::le_bytes(v.len(), 4) + enc_items::<T>(v)
    }

    open spec fn fits(v: Seq<T::V>) -> bool {
        v.len() < 0x1_0000_0000 && items_fit::<T>(v)
    }

    open spec fn dec(b: Seq<u8>) -> KeteResult<(Seq<T::V>, Seq<u8>)> {
        match dec_number(b, 4) {
            Ok((n, rest)) => dec_items::<T>(rest, n),
            Err(e) => Err(e),
        }
    }

    proof fn lemma_round_trip(v: Seq<T::V>, rest: Seq<u8>) {
        let head = bytes::le_bytes(v.len(), 4);
        bytes::lemma_pow256();
        assert(head + enc_items::<T>(v) + rest =~= head + (enc_items::<T>(v) + rest));
        lemma_number_round_trip(v.len(), 4, enc_items::<T>(v) + rest);
        lemma_items_round_trip::<T>(v, rest);
    }
}

impl<T: KeteWrite> KeteWrite for Vec<T> {
    fn write_to(&self, w: &mut Vec<u8>) -> KeteResult<()> {
        let ghost start = w@;
        bytes::write_le(w, self.len() as u64, 4);
        write_items(self.as_slice(), w);
        assert(w@ =~= start + (bytes::le_bytes(self@.len(), 4) + enc_items::<T>(wires(self@))));
        Ok(())
    }
}

impl<T: KeteRead> KeteRead for Vec<T> {
    fn read_from(r: &mut Reader<'_>) -> KeteResult<Self> {
        proof {
            bytes::lemma_pow256();
        }
        match read_number(r, 4) {
            Ok(n) => read_items(r, n as usize),
            Err(e) => Err(e),
        }
    }
}

// ---------------------------------------------------------------------------
// Pairs
// ---------------------------------------------------------------------------

/// A record is written field by field. The format of a record is that of its fields
/// as nested pairs.
impl<A: Wire, B: Wire> Wire for (A, B) {
    type V = (A::V, B::V);

    open spec fn wire(&self) -> (A::V, B::V) {
        (self.0.wire(), self.1.wire())
    }

    open spec fn enc(v: (A::V, B::V)) -> Seq<u8> {
        A::enc(v.0) + B::enc(v.1)
    }

    open spec fn fits(v: (A::V, B::V)) -> bool {
        A::fits(v.0) && B::fits(v.1)
    }

    open spec fn dec(b: Seq<u8>) -> KeteResult<((A::V, B::V), Seq<u8>)> {
        match A::dec(b) {
            Ok((x, rest)) => match B::dec(rest) {
                Ok((y, rest)) => Ok(((x, y), rest)),
                Err(e) => Err(e),
            },
            Err(e) => Err(e),
        }
    }

    proof fn lemma_round_trip(v: (A::V, B::V), rest: Seq<u8>) {
        assert(A::enc(v.0) + B::enc(v.1) + rest =~= A::enc(v.0) + (B::enc(v.1) + rest));
        A::lemma_round_trip(v.0, B::enc(v.1) + rest);
        B::lemma_round_trip(v.1, rest);
    }
}

impl<A: KeteWrite, B: KeteWrite> KeteWrite for (A, B) {
    fn write_to(&self, w: &mut Vec<u8>) -> KeteResult<()> {
        let ghost start = w@;
        let _ = self.0.write_to(w);
        let _ = self.1.write_to(w);
        assert(w@ =~= start + (A::enc(self.0.wire()) + B::enc(self.1.wire())));
        Ok(())
    }
}

impl<A: KeteRead, B: KeteRead> KeteRead for (A, B) {
    fn read_from(r: &mut Reader<'_>) -> KeteResult<Self> {
        match A::read_from(r) {
            Ok(x) => match B::read_from(r) {
                Ok(y) => Ok((x, y)),
                Err(e) => Err(e),
            },
            Err(e) => Err(e),
        }
    }
}

impl<T: Wire + ?Sized> Wire for &T {
    type V = T::V;

    open spec fn wire(&self) -> T::V {
        (**self).wire()
    }

    open spec fn enc(v: T::V) -> Seq<u8> {
        T::enc(v)
    }

    open spec fn fits(v: T::V) -> bool {
        T::fits(v)
    }

    open spec fn dec(b: Seq<u8>) -> KeteResult<(T::V, Seq<u8>)> {
        T::dec(b)
    }

    proof fn lemma_round_trip(v: T::V, rest: Seq<u8>) {
        T::lemma_round_trip(v, rest);
    }
}

impl<T: KeteWrite + ?Sized> KeteWrite for &T {
    fn write_to(&self, w: &mut Vec<u8>) -> KeteResult<()> {
        (**self).write_to(w)
    }
}

// ---------------------------------------------------------------------------
// Four of a kind
// ---------------------------------------------------------------------------

/// Four values, one after the other.
pub type Four<T> = (T, (T, (T, T)));

impl<T: Wire> Wire for [T; 4] {
    type V = <Four<T> as Wire>::V;

    open spec fn wire(&self) -> Self::V {
        (self@[0].wire(), (self@[1].wire(), (self@[2].wire(), self@[3].wire())))
    }

    open spec fn enc(v: Self::V) -> Seq<u8> {
        <Four<T> as Wire>::enc(v)
    }

    open spec fn fits(v: Self::V) -> bool {
        <Four<T> as Wire>::fits(v)
    }

    open spec fn dec(b: Seq<u8>) -> KeteResult<(Self::V, Seq<u8>)> {
        <Four<T> as Wire>::dec(b)
    }

    proof fn lemma_round_trip(v: Self::V, rest: Seq<u8>) {
        <Four<T> as Wire>::lemma_round_trip(v, rest);
    }
}

impl<T: KeteWrite> KeteWrite for [T; 4] {
    fn write_to(&self, w: &mut Vec<u8>) -> KeteResult<()> {
        (&self[0], (&self[1], (&self[2], &self[3]))).write_to(w)
    }
}

impl<T: KeteRead> KeteRead for [T; 4] {
    fn read_from(r: &mut Reader<'_>) -> KeteResult<Self> {
        match <Four<T>>::read_from(r) {
            Ok((first, (second, (third, fourth)))) => {
                let ghost read = seq![first, second, third, fourth];
                let all = [first, second, third, fourth];
                assert(all@ =~= read);
                Ok(all)
            },
            Err(e) => Err(e),
        }
    }
}

} // verus!
