//! The fixed-width framing: little-endian integers of fixed size, and a
//! cursor over a byte buffer that the decoder reads from.

use crate::error::{ErrorKind, GenericError};
use crate::schema::{Schema, SchemaView};
use vstd::prelude::*;
use vstd::string::StringSliceAdditionalSpecFns;
use vstd::utf8::valid_utf8;

verus! {

/// 256 to the power `width`: the number of values that `width` bytes hold.
pub open spec fn radix(width: nat) -> nat
    decreases width,
{
    if width == 0 {
        1
    } else {
        256 * radix((width - 1) as nat)
    }
}

/// The number that the bytes spell, least significant byte first.
pub open spec fn le_value(bytes: Seq<u8>) -> nat
    decreases bytes.len(),
{
    if bytes.len() == 0 {
        0
    } else {
        bytes[0] as nat + 256 * le_value(bytes.drop_first())
    }
}

/// The `width` low bytes of `x`, least significant byte first.
pub open spec fn le_bytes(x: nat, width: nat) -> Seq<u8>
    decreases width,
{
    if width == 0 {
        Seq::empty()
    } else {
        seq![(x % 256) as u8] + le_bytes(x / 256, (width - 1) as nat)
    }
}

/// The signed number that `u` stands for in two's complement of `width` bytes.
pub open spec fn signed_of(u: nat, width: nat) -> int {
    if 2 * u >= radix(width) {
        u - radix(width)
    } else {
        u as int
    }
}

/// The unsigned number that stands for `v` in two's complement of `width` bytes.
pub open spec fn unsigned_of(v: int, width: nat) -> nat {
    if v < 0 {
        (v + radix(width)) as nat
    } else {
        v as nat
    }
}

/// The values of `radix` at the widths that the framing uses.
pub proof fn lemma_radix_values()
    ensures
        radix(0) == 1,
        radix(1) == 0x100,
        radix(2) == 0x1_0000,
        radix(4) == 0x1_0000_0000,
        radix(8) == 0x1_0000_0000_0000_0000,
        radix(16) == 0x1_0000_0000_0000_0000_0000_0000_0000_0000,
{
    assert(radix(1) == 0x100) by {
        reveal_with_fuel(radix, 2);
    }
    assert(radix(2) == 256 * radix(1));
    assert(radix(3) == 256 * radix(2));
    assert(radix(4) == 256 * radix(3));
    assert(radix(5) == 256 * radix(4));
    assert(radix(6) == 256 * radix(5));
    assert(radix(7) == 256 * radix(6));
    assert(radix(8) == 256 * radix(7));
    assert(radix(9) == 256 * radix(8));
    assert(radix(10) == 256 * radix(9));
    assert(radix(11) == 256 * radix(10));
    assert(radix(12) == 256 * radix(11));
    assert(radix(13) == 256 * radix(12));
    assert(radix(14) == 256 * radix(13));
    assert(radix(15) == 256 * radix(14));
    assert(radix(16) == 256 * radix(15));
}

/// `radix` grows with the width.
pub proof fn lemma_radix_monotonic(a: nat, b: nat)
    requires
        a <= b,
    ensures
        1 <= radix(a) <= radix(b),
    decreases b,
{
    if b == 0 {
    } else if a == b {
        lemma_radix_monotonic((a - 1) as nat, (b - 1) as nat);
    } else {
        lemma_radix_monotonic(a, (b - 1) as nat);
    }
}

/// The number that `n` bytes spell is below `radix(n)`.
pub proof fn lemma_le_value_bound(bytes: Seq<u8>)
    ensures
        le_value(bytes) < radix(bytes.len()),
    decreases bytes.len(),
{
    if bytes.len() > 0 {
        lemma_le_value_bound(bytes.drop_first());
    }
}

/// `le_bytes` gives as many bytes as asked for.
pub proof fn lemma_le_bytes_len(x: nat, width: nat)
    ensures
        le_bytes(x, width).len() == width,
    decreases width,
{
    if width > 0 {
        lemma_le_bytes_len(x / 256, (width - 1) as nat);
    }
}

/// Writing the number that the bytes spell gives the bytes back.
pub proof fn lemma_le_bytes_of_value(bytes: Seq<u8>)
    ensures
        le_bytes(le_value(bytes), bytes.len()) == bytes,
    decreases bytes.len(),
{
    if bytes.len() > 0 {
        let rest = bytes.drop_first();
        lemma_le_bytes_of_value(rest);
        let x = le_value(bytes);
        assert(x % 256 == bytes[0] as nat);
        assert(x / 256 == le_value(rest));
        assert(le_bytes(x, bytes.len()) =~= bytes);
    } else {
        assert(le_bytes(le_value(bytes), bytes.len()) =~= bytes);
    }
}

/// Reading the bytes of a number that fits gives the number back.
pub proof fn lemma_le_value_of_bytes(x: nat, width: nat)
    requires
        x < radix(width),
    ensures
        le_value(le_bytes(x, width)) == x,
    decreases width,
{
    if width > 0 {
        let bytes = le_bytes(x, width);
        lemma_le_value_of_bytes(x / 256, (width - 1) as nat);
        assert(bytes.drop_first() =~= le_bytes(x / 256, (width - 1) as nat));
        assert(bytes[0] == (x % 256) as u8);
    }
}

/// Two's complement is a bijection between the signed and the unsigned
/// numbers of a width.
pub proof fn lemma_signed_unsigned(u: nat, width: nat)
    requires
        u < radix(width),
    ensures
        unsigned_of(signed_of(u, width), width) == u,
        -(radix(width) as int) <= 2 * signed_of(u, width) < radix(width),
{
}

/// The converse of [`lemma_signed_unsigned`].
pub proof fn lemma_unsigned_signed(v: int, width: nat)
    requires
        -(radix(width) as int) <= 2 * v < radix(width),
    ensures
        signed_of(unsigned_of(v, width), width) == v,
        unsigned_of(v, width) < radix(width),
{
}

/// The error of `core::str::from_utf8`. Nothing is read from it.
#[verifier::external_type_specification]
#[verifier::external_body]
pub struct ExUtf8Error(core::str::Utf8Error);

/// `core::str::from_utf8` accepts exactly the byte sequences that are valid
/// UTF-8, and the string slice it returns is made of the bytes it was given.
pub assume_specification[ core::str::from_utf8 ](v: &[u8]) -> (r: Result<
    &str,
    core::str::Utf8Error,
>)
    ensures
        r is Ok <==> valid_utf8(v@),
        r matches Ok(s) ==> s.spec_bytes() == v@,
;

/// A byte buffer with a read position that never passes its end.
struct Cursor<'a> {
    bytes: &'a [u8],
    pos: usize,
}

impl<'a> Cursor<'a> {
    #[verifier::type_invariant]
    spec fn in_bounds(self) -> bool {
        self.pos <= self.bytes@.len()
    }
}

/// A byte buffer with a read position, and the slot through which a product
/// decode tells the next nested decode which schema it must produce.
///
/// Each traversal has a source of its own, and so a slot of its own.
pub struct ByteSource<'a> {
    cursor: Cursor<'a>,
    expected: Option<Schema>,
}

impl<'a> ByteSource<'a> {
    /// All the bytes of the buffer, read or not.
    pub closed spec fn input(&self) -> Seq<u8> {
        self.cursor.bytes@
    }

    /// How many bytes have been read.
    pub closed spec fn consumed(&self) -> nat {
        self.cursor.pos as nat
    }

    /// The schema that waits in the slot, if any.
    pub closed spec fn expected(&self) -> Option<SchemaView> {
        match self.expected {
            Some(schema) => Some(schema@),
            None => None,
        }
    }

    /// The bytes that have not been read yet.
    pub open spec fn remaining(&self) -> Seq<u8> {
        self.input().subrange(self.consumed() as int, self.input().len() as int)
    }

    /// A source at the start of `bytes`, with an empty slot.
    pub fn new(bytes: &'a [u8]) -> (source: Self)
        ensures
            source.input() == bytes@,
            source.consumed() == 0,
            source.expected() is None,
    {
        ByteSource { cursor: Cursor { bytes, pos: 0 }, expected: None }
    }

    /// How many bytes have been read.
    pub fn position(&self) -> (pos: usize)
        ensures
            pos == self.consumed(),
            pos <= self.input().len(),
    {
        proof {
            use_type_invariant(&self.cursor);
        }
        self.cursor.pos
    }

    /// How many bytes are left to read.
    pub fn remaining_len(&self) -> (len: usize)
        ensures
            len == self.remaining().len(),
            self.consumed() + len == self.input().len(),
    {
        proof {
            use_type_invariant(&self.cursor);
        }
        self.cursor.bytes.len() - self.cursor.pos
    }

    /// Puts `schema` into the slot, over whatever waited there.
    pub fn expect(&mut self, schema: Schema)
        ensures
            final(self).expected() == Some(schema@),
            final(self).input() == old(self).input(),
            final(self).consumed() == old(self).consumed(),
    {
        self.expected = Some(schema);
    }

    /// Empties the slot and hands out what waited there.
    pub fn take_expected(&mut self) -> (schema: Option<Schema>)
        ensures
            final(self).expected() is None,
            final(self).input() == old(self).input(),
            final(self).consumed() == old(self).consumed(),
            match schema {
                Some(s) => old(self).expected() == Some(s@),
                None => old(self).expected() is None,
            },
    {
        self.expected.take()
    }

    /// The next byte, which stays unread; `None` at the end of the buffer.
    pub fn peek(&self) -> (byte: Option<u8>)
        ensures
            match byte {
                Some(b) => self.remaining().len() > 0 && b == self.remaining()[0],
                None => self.remaining().len() == 0,
            },
    {
        proof {
            use_type_invariant(&self.cursor);
        }
        if self.cursor.pos < self.cursor.bytes.len() {
            Some(self.cursor.bytes[self.cursor.pos])
        } else {
            None
        }
    }

    /// Reads the next `count` bytes. Fails with `ProtocolError`, and reads
    /// nothing, where fewer than `count` bytes are left.
    pub fn read_bytes(&mut self, count: usize) -> (r: Result<&'a [u8], GenericError>)
        ensures
            final(self).input() == old(self).input(),
            final(self).expected() == old(self).expected(),
            match r {
                Ok(bytes) => {
                    &&& count <= old(self).remaining().len()
                    &&& bytes@ == old(self).remaining().subrange(0, count as int)
                    &&& final(self).consumed() == old(self).consumed() + count
                },
                Err(e) => {
                    &&& count > old(self).remaining().len()
                    &&& e.kind == ErrorKind::ProtocolError
                    &&& final(self).consumed() == old(self).consumed()
                },
            },
    {
        proof {
            use_type_invariant(&self.cursor);
        }
        let start = self.cursor.pos;
        if count > self.cursor.bytes.len() - start {
            return Err(GenericError::new(ErrorKind::ProtocolError));
        }
        let bytes = vstd::slice::slice_subrange(self.cursor.bytes, start, start + count);
        self.cursor.pos = start + count;
        assert(bytes@ =~= old(self).remaining().subrange(0, count as int));
        Ok(bytes)
    }

    /// Reads a little-endian unsigned integer of `width` bytes. Fails with
    /// `ProtocolError`, and reads nothing, where fewer bytes are left.
    pub fn read_unsigned(&mut self, width: usize) -> (r: Result<u128, GenericError>)
        requires
            width <= 16,
        ensures
            final(self).input() == old(self).input(),
            final(self).expected() == old(self).expected(),
            match r {
                Ok(value) => {
                    &&& width <= old(self).remaining().len()
                    &&& value == le_value(old(self).remaining().subrange(0, width as int))
                    &&& value < radix(width as nat)
                    &&& final(self).consumed() == old(self).consumed() + width
                },
                Err(e) => {
                    &&& width > old(self).remaining().len()
                    &&& e.kind == ErrorKind::ProtocolError
                    &&& final(self).consumed() == old(self).consumed()
                },
            },
    {
        let bytes = match self.read_bytes(width) {
            Ok(bytes) => bytes,
            Err(e) => {
                return Err(e);
            },
        };
        Ok(unsigned_from_le(bytes))
    }
}

/// The number that at most 16 bytes spell, least significant byte first.
pub fn unsigned_from_le(bytes: &[u8]) -> (value: u128)
    requires
        bytes@.len() <= 16,
    ensures
        value == le_value(bytes@),
        value < radix(bytes@.len()),
{
    let width = bytes.len();
    let mut value: u128 = 0;
    let mut i: usize = width;
    proof {
        assert(bytes@.subrange(width as int, width as int) =~= Seq::<u8>::empty());
    }
    while i > 0
        invariant
            i <= width,
            width == bytes@.len(),
            width <= 16,
            value == le_value(bytes@.subrange(i as int, width as int)),
        decreases i,
    {
        let ghost tail = bytes@.subrange(i as int, width as int);
        let ghost next = bytes@.subrange(i - 1, width as int);
        proof {
            lemma_le_value_bound(tail);
            lemma_radix_monotonic((width - i) as nat, 15);
            lemma_radix_values();
            assert(radix(16) == 256 * radix(15));
            assert(next.drop_first() =~= tail);
        }
        i -= 1;
        value = value * 256 + bytes[i] as u128;
    }
    proof {
        assert(bytes@.subrange(0, width as int) =~= bytes@);
        lemma_le_value_bound(bytes@);
    }
    value
}

/// Appends the `width` low bytes of `value`, least significant byte first.
pub fn write_unsigned(out: &mut Vec<u8>, value: u128, width: usize)
    ensures
        final(out)@ == old(out)@ + le_bytes(value as nat, width as nat),
{
    let mut rest: u128 = value;
    let mut i: usize = 0;
    proof {
        assert(out@ + le_bytes(rest as nat, (width - i) as nat) =~= old(out)@ + le_bytes(
            value as nat,
            width as nat,
        ));
    }
    while i < width
        invariant
            i <= width,
            out@ + le_bytes(rest as nat, (width - i) as nat) == old(out)@ + le_bytes(
                value as nat,
                width as nat,
            ),
        decreases width - i,
    {
        let ghost before = out@;
        let byte = (rest % 256) as u8;
        out.push(byte);
        proof {
            assert(before + le_bytes(rest as nat, (width - i) as nat) =~= out@ + le_bytes(
                (rest / 256) as nat,
                (width - i - 1) as nat,
            ));
        }
        rest = rest / 256;
        i += 1;
    }
    proof {
        assert(out@ + le_bytes(rest as nat, 0) =~= out@);
    }
}

} // verus!
