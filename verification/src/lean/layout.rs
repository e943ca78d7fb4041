//! How an object's header and payload are laid out in memory.
//!
//! All multi-byte fields are little-endian. An object reference is a 64-bit
//! word: odd words are unboxed scalars, even words are addresses.

use crate::lean::runtime::lean_byte;
use vstd::prelude::*;

verus! {

/// Memory kind of an object that a single thread owns.
pub const LEAN_ST_MEM_KIND: u8 = 0;

/// Memory kind of an object that threads share.
pub const LEAN_MT_MEM_KIND: u8 = 1;

/// Width of the reference count in a packed header.
pub const LEAN_RC_NBITS: u8 = 32;

/// Largest block that the small-object allocator serves.
pub const LEAN_MAX_SMALL_OBJECT_SIZE: usize = 4096;

/// Granularity of the small-object allocator's size classes.
pub const LEAN_OBJECT_SIZE_DELTA: usize = 8;

/// The two header encodings of the runtime. A heap has one of them for life.
#[derive(Clone, Copy, PartialEq, Eq, Debug, Structural)]
pub enum HeaderLayout {
    /// One 64-bit word: the count in bits 0..32, the memory kind in byte 5,
    /// the field count in byte 6, the tag in byte 7.
    Packed,
    /// Four fields: a 64-bit count, then tag, memory kind and a 16-bit field
    /// count, padded to 16 bytes.
    Discrete,
}

/// Where the runtime takes an object's memory from.
#[derive(Clone, Copy, PartialEq, Eq, Debug, Structural)]
pub enum Allocator {
    /// The segmented small-object allocator, one slot list per size class.
    Small,
    /// The general-purpose allocator; each block is preceded by a word that
    /// holds the object's size.
    Generic,
}

/// A decoded object header.
#[derive(Clone, Copy, PartialEq, Eq, Debug, Structural)]
pub struct Object {
    pub rc: u64,
    pub tag: u8,
    pub mem_kind: u8,
    pub other: u16,
}

impl HeaderLayout {
    /// Bytes from an object's address to its payload.
    pub open spec fn header_size(self) -> int {
        match self {
            HeaderLayout::Packed => 8,
            HeaderLayout::Discrete => 16,
        }
    }

    /// The largest reference count that the header can hold.
    pub open spec fn max_rc(self) -> int {
        match self {
            HeaderLayout::Packed => 0xffff_ffff,
            HeaderLayout::Discrete => 0xffff_ffff_ffff_ffff,
        }
    }

    /// The largest field count that the header can hold.
    pub open spec fn max_other(self) -> int {
        match self {
            HeaderLayout::Packed => 0xff,
            HeaderLayout::Discrete => 0xffff,
        }
    }

    /// Bytes from an object's address to its payload.
    pub fn header_bytes(self) -> (n: u32)
        ensures
            n == self.header_size(),
    {
        match self {
            HeaderLayout::Packed => 8,
            HeaderLayout::Discrete => 16,
        }
    }
}

impl Allocator {
    /// Bytes that the allocator keeps in front of each object.
    pub open spec fn prefix(self) -> int {
        match self {
            Allocator::Small => 0,
            Allocator::Generic => 8,
        }
    }

    /// Bytes that the allocator keeps in front of each object.
    pub fn prefix_bytes(self) -> (n: u64)
        ensures
            n == self.prefix(),
    {
        match self {
            Allocator::Small => 0,
            Allocator::Generic => 8,
        }
    }
}

/// Whether an object reference is an unboxed scalar: its lowest bit is set.
pub open spec fn is_scalar(o: u64) -> bool {
    o % 2 == 1
}

/// The value of byte `idx` within a little-endian word: 256 to the power `idx`.
pub open spec fn byte_weight(idx: int) -> int {
    if idx == 0 {
        0x1
    } else if idx == 1 {
        0x100
    } else if idx == 2 {
        0x1_0000
    } else if idx == 3 {
        0x100_0000
    } else if idx == 4 {
        0x1_0000_0000
    } else if idx == 5 {
        0x100_0000_0000
    } else if idx == 6 {
        0x1_0000_0000_0000
    } else {
        0x100_0000_0000_0000
    }
}

/// Byte `idx` of `v`, counting from the least significant.
pub open spec fn byte_at(v: u64, idx: int) -> u8 {
    ((v as int / byte_weight(idx)) % 256) as u8
}

impl Object {
    /// The header that a packed header word encodes: the count in its low 32
    /// bits, the memory kind in byte 5, the field count in byte 6 and the tag
    /// in byte 7.
    pub open spec fn unpacked(word: u64) -> Object {
        Object {
            rc: (word % 0x1_0000_0000) as u64,
            tag: byte_at(word, 7),
            mem_kind: byte_at(word, 5),
            other: byte_at(word, 6) as u16,
        }
    }

    /// The packed header word of a fresh single-threaded object: count one,
    /// the given tag and field count.
    pub open spec fn packed_st(tag: u8, other: u16) -> int {
        tag * 0x100_0000_0000_0000 + other * 0x1_0000_0000_0000 + LEAN_ST_MEM_KIND
            * 0x100_0000_0000 + 1
    }

    /// A fresh packed header decodes to what it was made of.
    pub proof fn lemma_packed_st_unpacks(tag: u8, other: u16)
        requires
            other <= 0xff,
        ensures
            Object::packed_st(tag, other) <= u64::MAX,
            Object::unpacked(Object::packed_st(tag, other) as u64) == (Object {
                rc: 1,
                tag,
                mem_kind: LEAN_ST_MEM_KIND,
                other,
            }),
    {
        assert(other < 0x100 ==> {
            &&& tag * 0x100_0000_0000_0000 + other * 0x1_0000_0000_0000 + 1
                <= 0xffff_ffff_ffff_ffff
            &&& ((tag * 0x100_0000_0000_0000 + other * 0x1_0000_0000_0000 + 1) as u64)
                % 0x1_0000_0000 == 1
            &&& ((tag * 0x100_0000_0000_0000 + other * 0x1_0000_0000_0000 + 1) as u64)
                / 0x100_0000_0000 % 256 == 0
            &&& ((tag * 0x100_0000_0000_0000 + other * 0x1_0000_0000_0000 + 1) as u64)
                / 0x1_0000_0000_0000 % 256 == other
            &&& ((tag * 0x100_0000_0000_0000 + other * 0x1_0000_0000_0000 + 1) as u64)
                / 0x100_0000_0000_0000 % 256 == tag
        }) by (bit_vector);
    }

    /// Decodes a packed header word.
    pub fn unpack(word: u64) -> (obj: Object)
        ensures
            obj == Object::unpacked(word),
    {
        assert(word & 0xffff_ffff == word % 0x1_0000_0000) by (bit_vector);
        Object {
            rc: word & 0xffff_ffff,
            tag: lean_byte(word, 7),
            mem_kind: lean_byte(word, 5),
            other: lean_byte(word, 6) as u16,
        }
    }

    /// The packed header word of a fresh single-threaded object: count one,
    /// the given tag, and a field count that fits one byte.
    pub fn pack_st(tag: u8, other: u16) -> (word: u64)
        requires
            other <= 0xff,
        ensures
            word == Object::packed_st(tag, other),
            Object::unpacked(word) == (Object { rc: 1, tag, mem_kind: LEAN_ST_MEM_KIND, other }),
    {
        proof {
            Object::lemma_packed_st_unpacks(tag, other);
        }
        assert(other < 0x100 ==> (tag as u64) << 56 | (other as u64) << 48 | (0u8 as u64) << 40 | 1
            == tag * 0x100_0000_0000_0000 + other * 0x1_0000_0000_0000 + 1) by (bit_vector);
        (tag as u64) << 56 | (other as u64) << 48 | (LEAN_ST_MEM_KIND as u64) << 40 | 1
    }
}

/// The word whose little-endian bytes are `mem[at..at + 8]`.
#[verifier::opaque]
pub open spec fn read_u64(mem: Seq<u8>, at: int) -> u64 {
    (mem[at] as int + 0x100 * mem[at + 1] + 0x1_0000 * mem[at + 2] + 0x100_0000 * mem[at + 3]
        + 0x1_0000_0000 * mem[at + 4] + 0x100_0000_0000 * mem[at + 5] + 0x1_0000_0000_0000 * mem[at
        + 6] + 0x100_0000_0000_0000 * mem[at + 7]) as u64
}

/// `mem` with `v` stored little-endian at `mem[at..at + 8]`.
pub open spec fn write_u64(mem: Seq<u8>, at: int, v: u64) -> Seq<u8> {
    Seq::new(
        mem.len(),
        |i: int|
            if at <= i < at + 8 {
                byte_at(v, i - at)
            } else {
                mem[i]
            },
    )
}

/// The 16-bit value whose little-endian bytes are `mem[at..at + 2]`.
#[verifier::opaque]
pub open spec fn read_u16(mem: Seq<u8>, at: int) -> u16 {
    (mem[at] as int + 0x100 * mem[at + 1]) as u16
}

/// `mem` with `v` stored little-endian at `mem[at..at + 2]`.
pub open spec fn write_u16(mem: Seq<u8>, at: int, v: u16) -> Seq<u8> {
    Seq::new(
        mem.len(),
        |i: int|
            if at <= i < at + 2 {
                byte_at(v as u64, i - at)
            } else {
                mem[i]
            },
    )
}

/// A word is the sum of its bytes, each at its weight.
pub proof fn lemma_word_is_sum_of_bytes(v: u64)
    ensures
        v == byte_at(v, 0) + 0x100 * byte_at(v, 1) + 0x1_0000 * byte_at(v, 2) + 0x100_0000
            * byte_at(v, 3) + 0x1_0000_0000 * byte_at(v, 4) + 0x100_0000_0000 * byte_at(v, 5)
            + 0x1_0000_0000_0000 * byte_at(v, 6) + 0x100_0000_0000_0000 * byte_at(v, 7),
{
    assert(v == (v / 0x1) % 256 + 0x100 * ((v / 0x100) % 256) + 0x1_0000 * ((v / 0x1_0000) % 256)
        + 0x100_0000 * ((v / 0x100_0000) % 256) + 0x1_0000_0000 * ((v / 0x1_0000_0000) % 256)
        + 0x100_0000_0000 * ((v / 0x100_0000_0000) % 256) + 0x1_0000_0000_0000 * ((v
        / 0x1_0000_0000_0000) % 256) + 0x100_0000_0000_0000 * ((v / 0x100_0000_0000_0000) % 256))
        by (bit_vector);
}

/// Reading a word back from where it was stored gives the word.
pub proof fn lemma_read_written_u64(mem: Seq<u8>, at: int, v: u64)
    requires
        0 <= at,
        at + 8 <= mem.len(),
    ensures
        read_u64(write_u64(mem, at, v), at) == v,
{
    reveal(read_u64);
    lemma_word_is_sum_of_bytes(v);
}

/// A word is read from its own eight bytes: memories that agree there give
/// the same word.
pub proof fn lemma_read_u64_local(mem1: Seq<u8>, mem2: Seq<u8>, at: int)
    requires
        forall|i: int| at <= i < at + 8 ==> mem1[i] == mem2[i],
    ensures
        read_u64(mem1, at) == read_u64(mem2, at),
{
    reveal(read_u64);
}

/// A 16-bit value is read from its own two bytes.
pub proof fn lemma_read_u16_local(mem1: Seq<u8>, mem2: Seq<u8>, at: int)
    requires
        forall|i: int| at <= i < at + 2 ==> mem1[i] == mem2[i],
    ensures
        read_u16(mem1, at) == read_u16(mem2, at),
{
    reveal(read_u16);
}

/// Reading a 16-bit value back from where it was stored gives the value.
pub proof fn lemma_read_written_u16(mem: Seq<u8>, at: int, v: u16)
    requires
        0 <= at,
        at + 2 <= mem.len(),
    ensures
        read_u16(write_u16(mem, at, v), at) == v,
{
    reveal(read_u16);
}

/// The bytes of the word read at `at` are the bytes of memory there.
pub proof fn lemma_bytes_of_read_u64(mem: Seq<u8>, at: int, idx: int)
    requires
        0 <= idx < 8,
    ensures
        byte_at(read_u64(mem, at), idx) == mem[at + idx],
{
    reveal(read_u64);
    let b0 = mem[at];
    let b1 = mem[at + 1];
    let b2 = mem[at + 2];
    let b3 = mem[at + 3];
    let b4 = mem[at + 4];
    let b5 = mem[at + 5];
    let b6 = mem[at + 6];
    let b7 = mem[at + 7];
    let w = read_u64(mem, at);
    assert(w == b0 + 0x100 * b1 + 0x1_0000 * b2 + 0x100_0000 * b3 + 0x1_0000_0000 * b4
        + 0x100_0000_0000 * b5 + 0x1_0000_0000_0000 * b6 + 0x100_0000_0000_0000 * b7);
    assert(w == b0 + 0x100 * b1 + 0x1_0000 * b2 + 0x100_0000 * b3 + 0x1_0000_0000 * b4
        + 0x100_0000_0000 * b5 + 0x1_0000_0000_0000 * b6 + 0x100_0000_0000_0000 * b7 ==> {
        &&& (w / 0x1) % 256 == b0
        &&& (w / 0x100) % 256 == b1
        &&& (w / 0x1_0000) % 256 == b2
        &&& (w / 0x100_0000) % 256 == b3
        &&& (w / 0x1_0000_0000) % 256 == b4
        &&& (w / 0x100_0000_0000) % 256 == b5
        &&& (w / 0x1_0000_0000_0000) % 256 == b6
        &&& (w / 0x100_0000_0000_0000) % 256 == b7
    }) by (bit_vector);
}

/// Eight zero bytes read as the word zero.
pub proof fn lemma_read_zeros(mem: Seq<u8>, at: int)
    requires
        forall|i: int| at <= i < at + 8 ==> mem[i] == 0,
    ensures
        read_u64(mem, at) == 0,
{
    reveal(read_u64);
}

/// Storing the word that is already there changes nothing.
pub proof fn lemma_write_read_u64(mem: Seq<u8>, at: int)
    requires
        0 <= at,
        at + 8 <= mem.len(),
    ensures
        write_u64(mem, at, read_u64(mem, at)) == mem,
{
    let w = read_u64(mem, at);
    assert forall|i: int| 0 <= i < mem.len() implies write_u64(mem, at, w)[i] == mem[i] by {
        if at <= i < at + 8 {
            lemma_bytes_of_read_u64(mem, at, i - at);
        }
    }
    assert(write_u64(mem, at, w) =~= mem);
}

/// Of two stores to the same place, the second one counts.
pub proof fn lemma_write_written_u64(mem: Seq<u8>, at: int, v: u64, w: u64)
    ensures
        write_u64(write_u64(mem, at, v), at, w) == write_u64(mem, at, w),
{
    assert(write_u64(write_u64(mem, at, v), at, w) =~= write_u64(mem, at, w));
}

} // verus!
