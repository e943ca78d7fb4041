//! The heap that Lean objects live in.
//!
//! Memory is a run of bytes addressed from zero; the first eight are never
//! handed out, so that the null address names no object. Beside the bytes the
//! heap keeps what the host runtime knows of them: which blocks it has handed
//! out, which of those it was asked to free, and in what order.

use crate::lean::layout::{
    byte_at, read_u16, read_u64, write_u16, write_u64, Allocator, HeaderLayout, Object,
    LEAN_MAX_SMALL_OBJECT_SIZE, LEAN_MT_MEM_KIND, LEAN_ST_MEM_KIND,
};
use crate::lean::runtime::lean_byte;
use std::collections::HashMap;
use vstd::prelude::*;

verus! {

/// A block that the host allocator has handed out.
#[derive(Clone, Copy, PartialEq, Eq, Debug, Structural)]
pub struct Block {
    /// The size that was asked for, in bytes.
    pub size: u64,
    /// False once the block has been handed back.
    pub live: bool,
}

/// What a heap holds, as mathematics.
#[verifier::ext_equal]
pub struct HeapView {
    pub layout: HeaderLayout,
    pub allocator: Allocator,
    /// The bytes of memory, by address.
    pub mem: Seq<u8>,
    /// The blocks handed out so far, by the address of their first byte.
    pub blocks: Map<u64, Block>,
    /// The objects handed to the deallocation entry point, oldest first.
    pub deleted: Seq<u64>,
    /// The allocator's heartbeat counter.
    pub heartbeats: u64,
}

/// How many bytes of memory a block of `size` bytes takes up: `size` rounded up
/// to a multiple of eight, and eight for an empty block.
pub open spec fn footprint(size: u64) -> int {
    if size == 0 {
        8
    } else {
        size + (8 - size % 8) % 8
    }
}

impl HeapView {
    /// A heap in which nothing has been allocated.
    pub open spec fn empty(layout: HeaderLayout, allocator: Allocator) -> HeapView {
        HeapView {
            layout,
            allocator,
            mem: Seq::new(8, |i: int| 0u8),
            blocks: Map::empty(),
            deleted: Seq::empty(),
            heartbeats: 0,
        }
    }

    /// The block at `b` is aligned and lies within memory.
    pub open spec fn block_ok(self, b: u64) -> bool {
        &&& 8 <= b
        &&& b % 8 == 0
        &&& b < self.mem.len()
        &&& b + self.blocks[b].size <= self.mem.len()
    }

    /// The blocks at `b1` and `b2` share no byte.
    pub open spec fn apart(self, b1: u64, b2: u64) -> bool {
        b1 + self.blocks[b1].size <= b2 || b2 + self.blocks[b2].size <= b1
    }

    /// The heap's invariant: memory is a whole number of words and every
    /// address fits a word; blocks lie within memory and do not overlap.
    pub open spec fn wf(self) -> bool {
        &&& 8 <= self.mem.len() <= u64::MAX
        &&& self.mem.len() % 8 == 0
        &&& forall|b: u64| #[trigger] self.blocks.contains_key(b) ==> self.block_ok(b)
        &&& forall|b1: u64, b2: u64|
            #![trigger self.blocks.contains_key(b1), self.blocks.contains_key(b2)]
            self.blocks.contains_key(b1) && self.blocks.contains_key(b2) && b1 != b2
                ==> self.apart(b1, b2)
    }

    /// The first byte of the block that holds the object at `o`.
    pub open spec fn base(self, o: u64) -> u64 {
        (o - self.allocator.prefix()) as u64
    }

    /// `o` is the address of an object in a block that has not been freed.
    pub open spec fn is_live(self, o: u64) -> bool {
        &&& o >= self.allocator.prefix()
        &&& self.blocks.contains_key(self.base(o))
        &&& self.blocks[self.base(o)].live
    }

    /// Bytes that the object at `o` may use, header included.
    pub open spec fn capacity(self, o: u64) -> int {
        self.blocks[self.base(o)].size - self.allocator.prefix()
    }

    /// `o` is live and its block has room for a header.
    pub open spec fn is_object(self, o: u64) -> bool {
        self.is_live(o) && self.layout.header_size() <= self.capacity(o)
    }

    /// The heap after `n` zero bytes are added to memory.
    pub open spec fn grow(self, n: nat) -> HeapView {
        self.with_mem(self.mem + Seq::new(n, |i: int| 0u8))
    }

    /// This heap holds all that `pre` held, unchanged: its memory begins with
    /// the memory of `pre`, and it knows the blocks of `pre` as `pre` did.
    pub open spec fn extends(self, pre: HeapView) -> bool {
        &&& self.layout == pre.layout
        &&& self.allocator == pre.allocator
        &&& pre.mem.len() <= self.mem.len()
        &&& forall|i: int| 0 <= i < pre.mem.len() ==> self.mem[i] == pre.mem[i]
        &&& forall|b: u64| #[trigger]
            pre.blocks.contains_key(b) ==> self.blocks.contains_key(b) && self.blocks[b]
                == pre.blocks[b]
        &&& self.deleted == pre.deleted
    }

    /// The same heap with other bytes.
    pub open spec fn with_mem(self, mem: Seq<u8>) -> HeapView {
        HeapView { mem, ..self }
    }

    /// The heap after the byte `v` is stored at `at`.
    pub open spec fn store_u8(self, at: int, v: u8) -> HeapView {
        self.with_mem(self.mem.update(at, v))
    }

    /// The heap after `v` is stored at `at`, little-endian.
    pub open spec fn store_u16(self, at: int, v: u16) -> HeapView {
        self.with_mem(write_u16(self.mem, at, v))
    }

    /// The heap after the word `v` is stored at `at`, little-endian.
    pub open spec fn store_u64(self, at: int, v: u64) -> HeapView {
        self.with_mem(write_u64(self.mem, at, v))
    }

    /// The first word of the object at `o`: the whole header in the packed
    /// layout, the reference count in the discrete one.
    pub open spec fn header_word(self, o: u64) -> u64 {
        read_u64(self.mem, o as int)
    }

    /// The header of the object at `o`, decoded.
    pub open spec fn object(self, o: u64) -> Object {
        match self.layout {
            HeaderLayout::Packed => Object::unpacked(self.header_word(o)),
            HeaderLayout::Discrete => Object {
                rc: self.header_word(o),
                tag: self.mem[o + 8],
                mem_kind: self.mem[o + 9],
                other: read_u16(self.mem, o + 10),
            },
        }
    }

    /// The reference count of the object at `o`.
    pub open spec fn rc(self, o: u64) -> u64 {
        self.object(o).rc
    }

    /// The tag of the object at `o`.
    pub open spec fn tag(self, o: u64) -> u8 {
        self.object(o).tag
    }

    /// The field count of the object at `o`.
    pub open spec fn other(self, o: u64) -> u16 {
        self.object(o).other
    }

    /// The object at `o` belongs to one thread.
    pub open spec fn is_st(self, o: u64) -> bool {
        self.object(o).mem_kind == LEAN_ST_MEM_KIND
    }

    /// The object at `o` is shared between threads.
    pub open spec fn is_mt(self, o: u64) -> bool {
        self.object(o).mem_kind == LEAN_MT_MEM_KIND
    }

    /// The heap after the count of the object at `o` is set to `n`.
    pub open spec fn with_rc(self, o: u64, n: u64) -> HeapView {
        match self.layout {
            HeaderLayout::Packed => self.store_u64(
                o as int,
                (self.header_word(o) - self.header_word(o) % 0x1_0000_0000 + n) as u64,
            ),
            HeaderLayout::Discrete => self.store_u64(o as int, n),
        }
    }

    /// The heap after a fresh single-threaded header is written at `o`:
    /// count one, the given tag and field count.
    pub open spec fn set_st_header(self, o: u64, tag: u8, other: u16) -> HeapView {
        match self.layout {
            HeaderLayout::Packed => self.store_u64(
                o as int,
                Object::packed_st(tag, other) as u64,
            ),
            HeaderLayout::Discrete => self.store_u64(o as int, 1).store_u8(o + 8, tag).store_u8(
                o + 9,
                LEAN_ST_MEM_KIND,
            ).store_u16(o + 10, other),
        }
    }

    /// The address of the payload of the object at `o`.
    pub open spec fn payload(self, o: u64) -> int {
        o + self.layout.header_size()
    }

    /// Field `i` of the constructor object at `o`.
    pub open spec fn child(self, o: u64, i: int) -> u64 {
        read_u64(self.mem, self.payload(o) + 8 * i)
    }

    /// The heap after `v` is stored as field `i` of the object at `o`.
    pub open spec fn set_child(self, o: u64, i: int, v: u64) -> HeapView {
        self.store_u64(self.payload(o) + 8 * i, v)
    }

    /// The 64-bit scalar at byte offset `off` of the payload of the object at `o`.
    pub open spec fn scalar_u64(self, o: u64, off: int) -> u64 {
        read_u64(self.mem, self.payload(o) + off)
    }

    /// The heap after `v` is stored at byte offset `off` of the payload of
    /// the object at `o`.
    pub open spec fn set_scalar_u64(self, o: u64, off: int, v: u64) -> HeapView {
        self.store_u64(self.payload(o) + off, v)
    }

    /// The address of the next block that the allocator hands out.
    pub open spec fn next_block(self) -> u64 {
        self.mem.len() as u64
    }

    /// The heap after the allocator hands out a zeroed block of `size` bytes.
    pub open spec fn open_block(self, size: u64) -> HeapView {
        HeapView {
            blocks: self.blocks.insert(self.next_block(), Block { size, live: true }),
            ..self.grow(footprint(size) as nat)
        }
    }

    /// The heap after one more heartbeat; the counter wraps.
    pub open spec fn tick(self) -> HeapView {
        HeapView {
            heartbeats: if self.heartbeats == u64::MAX {
                0
            } else {
                (self.heartbeats + 1) as u64
            },
            ..self
        }
    }

    /// The heap after the object at `o` is handed to the deallocation entry
    /// point: its block is no longer live, and the request is on record.
    pub open spec fn del(self, o: u64) -> HeapView {
        HeapView {
            blocks: self.blocks.insert(
                self.base(o),
                Block { size: self.blocks[self.base(o)].size, live: false },
            ),
            deleted: self.deleted.push(o),
            ..self
        }
    }
}

impl HeapView {
    /// The address space has room for one more block of `size` bytes.
    pub open spec fn fits(self, size: u64) -> bool {
        self.mem.len() + footprint(size) <= u64::MAX
    }

    /// A block that the allocator hands out is new, zeroed and lies behind
    /// all that the heap held, which stays as it was.
    pub proof fn lemma_open_block(self, size: u64)
        requires
            self.wf(),
            self.fits(size),
        ensures
            self.open_block(size).wf(),
            self.open_block(size).extends(self),
            self.open_block(size).mem.len() == self.mem.len() + footprint(size),
            !self.blocks.contains_key(self.next_block()),
            forall|i: int|
                self.mem.len() <= i < self.mem.len() + footprint(size) ==> self.open_block(
                    size,
                ).mem[i] == 0,
    {
        let after = self.open_block(size);
        let base = self.next_block();
        if self.blocks.contains_key(base) {
            assert(self.block_ok(base));
        }
        assert forall|b: u64| #[trigger] after.blocks.contains_key(b) implies after.block_ok(
            b,
        ) by {
            if b != base {
                assert(self.blocks.contains_key(b));
                assert(self.block_ok(b));
            }
        }
        assert forall|b1: u64, b2: u64|
            #![trigger after.blocks.contains_key(b1), after.blocks.contains_key(b2)]
            after.blocks.contains_key(b1) && after.blocks.contains_key(b2) && b1
                != b2 implies after.apart(b1, b2) by {
            if b1 != base {
                assert(self.blocks.contains_key(b1));
                assert(self.block_ok(b1));
            }
            if b2 != base {
                assert(self.blocks.contains_key(b2));
                assert(self.block_ok(b2));
            }
        }
    }

    /// Freeing an object keeps the heap well formed.
    pub proof fn lemma_del_wf(self, o: u64)
        requires
            self.wf(),
            self.is_live(o),
        ensures
            self.del(o).wf(),
    {
        let after = self.del(o);
        assert forall|b: u64| #[trigger] after.blocks.contains_key(b) implies after.block_ok(
            b,
        ) by {
            assert(self.blocks.contains_key(b));
            assert(self.block_ok(b));
        }
        assert forall|b1: u64, b2: u64|
            #![trigger after.blocks.contains_key(b1), after.blocks.contains_key(b2)]
            after.blocks.contains_key(b1) && after.blocks.contains_key(b2) && b1
                != b2 implies after.apart(b1, b2) by {
            assert(self.blocks.contains_key(b1));
            assert(self.blocks.contains_key(b2));
            assert(self.apart(b1, b2));
        }
    }
}

/// A heap of Lean objects.
pub struct Heap {
    layout: HeaderLayout,
    allocator: Allocator,
    mem: Vec<u8>,
    blocks: HashMap<u64, Block>,
    deleted: Vec<u64>,
    heartbeats: u64,
}

impl View for Heap {
    type V = HeapView;

    closed spec fn view(&self) -> HeapView {
        HeapView {
            layout: self.layout,
            allocator: self.allocator,
            mem: self.mem@,
            blocks: self.blocks@,
            deleted: self.deleted@,
            heartbeats: self.heartbeats,
        }
    }
}

impl Heap {
    /// An empty heap with the given header layout and allocator.
    pub fn new(layout: HeaderLayout, allocator: Allocator) -> (heap: Heap)
        ensures
            heap@ == HeapView::empty(layout, allocator),
            heap@.wf(),
    {
        let mut mem: Vec<u8> = Vec::new();
        let mut i: u8 = 0;
        while i < 8
            invariant
                i <= 8,
                mem@ == Seq::new(i as nat, |k: int| 0u8),
            decreases 8 - i,
        {
            mem.push(0);
            i = i + 1;
        }
        Heap { layout, allocator, mem, blocks: HashMap::new(), deleted: Vec::new(), heartbeats: 0 }
    }

    /// The header layout that the heap was made with.
    pub fn layout(&self) -> (layout: HeaderLayout)
        ensures
            layout == self@.layout,
    {
        self.layout
    }

    /// The allocator that the heap was made with.
    pub fn allocator(&self) -> (allocator: Allocator)
        ensures
            allocator == self@.allocator,
    {
        self.allocator
    }

    /// The number of bytes of memory.
    pub fn size(&self) -> (n: u64)
        ensures
            n == self@.mem.len(),
    {
        self.mem.len() as u64
    }

    /// How often the heartbeat entry point was called, modulo 2^64.
    pub fn heartbeats(&self) -> (n: u64)
        ensures
            n == self@.heartbeats,
    {
        self.heartbeats
    }

    /// The objects handed to the deallocation entry point so far, oldest first.
    pub fn deleted(&self) -> (log: Vec<u64>)
        ensures
            log@ == self@.deleted,
    {
        self.deleted.clone()
    }

    /// Whether `o` is the address of an object whose block has not been freed.
    pub fn is_live(&self, o: u64) -> (b: bool)
        ensures
            b == self@.is_live(o),
    {
        broadcast use vstd::std_specs::hash::group_hash_axioms;

        let prefix = self.allocator.prefix_bytes();
        if o < prefix {
            return false;
        }
        let base = o - prefix;
        match self.blocks.get(&base) {
            Some(block) => block.live,
            None => false,
        }
    }

    /// The block that starts at `base`, if the allocator has handed one out there.
    pub fn block(&self, base: u64) -> (found: Option<Block>)
        ensures
            found == (if self@.blocks.contains_key(base) {
                Some(self@.blocks[base])
            } else {
                None
            }),
    {
        broadcast use vstd::std_specs::hash::group_hash_axioms;

        match self.blocks.get(&base) {
            Some(block) => Some(*block),
            None => None,
        }
    }

    /// Adds `n` zero bytes to memory.
    fn extend_zeroed(&mut self, n: u64)
        ensures
            final(self)@ == old(self)@.grow(n as nat),
    {
        let ghost pre = self@;
        let mut i: u64 = 0;
        while i < n
            invariant
                i <= n,
                self@ == pre.grow(i as nat),
            decreases n - i,
        {
            self.mem.push(0);
            i = i + 1;
            assert(self.mem@ =~= pre.mem + Seq::new(i as nat, |k: int| 0u8));
        }
    }

    /// The host's general-purpose allocator: hands out a zeroed block of
    /// `size` bytes at the end of memory and returns its address. Memory stays
    /// a whole number of words.
    pub fn malloc(&mut self, size: u64) -> (base: u64)
        requires
            old(self)@.wf(),
        ensures
            base == old(self)@.next_block(),
            final(self)@ == old(self)@.open_block(size),
            final(self)@.wf(),
    {
        broadcast use vstd::std_specs::hash::group_hash_axioms;

        proof {
            self.lemma_mem_fits();
        }
        let ghost pre = self@;
        let base = self.mem.len() as u64;
        if size == 0 {
            self.extend_zeroed(8);
        } else {
            self.extend_zeroed(size);
            let rest = size % 8;
            if rest != 0 {
                self.extend_zeroed(8 - rest);
            }
        }
        assert(self.mem@ =~= pre.mem + Seq::new(footprint(size) as nat, |k: int| 0u8));
        self.blocks.insert(base, Block { size, live: true });
        proof {
            self.lemma_mem_fits();
            assert(self@ == pre.open_block(size));
            pre.lemma_open_block(size);
        }
        base
    }

    /// The host's small-object allocator: hands out a zeroed block of `sz`
    /// bytes from the size class `slot_idx` and returns its address.
    pub fn lean_alloc_small(&mut self, sz: u32, slot_idx: u32) -> (base: u64)
        requires
            old(self)@.wf(),
            0 < sz <= LEAN_MAX_SMALL_OBJECT_SIZE,
            sz == 8 * (slot_idx + 1),
        ensures
            base == old(self)@.next_block(),
            final(self)@ == old(self)@.open_block(sz as u64),
            final(self)@.wf(),
    {
        self.malloc(sz as u64)
    }

    /// The host's heartbeat entry point: counts one allocation.
    pub fn lean_inc_heartbeat(&mut self)
        ensures
            final(self)@ == old(self)@.tick(),
    {
        self.heartbeats = if self.heartbeats == u64::MAX {
            0
        } else {
            self.heartbeats + 1
        };
    }

    /// The host's deallocation entry point: takes the object at `o` out of
    /// use and records the request. The object's memory and the counts of
    /// what it refers to are left as they are.
    pub fn lean_del(&mut self, o: u64)
        requires
            old(self)@.wf(),
            old(self)@.is_live(o),
        ensures
            final(self)@ == old(self)@.del(o),
            final(self)@.wf(),
    {
        broadcast use vstd::std_specs::hash::group_hash_axioms;

        let ghost pre = self@;
        let base = o - self.allocator.prefix_bytes();
        let size = match self.blocks.get(&base) {
            Some(block) => block.size,
            None => 0,
        };
        self.blocks.insert(base, Block { size, live: false });
        self.deleted.push(o);
        proof {
            assert(self@ == pre.del(o));
            pre.lemma_del_wf(o);
        }
    }

    /// Memory is no longer than the machine can index.
    proof fn lemma_mem_fits(&self)
        ensures
            self.mem@.len() <= usize::MAX,
    {
        assert(self.mem.len() == self.mem@.len());
    }

    /// The byte at `at`.
    pub fn load_u8(&self, at: u64) -> (v: u8)
        requires
            at < self@.mem.len(),
        ensures
            v == self@.mem[at as int],
    {
        proof {
            self.lemma_mem_fits();
        }
        self.mem[at as usize]
    }

    /// Stores one byte at `at`.
    pub fn store_u8(&mut self, at: u64, v: u8)
        requires
            at < old(self)@.mem.len(),
        ensures
            final(self)@ == old(self)@.store_u8(at as int, v),
    {
        proof {
            self.lemma_mem_fits();
        }
        self.mem.set(at as usize, v);
    }

    /// The little-endian 16-bit value at `at`.
    pub fn load_u16(&self, at: u64) -> (v: u16)
        requires
            at + 2 <= self@.mem.len(),
        ensures
            v == read_u16(self@.mem, at as int),
    {
        proof {
            reveal(read_u16);
            self.lemma_mem_fits();
        }
        let b0 = self.mem[at as usize] as u16;
        let b1 = self.mem[(at + 1) as usize] as u16;
        b0 + 0x100 * b1
    }

    /// Stores a 16-bit value at `at`, little-endian.
    pub fn store_u16(&mut self, at: u64, v: u16)
        requires
            at + 2 <= old(self)@.mem.len(),
        ensures
            final(self)@ == old(self)@.store_u16(at as int, v),
    {
        proof {
            self.lemma_mem_fits();
        }
        self.mem.set(at as usize, lean_byte(v as u64, 0));
        self.mem.set((at + 1) as usize, lean_byte(v as u64, 1));
        assert(self.mem@ =~= write_u16(old(self).mem@, at as int, v));
    }

    /// The little-endian word at `at`.
    pub fn load_u64(&self, at: u64) -> (v: u64)
        requires
            at + 8 <= self@.mem.len(),
        ensures
            v == read_u64(self@.mem, at as int),
    {
        proof {
            reveal(read_u64);
            self.lemma_mem_fits();
        }
        let b0 = self.mem[at as usize] as u64;
        let b1 = self.mem[(at + 1) as usize] as u64;
        let b2 = self.mem[(at + 2) as usize] as u64;
        let b3 = self.mem[(at + 3) as usize] as u64;
        let b4 = self.mem[(at + 4) as usize] as u64;
        let b5 = self.mem[(at + 5) as usize] as u64;
        let b6 = self.mem[(at + 6) as usize] as u64;
        let b7 = self.mem[(at + 7) as usize] as u64;
        b0 + 0x100 * b1 + 0x1_0000 * b2 + 0x100_0000 * b3 + 0x1_0000_0000 * b4 + 0x100_0000_0000
            * b5 + 0x1_0000_0000_0000 * b6 + 0x100_0000_0000_0000 * b7
    }

    /// Stores a word at `at`, little-endian.
    pub fn store_u64(&mut self, at: u64, v: u64)
        requires
            at + 8 <= old(self)@.mem.len(),
        ensures
            final(self)@ == old(self)@.store_u64(at as int, v),
    {
        proof {
            self.lemma_mem_fits();
        }
        let mut k: u8 = 0;
        while k < 8
            invariant
                k <= 8,
                at + 8 <= old(self).mem@.len() <= usize::MAX,
                self.mem@.len() == old(self).mem@.len(),
                forall|i: int|
                    0 <= i < self.mem@.len() ==> #[trigger] self.mem@[i] == (if at <= i < at + k {
                        byte_at(v, i - at)
                    } else {
                        old(self).mem@[i]
                    }),
                self.layout == old(self).layout,
                self.allocator == old(self).allocator,
                self.blocks == old(self).blocks,
                self.deleted == old(self).deleted,
                self.heartbeats == old(self).heartbeats,
            decreases 8 - k,
        {
            self.mem.set((at + k as u64) as usize, lean_byte(v, k));
            k = k + 1;
        }
        assert(self.mem@ =~= write_u64(old(self).mem@, at as int, v));
    }
}

} // verus!
