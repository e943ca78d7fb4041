//! The Lean runtime's object protocol: reference counts, constructor objects
//! and their fields, on an explicit [`Heap`].

use crate::lean::heap::{footprint, Heap, HeapView};
use crate::lean::layout::{
    byte_at, is_scalar, lemma_read_u16_local, lemma_read_u64_local, lemma_read_written_u16,
    lemma_read_written_u64, lemma_read_zeros, Allocator, HeaderLayout, Object,
    LEAN_MAX_SMALL_OBJECT_SIZE, LEAN_MT_MEM_KIND, LEAN_OBJECT_SIZE_DELTA, LEAN_ST_MEM_KIND,
};
use libc::{c_uint, size_t};
use vstd::arithmetic::div_mod::{lemma_fundamental_div_mod, lemma_mod_multiples_basic};
use vstd::prelude::*;

verus! {

impl HeapView {
    /// A live object's header lies within memory, at an aligned address that
    /// is not null.
    pub proof fn lemma_object_in_bounds(self, o: u64)
        requires
            self.wf(),
            self.is_object(o),
        ensures
            8 <= o,
            o % 8 == 0,
            o + self.layout.header_size() <= self.mem.len(),
            o + self.capacity(o) <= self.mem.len(),
            !is_scalar(o),
    {
        assert(self.blocks.contains_key(self.base(o)));
        assert(self.block_ok(self.base(o)));
    }

    /// Storing a word keeps the heap well formed.
    pub proof fn lemma_store_wf(self, at: int, v: u64)
        requires
            self.wf(),
        ensures
            self.store_u64(at, v).wf(),
    {
        let after = self.store_u64(at, v);
        assert forall|b: u64| #[trigger] after.blocks.contains_key(b) implies after.block_ok(
            b,
        ) by {
            assert(self.block_ok(b));
        }
    }

    /// Setting a count keeps the heap well formed.
    pub proof fn lemma_with_rc_wf(self, o: u64, n: u64)
        requires
            self.wf(),
        ensures
            self.with_rc(o, n).wf(),
    {
        match self.layout {
            HeaderLayout::Packed => {
                self.lemma_store_wf(
                    o as int,
                    (self.header_word(o) - self.header_word(o) % 0x1_0000_0000 + n) as u64,
                );
            },
            HeaderLayout::Discrete => {
                self.lemma_store_wf(o as int, n);
            },
        }
    }

    /// The count of the object at `o` can be raised: the object is live, not
    /// shared between threads, and its count is below the header's limit.
    pub open spec fn can_inc_ref(self, o: u64) -> bool {
        &&& self.is_object(o)
        &&& !self.is_mt(o)
        &&& self.is_st(o) ==> self.rc(o) < self.layout.max_rc()
    }

    /// The heap after one more reference to the object at `o`. Only a
    /// single-threaded object counts its references.
    pub open spec fn inc_ref(self, o: u64) -> HeapView {
        if self.is_st(o) {
            self.with_rc(o, (self.rc(o) + 1) as u64)
        } else {
            self
        }
    }

    /// The count of the object at `o` can be lowered: the object is live, not
    /// shared between threads, and it has a reference to give up.
    pub open spec fn can_dec_ref(self, o: u64) -> bool {
        &&& self.is_object(o)
        &&& !self.is_mt(o)
        &&& self.is_st(o) ==> self.rc(o) >= 1
    }

    /// The object at `o` is held by its last reference.
    pub open spec fn drops_to_zero(self, o: u64) -> bool {
        self.is_st(o) && self.rc(o) == 1
    }

    /// The heap after one reference to the object at `o` is given up, before
    /// anything is freed.
    pub open spec fn dec_ref_core(self, o: u64) -> HeapView {
        if self.is_st(o) {
            self.with_rc(o, (self.rc(o) - 1) as u64)
        } else {
            self
        }
    }

    /// The heap after one reference to the object at `o` is given up: the
    /// count goes down by one, and the object that loses its last reference is
    /// handed to the deallocation entry point.
    pub open spec fn dec_ref(self, o: u64) -> HeapView {
        if self.drops_to_zero(o) {
            self.dec_ref_core(o).del(o)
        } else {
            self.dec_ref_core(o)
        }
    }

    /// `o` is a scalar, or an object whose count can be raised.
    pub open spec fn can_inc(self, o: u64) -> bool {
        is_scalar(o) || self.can_inc_ref(o)
    }

    /// The heap after one more reference to `o`; a scalar is not counted.
    pub open spec fn inc(self, o: u64) -> HeapView {
        if is_scalar(o) {
            self
        } else {
            self.inc_ref(o)
        }
    }

    /// `o` is a scalar, or an object whose count can be lowered.
    pub open spec fn can_dec(self, o: u64) -> bool {
        is_scalar(o) || self.can_dec_ref(o)
    }

    /// The heap after one reference to `o` is given up; a scalar is not
    /// counted.
    pub open spec fn dec(self, o: u64) -> HeapView {
        if is_scalar(o) {
            self
        } else {
            self.dec_ref(o)
        }
    }

    /// Setting the count changes the count and nothing else in the header.
    pub proof fn lemma_with_rc_object(self, o: u64, n: u64)
        requires
            o + self.layout.header_size() <= self.mem.len(),
            n <= self.layout.max_rc(),
        ensures
            self.with_rc(o, n).object(o) == (Object { rc: n, ..self.object(o) }),
            self.with_rc(o, n).mem.len() == self.mem.len(),
    {
        let h = self.header_word(o);
        match self.layout {
            HeaderLayout::Packed => {
                let w = (h - h % 0x1_0000_0000 + n) as u64;
                assert(n < 0x1_0000_0000 ==> {
                    &&& h - h % 0x1_0000_0000 + n <= 0xffff_ffff_ffff_ffff
                    &&& ((h - h % 0x1_0000_0000 + n) as u64) % 0x1_0000_0000 == n
                    &&& ((h - h % 0x1_0000_0000 + n) as u64) / 0x100_0000_0000 % 256 == h
                        / 0x100_0000_0000 % 256
                    &&& ((h - h % 0x1_0000_0000 + n) as u64) / 0x1_0000_0000_0000 % 256 == h
                        / 0x1_0000_0000_0000 % 256
                    &&& ((h - h % 0x1_0000_0000 + n) as u64) / 0x100_0000_0000_0000 % 256 == h
                        / 0x100_0000_0000_0000 % 256
                }) by (bit_vector);
                lemma_read_written_u64(self.mem, o as int, w);
            },
            HeaderLayout::Discrete => {
                lemma_read_written_u64(self.mem, o as int, n);
                lemma_read_u16_local(self.with_rc(o, n).mem, self.mem, o + 10);
            },
        }
    }
}

impl HeapView {
    /// What lies within an object of a heap is the same in every heap that
    /// extends it: the object is still live there, with the same header and
    /// the same payload.
    pub proof fn lemma_extends_keeps_object(self, pre: HeapView, o: u64)
        requires
            pre.wf(),
            self.extends(pre),
            pre.is_object(o),
        ensures
            self.is_object(o),
            self.capacity(o) == pre.capacity(o),
            self.object(o) == pre.object(o),
            forall|off: int|
                0 <= off && pre.layout.header_size() + off + 8 <= pre.capacity(o)
                    ==> #[trigger] self.scalar_u64(o, off) == pre.scalar_u64(o, off),
    {
        pre.lemma_object_in_bounds(o);
        assert(pre.blocks.contains_key(pre.base(o)));
        lemma_read_u64_local(self.mem, pre.mem, o as int);
        if self.layout == HeaderLayout::Discrete {
            lemma_read_u16_local(self.mem, pre.mem, o + 10);
        }
        assert forall|off: int|
            0 <= off && pre.layout.header_size() + off + 8 <= pre.capacity(o)
                implies #[trigger] self.scalar_u64(o, off) == pre.scalar_u64(o, off) by {
            lemma_read_u64_local(self.mem, pre.mem, pre.payload(o) + off);
        }
    }

    /// Two different live objects share no byte.
    pub proof fn lemma_objects_apart(self, o: u64, p: u64)
        requires
            self.wf(),
            self.is_object(o),
            self.is_object(p),
            o != p,
        ensures
            o + self.capacity(o) <= p || p + self.capacity(p) <= o,
    {
        assert(self.blocks.contains_key(self.base(o)));
        assert(self.blocks.contains_key(self.base(p)));
        assert(self.apart(self.base(o), self.base(p)));
    }

    /// Setting the count of one object leaves every other live object as it
    /// was, header and payload.
    pub proof fn lemma_with_rc_keeps_other(self, o: u64, n: u64, p: u64)
        requires
            self.wf(),
            self.is_object(o),
            self.is_object(p),
            o != p,
        ensures
            self.with_rc(o, n).object(p) == self.object(p),
            forall|off: int|
                0 <= off && self.layout.header_size() + off + 8 <= self.capacity(p)
                    ==> #[trigger] self.with_rc(o, n).scalar_u64(p, off) == self.scalar_u64(
                    p,
                    off,
                ),
    {
        let after = self.with_rc(o, n);
        self.lemma_objects_apart(o, p);
        self.lemma_object_in_bounds(o);
        self.lemma_object_in_bounds(p);
        lemma_read_u64_local(after.mem, self.mem, p as int);
        if self.layout == HeaderLayout::Discrete {
            lemma_read_u16_local(after.mem, self.mem, p + 10);
        }
        assert forall|off: int|
            0 <= off && self.layout.header_size() + off + 8 <= self.capacity(p)
                implies #[trigger] after.scalar_u64(p, off) == self.scalar_u64(p, off) by {
            lemma_read_u64_local(after.mem, self.mem, self.payload(p) + off);
        }
    }

    /// Giving up a reference to one object leaves every other live object as
    /// it was: still live, with the same header and payload.
    pub proof fn lemma_dec_ref_keeps_other(self, o: u64, p: u64)
        requires
            self.wf(),
            self.can_dec_ref(o),
            self.is_object(p),
            o != p,
        ensures
            self.dec_ref(o).is_object(p),
            self.dec_ref(o).capacity(p) == self.capacity(p),
            self.dec_ref(o).object(p) == self.object(p),
            forall|off: int|
                0 <= off && self.layout.header_size() + off + 8 <= self.capacity(p)
                    ==> #[trigger] self.dec_ref(o).scalar_u64(p, off) == self.scalar_u64(p, off),
    {
        let n = (self.rc(o) - 1) as u64;
        self.lemma_with_rc_keeps_other(o, n, p);
        assert forall|off: int|
            0 <= off && self.layout.header_size() + off + 8 <= self.capacity(p)
                implies #[trigger] self.dec_ref(o).scalar_u64(p, off) == self.scalar_u64(
            p,
            off,
        ) by {
            assert(self.with_rc(o, n).scalar_u64(p, off) == self.scalar_u64(p, off));
        }
    }

    /// One more reference to one object leaves every other live object as it
    /// was: still live, with the same header and payload.
    pub proof fn lemma_inc_ref_keeps_other(self, o: u64, p: u64)
        requires
            self.wf(),
            self.can_inc_ref(o),
            self.is_object(p),
            o != p,
        ensures
            self.inc_ref(o).is_object(p),
            self.inc_ref(o).capacity(p) == self.capacity(p),
            self.inc_ref(o).object(p) == self.object(p),
            forall|off: int|
                0 <= off && self.layout.header_size() + off + 8 <= self.capacity(p)
                    ==> #[trigger] self.inc_ref(o).scalar_u64(p, off) == self.scalar_u64(p, off),
    {
        let n = (self.rc(o) + 1) as u64;
        self.lemma_with_rc_keeps_other(o, n, p);
        assert forall|off: int|
            0 <= off && self.layout.header_size() + off + 8 <= self.capacity(p)
                implies #[trigger] self.inc_ref(o).scalar_u64(p, off) == self.scalar_u64(
            p,
            off,
        ) by {
            assert(self.with_rc(o, n).scalar_u64(p, off) == self.scalar_u64(p, off));
        }
    }
}

/// Whether `o` is an unboxed scalar rather than an address: its lowest bit
/// is set.
pub fn lean_is_scalar(o: u64) -> (b: bool)
    ensures
        b == is_scalar(o),
{
    assert((o & 1) == 1 <==> o % 2 == 1) by (bit_vector);
    (o & 1) == 1
}

/// Boxes the number `n` as a scalar: a reference that is the number itself,
/// marked by a set lowest bit. The number has at most 63 bits.
pub fn lean_box(n: u64) -> (o: u64)
    requires
        n <= 0x7fff_ffff_ffff_ffff,
    ensures
        o == 2 * n + 1,
        is_scalar(o),
{
    assert(n <= 0x7fff_ffff_ffff_ffff ==> (n << 1) | 1 == 2 * n + 1) by (bit_vector);
    (n << 1) | 1
}

/// The number that the scalar `o` stands for.
pub fn lean_unbox(o: u64) -> (n: u64)
    ensures
        n == o / 2,
{
    assert(o >> 1 == o / 2) by (bit_vector);
    o >> 1
}

/// Byte `idx` of `v`, counting from the least significant.
pub fn lean_byte(v: u64, idx: u8) -> (b: u8)
    requires
        idx < 8,
    ensures
        b == byte_at(v, idx as int),
{
    assert((v >> 0u64) as u8 == ((v / 0x1) % 256) as u8) by (bit_vector);
    assert((v >> 8u64) as u8 == ((v / 0x100) % 256) as u8) by (bit_vector);
    assert((v >> 16u64) as u8 == ((v / 0x1_0000) % 256) as u8) by (bit_vector);
    assert((v >> 24u64) as u8 == ((v / 0x100_0000) % 256) as u8) by (bit_vector);
    assert((v >> 32u64) as u8 == ((v / 0x1_0000_0000) % 256) as u8) by (bit_vector);
    assert((v >> 40u64) as u8 == ((v / 0x100_0000_0000) % 256) as u8) by (bit_vector);
    assert((v >> 48u64) as u8 == ((v / 0x1_0000_0000_0000) % 256) as u8) by (bit_vector);
    assert((v >> 56u64) as u8 == ((v / 0x100_0000_0000_0000) % 256) as u8) by (bit_vector);
    #[verifier::truncate]
    ((v >> ((8 * idx) as u64)) as u8)
}

/// The header of the object at `o`, decoded.
pub fn lean_object(heap: &Heap, o: u64) -> (obj: Object)
    requires
        heap@.wf(),
        heap@.is_object(o),
    ensures
        obj == heap@.object(o),
{
    proof {
        heap@.lemma_object_in_bounds(o);
    }
    let word = heap.load_u64(o);
    match heap.layout() {
        HeaderLayout::Packed => Object::unpack(word),
        HeaderLayout::Discrete => Object {
            rc: word,
            tag: heap.load_u8(o + 8),
            mem_kind: heap.load_u8(o + 9),
            other: heap.load_u16(o + 10),
        },
    }
}

/// The tag of the object at `o`: which constructor built it.
pub fn lean_ptr_tag(heap: &Heap, o: u64) -> (tag: u8)
    requires
        heap@.wf(),
        heap@.is_object(o),
    ensures
        tag == heap@.tag(o),
{
    proof {
        heap@.lemma_object_in_bounds(o);
    }
    match heap.layout() {
        HeaderLayout::Packed => lean_byte(heap.load_u64(o), 7),
        HeaderLayout::Discrete => heap.load_u8(o + 8),
    }
}

/// The memory kind of the object at `o`.
fn lean_mem_kind(heap: &Heap, o: u64) -> (kind: u8)
    requires
        heap@.wf(),
        heap@.is_object(o),
    ensures
        kind == heap@.object(o).mem_kind,
{
    proof {
        heap@.lemma_object_in_bounds(o);
    }
    match heap.layout() {
        HeaderLayout::Packed => lean_byte(heap.load_u64(o), 5),
        HeaderLayout::Discrete => heap.load_u8(o + 9),
    }
}

/// Whether the object at `o` belongs to one thread.
pub fn lean_is_st(heap: &Heap, o: u64) -> (b: bool)
    requires
        heap@.wf(),
        heap@.is_object(o),
    ensures
        b == heap@.is_st(o),
{
    lean_mem_kind(heap, o) == LEAN_ST_MEM_KIND
}

/// Whether the object at `o` is shared between threads.
pub fn lean_is_mt(heap: &Heap, o: u64) -> (b: bool)
    requires
        heap@.wf(),
        heap@.is_object(o),
    ensures
        b == heap@.is_mt(o),
{
    lean_mem_kind(heap, o) == LEAN_MT_MEM_KIND
}

/// Counts one more reference to the object at `o`. An object that is neither
/// single-threaded nor shared keeps no count and is left as it is.
pub fn lean_inc_ref(heap: &mut Heap, o: u64)
    requires
        old(heap)@.wf(),
        old(heap)@.can_inc_ref(o),
    ensures
        final(heap)@ == old(heap)@.inc_ref(o),
        final(heap)@.wf(),
        old(heap)@.is_st(o) ==> final(heap)@.object(o) == (Object {
            rc: (old(heap)@.rc(o) + 1) as u64,
            ..old(heap)@.object(o)
        }),
{
    proof {
        heap@.lemma_object_in_bounds(o);
    }
    if lean_is_st(heap, o) {
        let word = heap.load_u64(o);
        proof {
            heap@.lemma_with_rc_object(o, (heap@.rc(o) + 1) as u64);
            heap@.lemma_store_wf(o as int, (word + 1) as u64);
        }
        heap.store_u64(o, word + 1);
    }
}

/// Gives up one reference to the object at `o` and says whether it was the
/// last one. An object that is neither single-threaded nor shared keeps no
/// count: it is left as it is, and the answer is no.
pub fn lean_dec_ref_core(heap: &mut Heap, o: u64) -> (last: bool)
    requires
        old(heap)@.wf(),
        old(heap)@.can_dec_ref(o),
    ensures
        last == old(heap)@.drops_to_zero(o),
        final(heap)@ == old(heap)@.dec_ref_core(o),
        final(heap)@.wf(),
        old(heap)@.is_st(o) ==> final(heap)@.object(o) == (Object {
            rc: (old(heap)@.rc(o) - 1) as u64,
            ..old(heap)@.object(o)
        }),
{
    proof {
        heap@.lemma_object_in_bounds(o);
    }
    if lean_is_st(heap, o) {
        let word = heap.load_u64(o);
        proof {
            heap@.lemma_with_rc_object(o, (heap@.rc(o) - 1) as u64);
            heap@.lemma_store_wf(o as int, (word - 1) as u64);
        }
        heap.store_u64(o, word - 1);
        match heap.layout() {
            HeaderLayout::Packed => {
                assert(((word - 1) as u64 & 0xffff_ffff) == (word - 1) as u64 % 0x1_0000_0000)
                    by (bit_vector)
                    requires
                        word >= 1,
                ;
                ((word - 1) & 0xffff_ffff) == 0
            },
            HeaderLayout::Discrete => word - 1 == 0,
        }
    } else {
        false
    }
}

/// Gives up one reference to the object at `o`, and hands the object to the
/// deallocation entry point if that was its last reference.
pub fn lean_dec_ref(heap: &mut Heap, o: u64)
    requires
        old(heap)@.wf(),
        old(heap)@.can_dec_ref(o),
    ensures
        final(heap)@ == old(heap)@.dec_ref(o),
        final(heap)@.wf(),
        old(heap)@.is_st(o) ==> final(heap)@.object(o) == (Object {
            rc: (old(heap)@.rc(o) - 1) as u64,
            ..old(heap)@.object(o)
        }),
        old(heap)@.drops_to_zero(o) ==> final(heap)@.deleted == old(heap)@.deleted.push(o)
            && !final(heap)@.is_live(o),
        !old(heap)@.drops_to_zero(o) ==> final(heap)@.deleted == old(heap)@.deleted
            && final(heap)@.blocks == old(heap)@.blocks,
{
    if lean_dec_ref_core(heap, o) {
        heap.lean_del(o);
    }
}

/// Counts one more reference to `o`, unless `o` is a scalar.
pub fn lean_inc(heap: &mut Heap, o: u64)
    requires
        old(heap)@.wf(),
        old(heap)@.can_inc(o),
    ensures
        final(heap)@ == old(heap)@.inc(o),
        final(heap)@.wf(),
        is_scalar(o) ==> final(heap)@ == old(heap)@,
        !is_scalar(o) && old(heap)@.is_st(o) ==> final(heap)@.object(o) == (Object {
            rc: (old(heap)@.rc(o) + 1) as u64,
            ..old(heap)@.object(o)
        }),
{
    if !lean_is_scalar(o) {
        lean_inc_ref(heap, o);
    }
}

/// Gives up one reference to `o`, unless `o` is a scalar.
pub fn lean_dec(heap: &mut Heap, o: u64)
    requires
        old(heap)@.wf(),
        old(heap)@.can_dec(o),
    ensures
        final(heap)@ == old(heap)@.dec(o),
        final(heap)@.wf(),
        is_scalar(o) ==> final(heap)@ == old(heap)@,
        !is_scalar(o) && old(heap)@.is_st(o) ==> final(heap)@.object(o) == (Object {
            rc: (old(heap)@.rc(o) - 1) as u64,
            ..old(heap)@.object(o)
        }),
        !is_scalar(o) && old(heap)@.drops_to_zero(o) ==> final(heap)@.deleted == old(
            heap,
        )@.deleted.push(o) && !final(heap)@.is_live(o),
        is_scalar(o) || !old(heap)@.drops_to_zero(o) ==> final(heap)@.deleted == old(
            heap,
        )@.deleted && final(heap)@.blocks == old(heap)@.blocks,
{
    if !lean_is_scalar(o) {
        lean_dec_ref(heap, o);
    }
}

/// `v` rounded up to a multiple of `a`.
pub open spec fn align_up(v: int, a: int) -> int {
    (v + a - 1) / a * a
}

impl HeapView {
    /// The address of the next object that the allocator hands out.
    pub open spec fn next_object(self) -> u64 {
        (self.mem.len() + self.allocator.prefix()) as u64
    }

    /// The heap after memory for an object of `sz` bytes is taken from the
    /// allocator. The small-object allocator rounds the size up to its size
    /// class. The general-purpose allocator counts a heartbeat and keeps the
    /// size in the word before the object.
    pub open spec fn alloc_object(self, sz: u32) -> HeapView {
        match self.allocator {
            Allocator::Small => self.open_block(align_up(sz as int, 8) as u64),
            Allocator::Generic => self.tick().open_block((8 + sz) as u64).store_u64(
                self.mem.len() as int,
                sz as u64,
            ),
        }
    }

    /// Whether the allocator serves an object of `sz` bytes: the small-object
    /// allocator has no size class for an empty block, nor for one above its
    /// limit.
    pub open spec fn can_alloc(self, sz: u32) -> bool {
        self.allocator == Allocator::Small ==> 0 < sz && align_up(sz as int, 8)
            <= LEAN_MAX_SMALL_OBJECT_SIZE
    }

    /// The bytes that a constructor object takes: its header, a word for each
    /// field, and its scalars.
    pub open spec fn ctor_size(self, num_objs: u32, scalar_sz: u32) -> int {
        self.layout.header_size() + 8 * num_objs + scalar_sz
    }

    /// Whether a constructor object of this shape can be made: tag and field
    /// count fit the header, the size fits 32 bits, and the allocator serves it.
    pub open spec fn can_alloc_ctor(self, tag: u32, num_objs: u32, scalar_sz: u32) -> bool {
        &&& tag <= 0xff
        &&& num_objs <= self.layout.max_other()
        &&& self.ctor_size(num_objs, scalar_sz) <= u32::MAX
        &&& self.can_alloc(self.ctor_size(num_objs, scalar_sz) as u32)
    }

    /// The heap after a constructor object is made: a zeroed block with a
    /// fresh single-threaded header.
    pub open spec fn alloc_ctor(self, tag: u32, num_objs: u32, scalar_sz: u32) -> HeapView {
        self.alloc_object(self.ctor_size(num_objs, scalar_sz) as u32).set_st_header(
            self.next_object(),
            tag as u8,
            num_objs as u16,
        )
    }

    /// The address space has room for one more object of `sz` bytes.
    pub open spec fn has_room(self, sz: u32) -> bool {
        match self.allocator {
            Allocator::Small => self.fits(align_up(sz as int, 8) as u64),
            Allocator::Generic => self.fits((8 + sz) as u64),
        }
    }

    /// Memory taken for an object is new and zeroed, and lies behind all that
    /// the heap held, which stays as it was.
    pub proof fn lemma_alloc_object(self, sz: u32)
        requires
            self.wf(),
            self.can_alloc(sz),
            self.has_room(sz),
        ensures
            self.alloc_object(sz).wf(),
            self.alloc_object(sz).extends(self),
            self.alloc_object(sz).is_live(self.next_object()),
            !self.blocks.contains_key(self.base(self.next_object())),
            sz <= self.alloc_object(sz).capacity(self.next_object()),
            self.next_object() + self.alloc_object(sz).capacity(self.next_object())
                <= self.alloc_object(sz).mem.len(),
            forall|i: int|
                self.next_object() <= i < self.next_object() + self.alloc_object(sz).capacity(
                    self.next_object(),
                ) ==> self.alloc_object(sz).mem[i] == 0,
    {
        match self.allocator {
            Allocator::Small => {
                self.lemma_open_block(align_up(sz as int, 8) as u64);
            },
            Allocator::Generic => {
                let opened = self.tick().open_block((8 + sz) as u64);
                self.tick().lemma_open_block((8 + sz) as u64);
                opened.lemma_store_wf(self.mem.len() as int, sz as u64);
            },
        }
    }

    /// A constructor object that has just been made is live, alone in new
    /// memory, and holds a fresh header and zeros.
    pub proof fn lemma_alloc_ctor(self, tag: u32, num_objs: u32, scalar_sz: u32)
        requires
            self.wf(),
            self.can_alloc_ctor(tag, num_objs, scalar_sz),
            self.has_room(self.ctor_size(num_objs, scalar_sz) as u32),
        ensures
            self.alloc_ctor(tag, num_objs, scalar_sz).wf(),
            self.alloc_ctor(tag, num_objs, scalar_sz).extends(self),
            self.alloc_ctor(tag, num_objs, scalar_sz).is_object(self.next_object()),
            !self.blocks.contains_key(self.base(self.next_object())),
            self.ctor_size(num_objs, scalar_sz) <= self.alloc_ctor(
                tag,
                num_objs,
                scalar_sz,
            ).capacity(self.next_object()),
            self.alloc_ctor(tag, num_objs, scalar_sz).object(self.next_object()) == (Object {
                rc: 1,
                tag: tag as u8,
                mem_kind: LEAN_ST_MEM_KIND,
                other: num_objs as u16,
            }),
            forall|i: int|
                self.payload(self.next_object()) <= i < self.next_object() + self.alloc_ctor(
                    tag,
                    num_objs,
                    scalar_sz,
                ).capacity(self.next_object()) ==> self.alloc_ctor(tag, num_objs, scalar_sz).mem[i]
                    == 0,
    {
        let sz = self.ctor_size(num_objs, scalar_sz) as u32;
        let o = self.next_object();
        let fresh = self.alloc_object(sz);
        let after = self.alloc_ctor(tag, num_objs, scalar_sz);
        self.lemma_alloc_object(sz);
        fresh.lemma_set_st_header_object(o, tag as u8, num_objs as u16);
        assert forall|b: u64| #[trigger] after.blocks.contains_key(b) implies after.block_ok(
            b,
        ) by {
            assert(fresh.block_ok(b));
        }
    }

    /// A box holds the scalar that was boxed.
    pub proof fn lemma_box_uint64(self, v: u64)
        requires
            self.wf(),
            self.has_room(self.ctor_size(0, 8) as u32),
        ensures
            self.box_uint64(v).wf(),
            self.box_uint64(v).extends(self),
            self.box_uint64(v).is_object(self.next_object()),
            self.box_uint64(v).has_scalar(self.next_object(), 0, 8),
            self.box_uint64(v).scalar_u64(self.next_object(), 0) == v,
    {
        let o = self.next_object();
        let made = self.alloc_ctor(0, 0, 8);
        self.lemma_alloc_ctor(0, 0, 8);
        made.lemma_object_in_bounds(o);
        made.lemma_store_wf(made.payload(o), v);
        made.lemma_store_keeps_object(o, made.payload(o), v);
        lemma_read_written_u64(made.mem, made.payload(o), v);
    }

    /// The object at `o` is a constructor object with a field `i`.
    pub open spec fn has_child(self, o: u64, i: int) -> bool {
        &&& self.is_object(o)
        &&& 0 <= i < self.other(o)
        &&& self.layout.header_size() + 8 * (i + 1) <= self.capacity(o)
    }

    /// The object at `o` has `width` bytes of scalar payload at byte offset
    /// `off`, behind its fields.
    pub open spec fn has_scalar(self, o: u64, off: int, width: int) -> bool {
        &&& self.is_object(o)
        &&& 8 * self.other(o) <= off
        &&& self.layout.header_size() + off + width <= self.capacity(o)
    }

    /// The heap after `v` is boxed: a constructor object without fields whose
    /// scalar payload is `v`.
    pub open spec fn box_uint64(self, v: u64) -> HeapView {
        self.alloc_ctor(0, 0, 8).set_scalar_u64(self.next_object(), 0, v)
    }

    /// A store of a word beyond the header of the object at `o` leaves the
    /// header as it was.
    pub proof fn lemma_store_keeps_object(self, o: u64, at: int, v: u64)
        requires
            o + self.layout.header_size() <= at || at + 8 <= o,
            0 <= at,
            o + self.layout.header_size() <= self.mem.len(),
        ensures
            self.store_u64(at, v).object(o) == self.object(o),
    {
        let after = self.store_u64(at, v);
        lemma_read_u64_local(after.mem, self.mem, o as int);
        if self.layout == HeaderLayout::Discrete {
            lemma_read_u16_local(after.mem, self.mem, o + 10);
        }
    }

    /// A fresh header reads back as it was written.
    pub proof fn lemma_set_st_header_object(self, o: u64, tag: u8, other: u16)
        requires
            o + self.layout.header_size() <= self.mem.len(),
            other <= self.layout.max_other(),
        ensures
            self.set_st_header(o, tag, other).object(o) == (Object {
                rc: 1,
                tag,
                mem_kind: LEAN_ST_MEM_KIND,
                other,
            }),
            self.set_st_header(o, tag, other).mem.len() == self.mem.len(),
            forall|i: int|
                0 <= i < self.mem.len() && !(o <= i < o + self.layout.header_size())
                    ==> self.set_st_header(o, tag, other).mem[i] == self.mem[i],
    {
        let after = self.set_st_header(o, tag, other);
        match self.layout {
            HeaderLayout::Packed => {
                Object::lemma_packed_st_unpacks(tag, other);
                lemma_read_written_u64(
                    self.mem,
                    o as int,
                    Object::packed_st(tag, other) as u64,
                );
            },
            HeaderLayout::Discrete => {
                let m1 = self.store_u64(o as int, 1);
                let m2 = m1.store_u8(o + 8, tag);
                let m3 = m2.store_u8(o + 9, LEAN_ST_MEM_KIND);
                lemma_read_written_u64(self.mem, o as int, 1);
                lemma_read_u64_local(after.mem, m1.mem, o as int);
                lemma_read_written_u16(m3.mem, o + 10, other);
            },
        }
    }
}

/// Rounds `v` up to a multiple of `a`.
pub fn lean_align(v: size_t, a: size_t) -> (r: size_t)
    requires
        a > 0,
        v + a <= usize::MAX,
    ensures
        r == align_up(v as int, a as int),
        r % a == 0,
        v <= r < v + a,
{
    proof {
        let x = v + a - 1;
        lemma_fundamental_div_mod(x, a as int);
        lemma_mod_multiples_basic(x / (a as int), a as int);
        assert(a * (x / (a as int)) == (x / (a as int)) * a) by (nonlinear_arith);
        assert(0 <= x % (a as int) < a);
    }
    ((v + a - 1) / a) * a
}

/// The size class of a block of `sz` bytes in the small-object allocator.
/// The size is a multiple of the allocator's granularity, and not zero.
pub fn lean_get_slot_idx(sz: c_uint) -> (idx: c_uint)
    requires
        sz > 0,
        sz % 8 == 0,
    ensures
        idx == sz / 8 - 1,
        sz == 8 * (idx + 1),
{
    (sz as size_t / LEAN_OBJECT_SIZE_DELTA - 1) as c_uint
}

/// Takes memory for an object of `sz` bytes from the heap's allocator and
/// returns the object's address. The memory is zeroed.
pub fn lean_alloc_small_object(heap: &mut Heap, sz: c_uint) -> (o: u64)
    requires
        old(heap)@.wf(),
        old(heap)@.can_alloc(sz),
    ensures
        o == old(heap)@.next_object(),
        final(heap)@ == old(heap)@.alloc_object(sz),
        final(heap)@.wf(),
        final(heap)@.extends(old(heap)@),
        final(heap)@.is_live(o),
        !old(heap)@.blocks.contains_key(final(heap)@.base(o)),
        sz <= final(heap)@.capacity(o),
        forall|i: int| o <= i < o + final(heap)@.capacity(o) ==> final(heap)@.mem[i] == 0,
{
    let ghost pre = heap@;
    match heap.allocator() {
        Allocator::Small => {
            let sz = lean_align(sz as usize, LEAN_OBJECT_SIZE_DELTA);
            let slot_idx = lean_get_slot_idx(sz as c_uint);
            let o = heap.lean_alloc_small(sz as c_uint, slot_idx);
            proof {
                assert(footprint(sz as u64) == sz);
                assert(!pre.blocks.contains_key(o)) by {
                    if pre.blocks.contains_key(o) {
                        assert(pre.block_ok(o));
                    }
                }
            }
            o
        },
        Allocator::Generic => {
            heap.lean_inc_heartbeat();
            let mem = heap.malloc(8 + sz as u64);
            proof {
                heap@.lemma_store_wf(mem as int, sz as u64);
                assert(!pre.blocks.contains_key(mem)) by {
                    if pre.blocks.contains_key(mem) {
                        assert(pre.block_ok(mem));
                    }
                }
            }
            heap.store_u64(mem, sz as u64);
            mem + 8
        },
    }
}

/// Takes memory for a constructor object of `sz` bytes.
pub fn lean_alloc_ctor_memory(heap: &mut Heap, sz: c_uint) -> (o: u64)
    requires
        old(heap)@.wf(),
        old(heap)@.can_alloc(sz),
    ensures
        o == old(heap)@.next_object(),
        final(heap)@ == old(heap)@.alloc_object(sz),
        final(heap)@.wf(),
        final(heap)@.extends(old(heap)@),
        final(heap)@.is_live(o),
        !old(heap)@.blocks.contains_key(final(heap)@.base(o)),
        sz <= final(heap)@.capacity(o),
        forall|i: int| o <= i < o + final(heap)@.capacity(o) ==> final(heap)@.mem[i] == 0,
{
    lean_alloc_small_object(heap, sz)
}

/// Writes the header of a fresh single-threaded object at `o`: count one,
/// the given tag and field count.
pub fn lean_set_st_header(heap: &mut Heap, o: u64, tag: u8, other: u16)
    requires
        old(heap)@.wf(),
        old(heap)@.is_object(o),
        other <= old(heap)@.layout.max_other(),
    ensures
        final(heap)@ == old(heap)@.set_st_header(o, tag, other),
        final(heap)@.wf(),
        final(heap)@.object(o) == (Object { rc: 1, tag, mem_kind: LEAN_ST_MEM_KIND, other }),
        final(heap)@.mem.len() == old(heap)@.mem.len(),
        forall|i: int|
            0 <= i < old(heap)@.mem.len() && !(o <= i < o + old(heap)@.layout.header_size())
                ==> final(heap)@.mem[i] == old(heap)@.mem[i],
{
    proof {
        heap@.lemma_object_in_bounds(o);
        heap@.lemma_set_st_header_object(o, tag, other);
    }
    match heap.layout() {
        HeaderLayout::Packed => {
            heap.store_u64(o, Object::pack_st(tag, other));
        },
        HeaderLayout::Discrete => {
            heap.store_u64(o, 1);
            heap.store_u8(o + 8, tag);
            heap.store_u8(o + 9, LEAN_ST_MEM_KIND);
            heap.store_u16(o + 10, other);
        },
    }
    proof {
        let after = heap@;
        assert forall|b: u64| #[trigger] after.blocks.contains_key(b) implies after.block_ok(
            b,
        ) by {
            assert(old(heap)@.block_ok(b));
        }
    }
}

/// Makes a constructor object with room for `num_objs` fields and
/// `scalar_sz` bytes of scalars, and returns its address. Fields and scalars
/// are zero; the caller holds the object's one reference.
pub fn lean_alloc_ctor(heap: &mut Heap, tag: c_uint, num_objs: c_uint, scalar_sz: c_uint) -> (o:
    u64)
    requires
        old(heap)@.wf(),
        old(heap)@.can_alloc_ctor(tag, num_objs, scalar_sz),
    ensures
        o == old(heap)@.next_object(),
        final(heap)@ == old(heap)@.alloc_ctor(tag, num_objs, scalar_sz),
        final(heap)@.wf(),
        final(heap)@.extends(old(heap)@),
        final(heap)@.is_object(o),
        !old(heap)@.blocks.contains_key(final(heap)@.base(o)),
        final(heap)@.ctor_size(num_objs, scalar_sz) <= final(heap)@.capacity(o),
        final(heap)@.object(o) == (Object {
            rc: 1,
            tag: tag as u8,
            mem_kind: LEAN_ST_MEM_KIND,
            other: num_objs as u16,
        }),
        forall|i: int|
            final(heap)@.payload(o) <= i < o + final(heap)@.capacity(o) ==> final(heap)@.mem[i]
                == 0,
        forall|i: int| 0 <= i < num_objs ==> #[trigger] final(heap)@.child(o, i) == 0,
{
    let o = lean_alloc_ctor_memory(
        heap,
        heap.layout().header_bytes() + num_objs * 8 + scalar_sz,
    );
    lean_set_st_header(heap, o, tag as u8, num_objs as u16);
    proof {
        assert forall|i: int| 0 <= i < num_objs implies #[trigger] heap@.child(o, i) == 0 by {
            lemma_read_zeros(heap@.mem, heap@.payload(o) + 8 * i);
        }
    }
    o
}

/// The address of the payload of the object at `o`: one header past the
/// object's own address.
pub fn lean_ctor_obj_cptr(heap: &Heap, o: u64) -> (p: u64)
    requires
        o + heap@.layout.header_size() <= u64::MAX,
    ensures
        p == heap@.payload(o),
{
    o + heap.layout().header_bytes() as u64
}

/// Field `i` of the constructor object at `o`.
pub fn lean_ctor_get(heap: &Heap, o: u64, i: isize) -> (v: u64)
    requires
        heap@.wf(),
        heap@.has_child(o, i as int),
    ensures
        v == heap@.child(o, i as int),
{
    proof {
        heap@.lemma_object_in_bounds(o);
    }
    let a = lean_ctor_obj_cptr(heap, o);
    heap.load_u64(a + 8 * (i as u64))
}

/// Stores `v` as field `i` of the constructor object at `o`.
pub fn lean_ctor_set(heap: &mut Heap, o: u64, i: isize, v: u64)
    requires
        old(heap)@.wf(),
        old(heap)@.has_child(o, i as int),
    ensures
        final(heap)@ == old(heap)@.set_child(o, i as int, v),
        final(heap)@.wf(),
        final(heap)@.child(o, i as int) == v,
        final(heap)@.object(o) == old(heap)@.object(o),
        final(heap)@.mem.len() == old(heap)@.mem.len(),
        forall|j: int|
            0 <= j < old(heap)@.mem.len() && !(old(heap)@.payload(o) + 8 * i <= j < old(
                heap,
            )@.payload(o) + 8 * i + 8) ==> final(heap)@.mem[j] == old(heap)@.mem[j],
{
    proof {
        heap@.lemma_object_in_bounds(o);
    }
    let a = lean_ctor_obj_cptr(heap, o);
    proof {
        let at = a + 8 * i;
        heap@.lemma_store_wf(at, v);
        heap@.lemma_store_keeps_object(o, at, v);
        lemma_read_written_u64(heap@.mem, at, v);
    }
    heap.store_u64(a + 8 * (i as u64), v);
}

/// Stores `v` in the scalar payload of the object at `o`, at byte offset
/// `offset` from the start of the payload.
pub fn lean_ctor_set_uint64(heap: &mut Heap, o: u64, offset: c_uint, v: u64)
    requires
        old(heap)@.wf(),
        old(heap)@.has_scalar(o, offset as int, 8),
    ensures
        final(heap)@ == old(heap)@.set_scalar_u64(o, offset as int, v),
        final(heap)@.wf(),
        final(heap)@.scalar_u64(o, offset as int) == v,
        final(heap)@.object(o) == old(heap)@.object(o),
        final(heap)@.mem.len() == old(heap)@.mem.len(),
        forall|j: int|
            0 <= j < old(heap)@.mem.len() && !(old(heap)@.payload(o) + offset <= j < old(
                heap,
            )@.payload(o) + offset + 8) ==> final(heap)@.mem[j] == old(heap)@.mem[j],
{
    proof {
        heap@.lemma_object_in_bounds(o);
    }
    let p = lean_ctor_obj_cptr(heap, o);
    proof {
        let at = p + offset;
        heap@.lemma_store_wf(at, v);
        heap@.lemma_store_keeps_object(o, at, v);
        lemma_read_written_u64(heap@.mem, at, v);
    }
    heap.store_u64(p + offset as u64, v);
}

/// The 64-bit scalar in the payload of the object at `o`, at byte offset
/// `offset` from the start of the payload.
pub fn lean_ctor_get_uint64(heap: &Heap, o: u64, offset: c_uint) -> (v: u64)
    requires
        heap@.wf(),
        heap@.has_scalar(o, offset as int, 8),
    ensures
        v == heap@.scalar_u64(o, offset as int),
{
    proof {
        heap@.lemma_object_in_bounds(o);
    }
    let p = lean_ctor_obj_cptr(heap, o);
    heap.load_u64(p + offset as u64)
}

/// Boxes `v`: makes an object that holds nothing but the scalar, and returns
/// its address.
pub fn lean_box_uint64(heap: &mut Heap, v: u64) -> (o: u64)
    requires
        old(heap)@.wf(),
    ensures
        o == old(heap)@.next_object(),
        final(heap)@ == old(heap)@.box_uint64(v),
        final(heap)@.wf(),
        final(heap)@.extends(old(heap)@),
        final(heap)@.is_object(o),
        !old(heap)@.blocks.contains_key(final(heap)@.base(o)),
        final(heap)@.object(o) == (Object { rc: 1, tag: 0, mem_kind: LEAN_ST_MEM_KIND, other: 0 }),
        final(heap)@.has_scalar(o, 0, 8),
        final(heap)@.scalar_u64(o, 0) == v,
{
    let r = lean_alloc_ctor(heap, 0, 0, 8);
    lean_ctor_set_uint64(heap, r, 0, v);
    r
}

/// The scalar that the box at `o` holds.
pub fn lean_unbox_uint64(heap: &Heap, o: u64) -> (v: u64)
    requires
        heap@.wf(),
        heap@.has_scalar(o, 0, 8),
    ensures
        v == heap@.scalar_u64(o, 0),
{
    lean_ctor_get_uint64(heap, o, 0)
}

} // verus!
