//! What holds of handles and reference counts, whatever the heap.

use crate::lean::estatem::{RESULT_ERROR_TAG, RESULT_OK_TAG};
use crate::lean::heap::HeapView;
use crate::lean::layout::{
    is_scalar, lemma_read_u64_local, lemma_read_written_u64, lemma_write_read_u64,
    lemma_write_written_u64, HeaderLayout, Object,
};
use crate::lean::{LeanObject, LeanRepr, Slot};
use vstd::prelude::*;

verus! {

/// A handle hands back the reference that it took over. Taking a reference
/// over and handing it back involve no heap, so no count changes.
pub proof fn lemma_acquire_release<T>(handle: LeanRepr<T>, o: u64)
    requires
        handle.slot() == Slot::Owned(o),
    ensures
        handle.is_owned(),
        handle.ptr() == o,
{
}

/// Giving up a reference to a single-threaded object lowers its count by
/// exactly one and leaves the rest of its header. The object goes to the
/// deallocation entry point if and only if that was its last reference, and
/// then exactly once.
pub proof fn lemma_drop_gives_up_one(heap: HeapView, o: u64)
    requires
        heap.wf(),
        !is_scalar(o),
        heap.can_dec(o),
        heap.is_st(o),
    ensures
        heap.dec(o).wf(),
        heap.dec(o).object(o) == (Object { rc: (heap.rc(o) - 1) as u64, ..heap.object(o) }),
        heap.rc(o) == 1 ==> heap.dec(o).deleted == heap.deleted.push(o) && !heap.dec(o).is_live(o),
        heap.rc(o) > 1 ==> heap.dec(o).deleted == heap.deleted && heap.dec(o).is_live(o),
{
    let n = (heap.rc(o) - 1) as u64;
    heap.lemma_object_in_bounds(o);
    heap.lemma_with_rc_object(o, n);
    heap.lemma_with_rc_wf(o, n);
    if heap.rc(o) == 1 {
        heap.dec_ref_core(o).lemma_del_wf(o);
    }
}

/// A second handle on a single-threaded object raises its count by exactly
/// one. When either handle is then dropped, the heap is again as it was
/// before the second handle was made: the other handle finds its object
/// untouched.
pub proof fn lemma_clone_then_drop(heap: HeapView, o: u64)
    requires
        heap.wf(),
        !is_scalar(o),
        heap.can_inc(o),
        heap.is_st(o),
        heap.rc(o) >= 1,
    ensures
        heap.inc(o).wf(),
        heap.inc(o).object(o) == (Object { rc: (heap.rc(o) + 1) as u64, ..heap.object(o) }),
        heap.inc(o).can_dec(o),
        heap.inc(o).dec(o) == heap,
        heap.inc(o).dec(o).dec(o) == heap.dec(o),
{
    let n = (heap.rc(o) + 1) as u64;
    let w = heap.header_word(o);
    heap.lemma_object_in_bounds(o);
    heap.lemma_with_rc_object(o, n);
    heap.lemma_with_rc_wf(o, n);
    let raised = heap.inc(o);
    match heap.layout {
        HeaderLayout::Packed => {
            let w1 = (w - w % 0x1_0000_0000 + n) as u64;
            lemma_read_written_u64(heap.mem, o as int, w1);
            assert(w1 - w1 % 0x1_0000_0000 + heap.rc(o) == w);
            lemma_write_written_u64(heap.mem, o as int, w1, w);
        },
        HeaderLayout::Discrete => {
            lemma_write_written_u64(heap.mem, o as int, n, w);
        },
    }
    lemma_write_read_u64(heap.mem, o as int);
    assert(raised.dec(o).mem =~= heap.mem);
}

/// A scalar is not counted: taking or giving up a reference to it is always
/// possible and changes nothing, so nothing is freed.
pub proof fn lemma_scalar_not_counted(heap: HeapView, o: u64)
    requires
        is_scalar(o),
    ensures
        heap.can_inc(o),
        heap.can_dec(o),
        heap.inc(o) == heap,
        heap.dec(o) == heap,
{
}

/// Boxing a 64-bit scalar and reading the box gives the scalar, whatever
/// its value.
pub proof fn lemma_box_round_trip(heap: HeapView, v: u64)
    requires
        heap.wf(),
        heap.has_room(heap.ctor_size(0, 8) as u32),
    ensures
        heap.box_uint64(v).has_scalar(heap.next_object(), 0, 8),
        heap.box_uint64(v).scalar_u64(heap.next_object(), 0) == v,
{
    heap.lemma_box_uint64(v);
}

/// A constructor object that has just been made of two fields can be taken
/// apart again, and then gives the fields it was made of. Each field that is
/// an object has gained a reference of its own.
pub proof fn lemma_pack_then_unpack(heap: HeapView, tag: u32, a: u64, b: u64)
    requires
        heap.wf(),
        tag <= 0xff,
        heap.has_room(heap.ctor_size(2, 0) as u32),
        heap.can_inc(a),
        heap.inc(a).can_inc(b),
    ensures
        heap.pack(tag, a, b).can_unpack(heap.next_object()),
        heap.pack(tag, a, b).child(heap.next_object(), 0) == a,
        heap.pack(tag, a, b).child(heap.next_object(), 1) == b,
        !is_scalar(a) ==> heap.pack(tag, a, b).unpack(heap.next_object()).object(a) == heap.inc(
            a,
        ).inc(b).object(a),
        !is_scalar(b) ==> heap.pack(tag, a, b).unpack(heap.next_object()).object(b) == heap.inc(
            a,
        ).inc(b).object(b),
        heap.pack(tag, a, b).unpack(heap.next_object()).deleted == heap.deleted.push(
            heap.next_object(),
        ),
{
    let o = heap.next_object();
    let made = heap.pack(tag, a, b);
    heap.lemma_pack(tag, a, b);
    made.lemma_object_in_bounds(o);
    lemma_old_is_not_new(heap, made, a, o);
    lemma_counted_alike(heap, made, a);
    let made_a = made.inc(a);
    let heap_a = heap.inc(a);
    lemma_inc_keeps_other(made, a, o);
    lemma_old_is_not_new(heap_a, made_a, b, o);
    lemma_counted_alike(heap_a, made_a, b);
    let made_b = made_a.inc(b);
    let heap_b = heap_a.inc(b);
    lemma_inc_keeps_other(made_a, b, o);
    assert(made_b.can_dec_ref(o));
    assert(made_b.drops_to_zero(o));
    if !is_scalar(a) {
        if a != b {
            lemma_inc_keeps_other(made_a, b, a);
            lemma_inc_keeps_other(heap_a, b, a);
        }
        lemma_dec_ref_keeps(made_b, o, a);
    }
    if !is_scalar(b) {
        lemma_dec_ref_keeps(made_b, o, b);
    }
}

/// An object that a heap holds is not the object that is made next.
proof fn lemma_old_is_not_new(heap: HeapView, made: HeapView, x: u64, o: u64)
    requires
        heap.wf(),
        heap.can_inc(x),
        made.wf(),
        made.allocator == heap.allocator,
        made.is_object(o),
        !heap.blocks.contains_key(made.base(o)),
    ensures
        x != o,
{
    if is_scalar(x) {
        made.lemma_object_in_bounds(o);
    } else {
        assert(heap.blocks.contains_key(heap.base(x)));
    }
}

/// A result that has just been made can be taken apart, and is then found
/// to be what it was made as: a value if it was tagged as a value, an error
/// if it was tagged as an error.
pub proof fn lemma_made_result_decodes(heap: HeapView, tag: u8, x: u64, state: u64)
    requires
        heap.wf(),
        tag == RESULT_OK_TAG || tag == RESULT_ERROR_TAG,
        heap.has_room(heap.ctor_size(2, 0) as u32),
        heap.can_inc(x),
        heap.inc(x).can_inc(state),
    ensures
        heap.pack(tag as u32, x, state).is_result(heap.next_object()),
        heap.pack(tag as u32, x, state).tag(heap.next_object()) == tag,
        heap.pack(tag as u32, x, state).child(heap.next_object(), 0) == x,
        heap.pack(tag as u32, x, state).child(heap.next_object(), 1) == state,
{
    heap.lemma_pack(tag as u32, x, state);
    lemma_pack_then_unpack(heap, tag as u32, x, state);
}

/// A heap that extends another counts a reference as the other does: what
/// can take one more reference in the one can in the other, and is then the
/// same object in both.
proof fn lemma_counted_alike(heap: HeapView, made: HeapView, x: u64)
    requires
        heap.wf(),
        made.wf(),
        made.extends(heap),
        made.mem.len() >= heap.mem.len(),
        heap.can_inc(x),
    ensures
        made.can_inc(x),
        made.inc(x).wf(),
        heap.inc(x).wf(),
        made.inc(x).extends(heap.inc(x)),
        made.inc(x).blocks == made.blocks,
        heap.inc(x).blocks == heap.blocks,
        made.inc(x).deleted == made.deleted,
        heap.inc(x).deleted == heap.deleted,
        made.inc(x).allocator == made.allocator,
        heap.inc(x).allocator == heap.allocator,
        !is_scalar(x) ==> {
            &&& heap.is_object(x)
            &&& made.is_object(x)
            &&& made.inc(x).is_object(x)
            &&& heap.inc(x).is_object(x)
            &&& made.inc(x).object(x) == heap.inc(x).object(x)
        },
{
    if !is_scalar(x) {
        made.lemma_extends_keeps_object(heap, x);
        heap.lemma_object_in_bounds(x);
        if heap.is_st(x) {
            let n = (heap.rc(x) + 1) as u64;
            heap.lemma_with_rc_object(x, n);
            made.lemma_with_rc_object(x, n);
            lemma_read_u64_local(made.mem, heap.mem, x as int);
            heap.lemma_with_rc_wf(x, n);
            made.lemma_with_rc_wf(x, n);
        }
    }
}

/// One more reference to `x` leaves another live object `o` as it was.
proof fn lemma_inc_keeps_other(heap: HeapView, x: u64, o: u64)
    requires
        heap.wf(),
        heap.can_inc(x),
        heap.is_object(o),
        x != o,
    ensures
        heap.inc(x).is_object(o),
        heap.inc(x).capacity(o) == heap.capacity(o),
        heap.inc(x).object(o) == heap.object(o),
        heap.inc(x).child(o, 0) == heap.child(o, 0) || !heap.has_child(o, 0),
        heap.inc(x).child(o, 1) == heap.child(o, 1) || !heap.has_child(o, 1),
{
    if !is_scalar(x) {
        heap.lemma_inc_ref_keeps_other(x, o);
        if heap.has_child(o, 0) {
            assert(heap.inc_ref(x).scalar_u64(o, 0) == heap.scalar_u64(o, 0));
        }
        if heap.has_child(o, 1) {
            assert(heap.inc_ref(x).scalar_u64(o, 8) == heap.scalar_u64(o, 8));
        }
    }
}

/// Giving up a reference to `o` leaves another live object `x` as it was.
proof fn lemma_dec_ref_keeps(heap: HeapView, o: u64, x: u64)
    requires
        heap.wf(),
        heap.can_dec_ref(o),
        heap.is_object(x),
        x != o,
    ensures
        heap.dec_ref(o).object(x) == heap.object(x),
{
    heap.lemma_dec_ref_keeps_other(o, x);
}

} // verus!
