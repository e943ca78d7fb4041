//! The Lean object model and the handles that own Lean objects.

pub mod estatem;
pub mod heap;
pub mod host;
pub mod laws;
pub mod layout;
pub mod runtime;

use crate::lean::estatem::Result;
use crate::lean::heap::{Heap, HeapView};
use crate::lean::host::Host;
use crate::lean::layout::{
    is_scalar, lemma_read_u64_local, lemma_read_written_u64, Object, LEAN_ST_MEM_KIND,
};
use crate::lean::runtime::{
    lean_alloc_ctor, lean_box_uint64, lean_ctor_get, lean_ctor_set, lean_dec, lean_dec_ref,
    lean_inc, lean_unbox_uint64,
};
use std::marker::PhantomData;
use vstd::prelude::*;

verus! {

/// A value that owns one reference to a Lean object.
pub trait LeanObject {
    /// The object reference that the value owns.
    spec fn ptr(&self) -> u64;

    /// Takes over a reference that the caller holds; the object's count is
    /// not touched. The reference is not null.
    fn acquire(o: u64) -> (r: Self) where Self: Sized
        requires
            o != 0,
        ensures
            r.ptr() == o,
    ;

    /// Hands the reference back to the caller; the object's count is not
    /// touched.
    fn release(self) -> (o: u64) where Self: Sized
        ensures
            o == self.ptr(),
    ;
}

/// What a handle holds: a reference that it owns, or nothing once the
/// reference has been given up.
#[derive(Clone, Copy, PartialEq, Eq, Debug, Structural)]
pub enum Slot {
    Owned(u64),
    Released,
}

/// A handle on a Lean object that stands for a value of type `T`. It owns
/// one reference to the object until it is released or dropped. The heap is
/// explicit, so a handle that merely goes out of scope gives nothing up:
/// `drop` it, or `release` its reference to whoever takes it over.
pub struct LeanRepr<T> {
    slot: Slot,
    phantom: PhantomData<T>,
}

impl<T> LeanRepr<T> {
    /// What the handle holds.
    pub closed spec fn slot(&self) -> Slot {
        self.slot
    }

    /// Whether the handle still owns its reference.
    pub open spec fn is_owned(&self) -> bool {
        self.slot() is Owned
    }

    /// The reference that the handle holds, which stays with the handle; null
    /// if it holds none.
    pub fn as_ptr(&self) -> (o: u64)
        ensures
            o == self.ptr(),
    {
        match self.slot {
            Slot::Owned(p) => p,
            Slot::Released => 0,
        }
    }

    /// A second handle on the same object, which counts as one more
    /// reference. A handle that owns nothing gives another such handle.
    pub fn clone(&self, heap: &mut Heap) -> (r: Self)
        requires
            old(heap)@.wf(),
            self.is_owned() ==> old(heap)@.can_inc(self.ptr()),
        ensures
            r.slot() == self.slot(),
            final(heap)@ == (if self.is_owned() {
                old(heap)@.inc(self.ptr())
            } else {
                old(heap)@
            }),
            final(heap)@.wf(),
    {
        match self.slot {
            Slot::Owned(p) => {
                lean_inc(heap, p);
            },
            Slot::Released => {},
        }
        LeanRepr { slot: self.slot, phantom: PhantomData }
    }

    /// Gives up the handle's reference, if it still owns one. Afterwards the
    /// handle owns nothing, and dropping it again changes nothing.
    pub fn drop(&mut self, heap: &mut Heap)
        requires
            old(heap)@.wf(),
            old(self).is_owned() ==> old(heap)@.can_dec(old(self).ptr()),
        ensures
            final(self).slot() == Slot::Released,
            final(heap)@ == (if old(self).is_owned() {
                old(heap)@.dec(old(self).ptr())
            } else {
                old(heap)@
            }),
            final(heap)@.wf(),
    {
        match self.slot {
            Slot::Owned(p) => {
                lean_dec(heap, p);
            },
            Slot::Released => {},
        }
        self.slot = Slot::Released;
    }
}

impl<T> LeanObject for LeanRepr<T> {
    open spec fn ptr(&self) -> u64 {
        match self.slot() {
            Slot::Owned(p) => p,
            Slot::Released => 0,
        }
    }

    fn acquire(o: u64) -> (r: Self)
        ensures
            r.slot() == Slot::Owned(o),
    {
        LeanRepr { slot: Slot::Owned(o), phantom: PhantomData }
    }

    fn release(self) -> (o: u64) {
        match self.slot {
            Slot::Owned(p) => p,
            Slot::Released => 0,
        }
    }
}

/// The world token that every `IO` action takes and gives back.
pub struct Realworld(LeanRepr<()>);

impl LeanObject for Realworld {
    closed spec fn ptr(&self) -> u64 {
        self.0.ptr()
    }

    fn acquire(o: u64) -> (r: Self) {
        Self(LeanRepr::acquire(o))
    }

    fn release(self) -> (o: u64) {
        self.0.release()
    }
}

/// The error that a failed `IO` action carries.
pub struct IOError(LeanRepr<()>);

impl LeanObject for IOError {
    closed spec fn ptr(&self) -> u64 {
        self.0.ptr()
    }

    fn acquire(o: u64) -> (r: Self) {
        Self(LeanRepr::acquire(o))
    }

    fn release(self) -> (o: u64) {
        self.0.release()
    }
}

impl HeapView {
    /// The object at `p` can be taken apart into its two fields: both fields
    /// are there, each can take one more reference, and `p` has a reference to
    /// give up afterwards.
    pub open spec fn can_unpack(self, p: u64) -> bool {
        &&& self.has_child(p, 0)
        &&& self.has_child(p, 1)
        &&& self.can_inc(self.child(p, 0))
        &&& self.inc(self.child(p, 0)).can_inc(self.child(p, 1))
        &&& self.inc(self.child(p, 0)).inc(self.child(p, 1)).can_dec_ref(p)
    }

    /// The heap after the object at `p` is taken apart: each field has gained
    /// a reference, then `p` has given one up.
    pub open spec fn unpack(self, p: u64) -> HeapView {
        self.inc(self.child(p, 0)).inc(self.child(p, 1)).dec_ref(p)
    }

    /// The heap after a constructor object with the fields `a` and `b` is
    /// made; the references pass into the object.
    pub open spec fn pack(self, tag: u32, a: u64, b: u64) -> HeapView {
        self.alloc_ctor(tag, 2, 0).set_child(self.next_object(), 0, a).set_child(
            self.next_object(),
            1,
            b,
        )
    }

    /// A constructor object that has just been made of two fields is live,
    /// alone in new memory, and holds the two fields.
    pub proof fn lemma_pack(self, tag: u32, a: u64, b: u64)
        requires
            self.wf(),
            tag <= 0xff,
            self.has_room(self.ctor_size(2, 0) as u32),
        ensures
            self.pack(tag, a, b).wf(),
            self.pack(tag, a, b).extends(self),
            self.pack(tag, a, b).is_object(self.next_object()),
            !self.blocks.contains_key(self.base(self.next_object())),
            self.pack(tag, a, b).object(self.next_object()) == (Object {
                rc: 1,
                tag: tag as u8,
                mem_kind: LEAN_ST_MEM_KIND,
                other: 2,
            }),
            self.pack(tag, a, b).has_child(self.next_object(), 0),
            self.pack(tag, a, b).has_child(self.next_object(), 1),
            self.pack(tag, a, b).child(self.next_object(), 0) == a,
            self.pack(tag, a, b).child(self.next_object(), 1) == b,
    {
        let o = self.next_object();
        let made = self.alloc_ctor(tag, 2, 0);
        let first = made.set_child(o, 0, a);
        let both = first.set_child(o, 1, b);
        self.lemma_alloc_ctor(tag, 2, 0);
        made.lemma_object_in_bounds(o);
        made.lemma_store_wf(made.payload(o), a);
        made.lemma_store_keeps_object(o, made.payload(o), a);
        first.lemma_store_wf(made.payload(o) + 8, b);
        first.lemma_store_keeps_object(o, made.payload(o) + 8, b);
        lemma_read_written_u64(made.mem, made.payload(o), a);
        lemma_read_written_u64(first.mem, made.payload(o) + 8, b);
        lemma_read_u64_local(both.mem, first.mem, made.payload(o));
    }

    /// A reference whose count can be raised is not null.
    pub proof fn lemma_countable_not_null(self, o: u64)
        requires
            self.wf(),
            self.can_inc(o) || self.can_dec(o),
        ensures
            o != 0,
    {
        if !is_scalar(o) {
            self.lemma_object_in_bounds(o);
        }
    }
}

/// Makes a constructor object with the two fields `a` and `b`.
pub fn lean_pack(heap: &mut Heap, tag: u8, a: u64, b: u64) -> (o: u64)
    requires
        old(heap)@.wf(),
    ensures
        o == old(heap)@.next_object(),
        final(heap)@ == old(heap)@.pack(tag as u32, a, b),
        final(heap)@.wf(),
        final(heap)@.extends(old(heap)@),
        final(heap)@.is_object(o),
        !old(heap)@.blocks.contains_key(final(heap)@.base(o)),
        final(heap)@.object(o) == (Object { rc: 1, tag, mem_kind: LEAN_ST_MEM_KIND, other: 2 }),
        final(heap)@.has_child(o, 0),
        final(heap)@.has_child(o, 1),
        final(heap)@.child(o, 0) == a,
        final(heap)@.child(o, 1) == b,
{
    let r = lean_alloc_ctor(heap, tag as u32, 2, 0);
    lean_ctor_set(heap, r, 0, a);
    let ghost mid = heap@;
    lean_ctor_set(heap, r, 1, b);
    proof {
        mid.lemma_object_in_bounds(r);
        lemma_read_u64_local(heap@.mem, mid.mem, mid.payload(r));
    }
    r
}

/// Takes the constructor object at `p` apart: returns its two fields, each
/// with a reference of its own, and gives up the reference to `p`.
pub fn lean_unpack(heap: &mut Heap, p: u64) -> (fields: (u64, u64))
    requires
        old(heap)@.wf(),
        old(heap)@.can_unpack(p),
    ensures
        fields.0 == old(heap)@.child(p, 0),
        fields.1 == old(heap)@.child(p, 1),
        fields.0 != 0,
        fields.1 != 0,
        final(heap)@ == old(heap)@.unpack(p),
        final(heap)@.wf(),
{
    let a = lean_ctor_get(heap, p, 0);
    let b = lean_ctor_get(heap, p, 1);
    proof {
        heap@.lemma_countable_not_null(a);
    }
    lean_inc(heap, a);
    proof {
        heap@.lemma_countable_not_null(b);
    }
    lean_inc(heap, b);
    lean_dec_ref(heap, p);
    (a, b)
}

/// A suspended computation that gives a value of type `A`.
pub struct IO<A>(LeanRepr<A>);

impl<A> LeanObject for IO<A> {
    closed spec fn ptr(&self) -> u64 {
        self.0.ptr()
    }

    fn acquire(o: u64) -> (r: Self) {
        Self(LeanRepr::acquire(o))
    }

    fn release(self) -> (o: u64) {
        self.0.release()
    }
}

impl<A> IO<A> {
    /// Runs the computation on the world `rw`. The host makes the call; the
    /// reference to the computation is given up when the call is back.
    pub fn apply<H: Host>(self, heap: &mut Heap, host: &mut H, rw: Realworld) -> (r: Result<
        IOError,
        Realworld,
        A,
    >)
        requires
            old(heap)@.wf(),
            old(host).accepts(old(heap)@, self.ptr(), rw.ptr()),
        ensures
            final(heap)@.wf(),
            final(heap)@.is_result(r.ptr()),
            exists|mid: HeapView| #[trigger]
                old(host).yields(old(heap)@, self.ptr(), rw.ptr(), mid, r.ptr()) && mid.wf()
                    && mid.layout == old(heap)@.layout && mid.allocator == old(heap)@.allocator
                    && mid.returned(self.ptr(), r.ptr()) && final(heap)@ == mid.dec_ref(
                    self.ptr(),
                ),
    {
        let actp = self.release();
        let ptr = host.lean_apply_1(heap, actp, rw.release());
        let ghost mid = heap@;
        lean_dec_ref(heap, actp);
        proof {
            heap@.lemma_object_in_bounds(ptr);
            assert(old(host).yields(old(heap)@, actp, rw.ptr(), mid, ptr));
        }
        Result::acquire(ptr)
    }
}

/// A pair of two Lean values.
pub struct Pair<A, B>(LeanRepr<(A, B)>);

impl<A, B> LeanObject for Pair<A, B> {
    closed spec fn ptr(&self) -> u64 {
        self.0.ptr()
    }

    fn acquire(o: u64) -> (r: Self) {
        Self(LeanRepr::acquire(o))
    }

    fn release(self) -> (o: u64) {
        self.0.release()
    }
}

impl<A: LeanObject, B: LeanObject> Pair<A, B> {
    /// Takes the pair apart. The components get references of their own, and
    /// the pair's reference is given up.
    pub fn pat(self, heap: &mut Heap) -> (r: (A, B))
        requires
            old(heap)@.wf(),
            old(heap)@.can_unpack(self.ptr()),
        ensures
            r.0.ptr() == old(heap)@.child(self.ptr(), 0),
            r.1.ptr() == old(heap)@.child(self.ptr(), 1),
            final(heap)@ == old(heap)@.unpack(self.ptr()),
            final(heap)@.wf(),
    {
        let p = self.0.release();
        let (a, b) = lean_unpack(heap, p);
        (A::acquire(a), B::acquire(b))
    }

    /// Makes the pair of `a` and `b`. Their references pass into the pair.
    pub fn mk(heap: &mut Heap, a: A, b: B) -> (r: Self)
        requires
            old(heap)@.wf(),
        ensures
            r.ptr() == old(heap)@.next_object(),
            final(heap)@ == old(heap)@.pack(0, a.ptr(), b.ptr()),
            final(heap)@.wf(),
            final(heap)@.extends(old(heap)@),
            final(heap)@.is_object(r.ptr()),
            !old(heap)@.blocks.contains_key(final(heap)@.base(r.ptr())),
            final(heap)@.object(r.ptr()) == (Object {
                rc: 1,
                tag: 0,
                mem_kind: LEAN_ST_MEM_KIND,
                other: 2,
            }),
            final(heap)@.has_child(r.ptr(), 0),
            final(heap)@.has_child(r.ptr(), 1),
            final(heap)@.child(r.ptr(), 0) == a.ptr(),
            final(heap)@.child(r.ptr(), 1) == b.ptr(),
    {
        let r = lean_pack(heap, 0, a.release(), b.release());
        proof {
            heap@.lemma_object_in_bounds(r);
        }
        Self::acquire(r)
    }
}

/// A boxed 64-bit unsigned integer.
pub struct BoxedUInt64(LeanRepr<u64>);

impl LeanObject for BoxedUInt64 {
    closed spec fn ptr(&self) -> u64 {
        self.0.ptr()
    }

    fn acquire(o: u64) -> (r: Self) {
        Self(LeanRepr::acquire(o))
    }

    fn release(self) -> (o: u64) {
        self.0.release()
    }
}

impl BoxedUInt64 {
    /// Boxes `x`.
    pub fn mk(heap: &mut Heap, x: u64) -> (r: Self)
        requires
            old(heap)@.wf(),
        ensures
            r.ptr() == old(heap)@.next_object(),
            final(heap)@ == old(heap)@.box_uint64(x),
            final(heap)@.wf(),
            final(heap)@.extends(old(heap)@),
            final(heap)@.is_object(r.ptr()),
            !old(heap)@.blocks.contains_key(final(heap)@.base(r.ptr())),
            final(heap)@.object(r.ptr()) == (Object {
                rc: 1,
                tag: 0,
                mem_kind: LEAN_ST_MEM_KIND,
                other: 0,
            }),
            final(heap)@.has_scalar(r.ptr(), 0, 8),
            final(heap)@.scalar_u64(r.ptr(), 0) == x,
    {
        let o = lean_box_uint64(heap, x);
        proof {
            heap@.lemma_object_in_bounds(o);
        }
        BoxedUInt64::acquire(o)
    }

    /// The integer in the box.
    pub fn get(&self, heap: &Heap) -> (x: u64)
        requires
            heap@.wf(),
            heap@.has_scalar(self.ptr(), 0, 8),
        ensures
            x == heap@.scalar_u64(self.ptr(), 0),
    {
        lean_unbox_uint64(heap, self.0.as_ptr())
    }
}

} // verus!
