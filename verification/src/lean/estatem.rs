//! The result of a computation that threads a state: either a value with the
//! new state, or an error with the new state.

use crate::lean::heap::{Heap, HeapView};
use crate::lean::layout::{Object, LEAN_ST_MEM_KIND};
use crate::lean::runtime::lean_ptr_tag;
use crate::lean::{lean_pack, lean_unpack, LeanObject, LeanRepr};
use vstd::prelude::*;

verus! {

/// The tag of a result that carries a value.
pub const RESULT_OK_TAG: u8 = 0;

/// The tag of a result that carries an error.
pub const RESULT_ERROR_TAG: u8 = 1;

impl HeapView {
    /// The object at `r` is a result that can be taken apart: it is tagged as
    /// a value or as an error, and has its two fields.
    pub open spec fn is_result(self, r: u64) -> bool {
        self.tag(r) <= RESULT_ERROR_TAG && self.can_unpack(r)
    }
}

/// A result, taken apart.
pub enum ResultPat<E, S, A> {
    /// The computation gave a value and left a state.
    Success(A, S),
    /// The computation failed with an error and left a state.
    Error(E, S),
}

/// A result object: a constructor object with two fields, tagged 0 for a
/// value and 1 for an error.
pub struct Result<E, S, A>(LeanRepr<ResultPat<E, S, A>>);

impl<E, S, A> LeanObject for Result<E, S, A> {
    closed spec fn ptr(&self) -> u64 {
        self.0.ptr()
    }

    fn acquire(o: u64) -> (r: Self) {
        Self(LeanRepr::acquire(o))
    }

    fn release(self) -> (o: u64) {
        self.0.release()
    }
}

impl<E: LeanObject, S: LeanObject, A: LeanObject> Result<E, S, A> {
    /// Takes the result apart. The two components get references of their
    /// own, and the result's reference is given up. The object is tagged as a
    /// value or as an error.
    pub fn pat(self, heap: &mut Heap) -> (r: ResultPat<E, S, A>)
        requires
            old(heap)@.wf(),
            old(heap)@.is_result(self.ptr()),
        ensures
            match r {
                ResultPat::Success(a, s) => {
                    &&& old(heap)@.tag(self.ptr()) == RESULT_OK_TAG
                    &&& a.ptr() == old(heap)@.child(self.ptr(), 0)
                    &&& s.ptr() == old(heap)@.child(self.ptr(), 1)
                },
                ResultPat::Error(e, s) => {
                    &&& old(heap)@.tag(self.ptr()) == RESULT_ERROR_TAG
                    &&& e.ptr() == old(heap)@.child(self.ptr(), 0)
                    &&& s.ptr() == old(heap)@.child(self.ptr(), 1)
                },
            },
            final(heap)@ == old(heap)@.unpack(self.ptr()),
            final(heap)@.wf(),
    {
        let p = self.0.release();
        let tag = lean_ptr_tag(heap, p);
        let (x, s) = lean_unpack(heap, p);
        if tag == RESULT_OK_TAG {
            ResultPat::Success(A::acquire(x), S::acquire(s))
        } else {
            ResultPat::Error(E::acquire(x), S::acquire(s))
        }
    }

    /// Makes the result that carries the value `a` and the state `s`. Their
    /// references pass into the result.
    pub fn ok(heap: &mut Heap, a: A, s: S) -> (r: Self)
        requires
            old(heap)@.wf(),
        ensures
            r.ptr() == old(heap)@.next_object(),
            final(heap)@ == old(heap)@.pack(RESULT_OK_TAG as u32, a.ptr(), s.ptr()),
            final(heap)@.wf(),
            final(heap)@.extends(old(heap)@),
            final(heap)@.is_object(r.ptr()),
            !old(heap)@.blocks.contains_key(final(heap)@.base(r.ptr())),
            final(heap)@.object(r.ptr()) == (Object {
                rc: 1,
                tag: RESULT_OK_TAG,
                mem_kind: LEAN_ST_MEM_KIND,
                other: 2,
            }),
            final(heap)@.has_child(r.ptr(), 0),
            final(heap)@.has_child(r.ptr(), 1),
            final(heap)@.child(r.ptr(), 0) == a.ptr(),
            final(heap)@.child(r.ptr(), 1) == s.ptr(),
    {
        let r = lean_pack(heap, RESULT_OK_TAG, a.release(), s.release());
        proof {
            heap@.lemma_object_in_bounds(r);
        }
        Result::acquire(r)
    }

    /// Makes the result that carries the error `e` and the state `s`. Their
    /// references pass into the result.
    pub fn error(heap: &mut Heap, e: E, s: S) -> (r: Self)
        requires
            old(heap)@.wf(),
        ensures
            r.ptr() == old(heap)@.next_object(),
            final(heap)@ == old(heap)@.pack(RESULT_ERROR_TAG as u32, e.ptr(), s.ptr()),
            final(heap)@.wf(),
            final(heap)@.extends(old(heap)@),
            final(heap)@.is_object(r.ptr()),
            !old(heap)@.blocks.contains_key(final(heap)@.base(r.ptr())),
            final(heap)@.object(r.ptr()) == (Object {
                rc: 1,
                tag: RESULT_ERROR_TAG,
                mem_kind: LEAN_ST_MEM_KIND,
                other: 2,
            }),
            final(heap)@.has_child(r.ptr(), 0),
            final(heap)@.has_child(r.ptr(), 1),
            final(heap)@.child(r.ptr(), 0) == e.ptr(),
            final(heap)@.child(r.ptr(), 1) == s.ptr(),
    {
        let r = lean_pack(heap, RESULT_ERROR_TAG, e.release(), s.release());
        proof {
            heap@.lemma_object_in_bounds(r);
        }
        Result::acquire(r)
    }
}

} // verus!
