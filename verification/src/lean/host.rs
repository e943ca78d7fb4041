//! The host runtime's side of a call: the interface through which a suspended
//! computation is run, and a host whose computations return at once.

use crate::lean::estatem::{RESULT_ERROR_TAG, RESULT_OK_TAG};
use crate::lean::heap::{Heap, HeapView};
use crate::lean::layout::{is_scalar, Object, LEAN_ST_MEM_KIND};
use crate::lean::lean_pack;
use vstd::prelude::*;

verus! {

impl HeapView {
    /// What holds of a heap when the host returns `r` from a call of the
    /// action `f`: the caller can give up its reference to `f`, and `r` is
    /// then a result that can be taken apart.
    pub open spec fn returned(self, f: u64, r: u64) -> bool {
        self.can_dec_ref(f) && self.dec_ref(f).is_result(r)
    }
}

/// The host runtime's side of a call: it runs a suspended computation.
pub trait Host {
    /// What the host asks of a call: the heap, the action `f` and the
    /// argument `a` that it can run. Nothing, unless the host says otherwise.
    open spec fn accepts(&self, heap: HeapView, f: u64, a: u64) -> bool {
        true
    }

    /// What the host says of a call: how the heap `post` and the result `r`
    /// that it leaves relate to the heap `pre` that it was called on.
    /// Nothing, unless the host says otherwise.
    open spec fn yields(&self, pre: HeapView, f: u64, a: u64, post: HeapView, r: u64) -> bool {
        true
    }

    /// Applies the action at `f` to the argument `a` and returns the address
    /// of what it gives. The action is lent to the call, the argument passes
    /// into it, and the caller owns what comes back: a result object. The
    /// heap keeps its header layout and its allocator.
    fn lean_apply_1(&mut self, heap: &mut Heap, f: u64, a: u64) -> (r: u64)
        requires
            old(heap)@.wf(),
            old(self).accepts(old(heap)@, f, a),
        ensures
            final(heap)@.wf(),
            final(heap)@.layout == old(heap)@.layout,
            final(heap)@.allocator == old(heap)@.allocator,
            old(self).yields(old(heap)@, f, a, final(heap)@, r),
            final(heap)@.returned(f, r),
    ;
}

/// A host whose every action returns at once, with the scalar it was made
/// with: as a value, or as an error.
pub struct Immediate {
    payload: u64,
    fails: bool,
}

impl Immediate {
    /// The scalar that each call returns.
    pub closed spec fn payload(&self) -> u64 {
        self.payload
    }

    /// Whether each call returns an error.
    pub closed spec fn fails(&self) -> bool {
        self.fails
    }

    /// The tag of the result that each call returns.
    pub open spec fn tag(&self) -> u8 {
        if self.fails() {
            RESULT_ERROR_TAG
        } else {
            RESULT_OK_TAG
        }
    }

    /// A host whose actions give the value `payload`.
    pub fn returning(payload: u64) -> (host: Self)
        ensures
            host.payload() == payload,
            !host.fails(),
    {
        Immediate { payload, fails: false }
    }

    /// A host whose actions fail with the error `payload`.
    pub fn failing(payload: u64) -> (host: Self)
        ensures
            host.payload() == payload,
            host.fails(),
    {
        Immediate { payload, fails: true }
    }
}

impl Host for Immediate {
    /// The payload and the argument are scalars, and the caller holds a
    /// reference to the action.
    open spec fn accepts(&self, heap: HeapView, f: u64, a: u64) -> bool {
        &&& is_scalar(self.payload())
        &&& is_scalar(a)
        &&& heap.can_dec_ref(f)
    }

    /// The call makes one object and leaves the others as they were: the
    /// result, which holds the payload and the argument.
    open spec fn yields(&self, pre: HeapView, f: u64, a: u64, post: HeapView, r: u64) -> bool {
        &&& r == pre.next_object()
        &&& post == pre.pack(self.tag() as u32, self.payload(), a)
        &&& post.extends(pre)
        &&& post.is_object(r)
        &&& !pre.blocks.contains_key(post.base(r))
        &&& post.object(r) == (Object {
            rc: 1,
            tag: self.tag(),
            mem_kind: LEAN_ST_MEM_KIND,
            other: 2,
        })
        &&& post.has_child(r, 0)
        &&& post.has_child(r, 1)
        &&& post.child(r, 0) == self.payload()
        &&& post.child(r, 1) == a
    }

    fn lean_apply_1(&mut self, heap: &mut Heap, f: u64, a: u64) -> (r: u64) {
        let tag = if self.fails {
            RESULT_ERROR_TAG
        } else {
            RESULT_OK_TAG
        };
        let r = lean_pack(heap, tag, self.payload, a);
        proof {
            let pre = old(heap)@;
            let post = heap@;
            post.lemma_extends_keeps_object(pre, f);
            assert(pre.blocks.contains_key(pre.base(f)));
            post.lemma_dec_ref_keeps_other(f, r);
            let after = post.dec_ref(f);
            assert(after.scalar_u64(r, 0) == post.scalar_u64(r, 0));
            assert(after.scalar_u64(r, 8) == post.scalar_u64(r, 8));
        }
        r
    }
}

} // verus!
