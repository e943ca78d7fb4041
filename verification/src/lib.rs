//! Wall-clock timing of Lean `IO` actions, together with the part of the Lean
//! runtime's object model that the timer needs: object headers, reference
//! counts, constructor objects and the ownership handles built on them.
//!
//! Every operation names the [`lean::heap::Heap`] it acts on, so the whole
//! object protocol can be stated and proved over the heap's contents. The
//! action itself is run by a [`lean::host::Host`]; [`rusttime`] reads the
//! clock around the call and hands the action's result on, a value together
//! with the microseconds that passed.

pub mod clock;
pub mod lean;

use crate::clock::elapsed_micros;
use crate::lean::estatem::{Result, ResultPat, RESULT_ERROR_TAG, RESULT_OK_TAG};
use crate::lean::heap::{Heap, HeapView};
use crate::lean::host::Host;
use crate::lean::layout::{lemma_read_u64_local, Object, LEAN_ST_MEM_KIND};
use crate::lean::{BoxedUInt64, IOError, LeanObject, Pair, Realworld, IO};
use std::time::Instant;
use vstd::prelude::*;

verus! {

impl HeapView {
    /// The heap after the value `value` is paired with the boxed count
    /// `elapsed` and the pair is made the value of a result with the state
    /// `state`.
    pub open spec fn with_count(self, value: u64, state: u64, elapsed: u64) -> HeapView {
        let boxed = self.box_uint64(elapsed);
        let paired = boxed.pack(0, value, self.next_object());
        paired.pack(RESULT_OK_TAG as u32, boxed.next_object(), state)
    }

    /// The address of the result that `with_count` makes.
    pub open spec fn with_count_at(self, value: u64, state: u64, elapsed: u64) -> u64 {
        self.box_uint64(elapsed).pack(0, value, self.next_object()).next_object()
    }

    /// The heap after the result at `r` is given its timing: the result is
    /// taken apart, and a result is made in its place. For a value, the new
    /// result carries the pair of the value and the boxed count `elapsed`. For
    /// an error, it carries the error, and nothing is boxed or paired.
    pub open spec fn timed(self, r: u64, elapsed: u64) -> HeapView {
        let value = self.child(r, 0);
        let state = self.child(r, 1);
        let apart = self.unpack(r);
        if self.tag(r) == RESULT_OK_TAG {
            apart.with_count(value, state, elapsed)
        } else {
            apart.pack(RESULT_ERROR_TAG as u32, value, state)
        }
    }

    /// The address of the result that `timed` makes.
    pub open spec fn timed_at(self, r: u64, elapsed: u64) -> u64 {
        let value = self.child(r, 0);
        let state = self.child(r, 1);
        let apart = self.unpack(r);
        if self.tag(r) == RESULT_OK_TAG {
            apart.with_count_at(value, state, elapsed)
        } else {
            apart.next_object()
        }
    }
}

/// What the result at `out` in the heap `post` has from the result at `r`
/// in the heap `pre`, and from the count `elapsed`. It is a fresh object with
/// the tag and the state of `r`. For an error, it carries the error of `r`.
/// For a value, it carries a fresh pair of the value of `r` and a fresh box
/// that holds `elapsed`.
pub open spec fn carries_timing(
    pre: HeapView,
    r: u64,
    elapsed: u64,
    post: HeapView,
    out: u64,
) -> bool {
    &&& post.is_object(out)
    &&& !pre.unpack(r).blocks.contains_key(post.base(out))
    &&& post.object(out) == (Object {
        rc: 1,
        tag: pre.tag(r),
        mem_kind: LEAN_ST_MEM_KIND,
        other: 2,
    })
    &&& post.has_child(out, 0)
    &&& post.has_child(out, 1)
    &&& post.child(out, 1) == pre.child(r, 1)
    &&& pre.tag(r) == RESULT_ERROR_TAG ==> post.child(out, 0) == pre.child(r, 0)
    &&& pre.tag(r) == RESULT_OK_TAG ==> {
        let pair = post.child(out, 0);
        let boxed = post.child(pair, 1);
        &&& post.is_object(pair)
        &&& post.has_child(pair, 0)
        &&& post.has_child(pair, 1)
        &&& !pre.unpack(r).blocks.contains_key(post.base(pair))
        &&& post.object(pair) == (Object { rc: 1, tag: 0, mem_kind: LEAN_ST_MEM_KIND, other: 2 })
        &&& post.child(pair, 0) == pre.child(r, 0)
        &&& post.is_object(boxed)
        &&& !pre.unpack(r).blocks.contains_key(post.base(boxed))
        &&& post.object(boxed) == (Object { rc: 1, tag: 0, mem_kind: LEAN_ST_MEM_KIND, other: 0 })
        &&& post.has_scalar(boxed, 0, 8)
        &&& post.scalar_u64(boxed, 0) == elapsed
    }
}

/// Pairs the value `a` with the boxed count `elapsed`, and makes the pair the
/// value of a result with the state `s`.
fn pair_with_count<A: LeanObject>(heap: &mut Heap, a: A, s: Realworld, elapsed: u64) -> (out:
    Result<IOError, Realworld, Pair<A, BoxedUInt64>>)
    requires
        old(heap)@.wf(),
    ensures
        out.ptr() == old(heap)@.with_count_at(a.ptr(), s.ptr(), elapsed),
        final(heap)@ == old(heap)@.with_count(a.ptr(), s.ptr(), elapsed),
        final(heap)@.wf(),
        final(heap)@.extends(old(heap)@),
        final(heap)@.is_object(out.ptr()),
        final(heap)@.object(out.ptr()) == (Object {
            rc: 1,
            tag: RESULT_OK_TAG,
            mem_kind: LEAN_ST_MEM_KIND,
            other: 2,
        }),
        final(heap)@.has_child(out.ptr(), 0),
        final(heap)@.has_child(out.ptr(), 1),
        final(heap)@.child(out.ptr(), 1) == s.ptr(),
        !old(heap)@.blocks.contains_key(final(heap)@.base(out.ptr())),
        ({
            let pair = final(heap)@.child(out.ptr(), 0);
            let boxed = final(heap)@.child(pair, 1);
            &&& final(heap)@.is_object(pair)
            &&& final(heap)@.has_child(pair, 0)
            &&& final(heap)@.has_child(pair, 1)
            &&& !old(heap)@.blocks.contains_key(final(heap)@.base(pair))
            &&& final(heap)@.object(pair) == (Object {
                rc: 1,
                tag: 0,
                mem_kind: LEAN_ST_MEM_KIND,
                other: 2,
            })
            &&& final(heap)@.child(pair, 0) == a.ptr()
            &&& final(heap)@.is_object(boxed)
            &&& !old(heap)@.blocks.contains_key(final(heap)@.base(boxed))
            &&& final(heap)@.object(boxed) == (Object {
                rc: 1,
                tag: 0,
                mem_kind: LEAN_ST_MEM_KIND,
                other: 0,
            })
            &&& final(heap)@.has_scalar(boxed, 0, 8)
            &&& final(heap)@.scalar_u64(boxed, 0) == elapsed
        }),
{
    let boxed = BoxedUInt64::mk(heap, elapsed);
    let ghost at_box = heap@;
    let ghost boxed_at = boxed.ptr();
    let rr = Pair::mk(heap, a, boxed);
    let ghost at_pair = heap@;
    let ghost pair_at = rr.ptr();
    let out = Result::ok(heap, rr, s);
    proof {
        at_pair.lemma_extends_keeps_object(at_box, boxed_at);
        heap@.lemma_extends_keeps_object(at_pair, boxed_at);
        heap@.lemma_extends_keeps_object(at_pair, pair_at);
        assert(at_pair.scalar_u64(boxed_at, 0) == at_box.scalar_u64(boxed_at, 0));
        assert(heap@.scalar_u64(boxed_at, 0) == at_pair.scalar_u64(boxed_at, 0));
        assert(heap@.scalar_u64(pair_at, 0) == at_pair.scalar_u64(pair_at, 0));
        assert(heap@.scalar_u64(pair_at, 8) == at_pair.scalar_u64(pair_at, 8));
    }
    out
}

/// Gives a result its timing. An error passes through with its state, as it
/// is. A value is paired with the boxed count of microseconds, and the pair
/// is returned as the value, with the state as it is.
pub fn with_elapsed<A: LeanObject>(
    heap: &mut Heap,
    r: Result<IOError, Realworld, A>,
    elapsed: u64,
) -> (out: Result<IOError, Realworld, Pair<A, BoxedUInt64>>)
    requires
        old(heap)@.wf(),
        old(heap)@.is_result(r.ptr()),
    ensures
        out.ptr() == old(heap)@.timed_at(r.ptr(), elapsed),
        final(heap)@ == old(heap)@.timed(r.ptr(), elapsed),
        final(heap)@.wf(),
        final(heap)@.extends(old(heap)@.unpack(r.ptr())),
        carries_timing(old(heap)@, r.ptr(), elapsed, final(heap)@, out.ptr()),
{
    match r.pat(heap) {
        ResultPat::Error(e, s) => Result::error(heap, e, s),
        ResultPat::Success(a, s) => pair_with_count(heap, a, s, elapsed),
    }
}

/// What `rusttime` does, from the heap `pre` before the call to the heap
/// `post` after it: the host ran the action `f` on the world `a`, which left
/// the heap `mid` and the result `r`; the reference to `f` was given up; and
/// the result was given its timing, `elapsed` microseconds, at `out`.
pub open spec fn timing_of<H: Host>(
    host: &H,
    pre: HeapView,
    f: u64,
    a: u64,
    mid: HeapView,
    r: u64,
    elapsed: u64,
    post: HeapView,
    out: u64,
) -> bool {
    &&& host.yields(pre, f, a, mid, r)
    &&& mid.wf()
    &&& mid.layout == pre.layout
    &&& mid.allocator == pre.allocator
    &&& mid.returned(f, r)
    &&& post == mid.dec_ref(f).timed(r, elapsed)
    &&& out == mid.dec_ref(f).timed_at(r, elapsed)
    &&& post.extends(mid.dec_ref(f).unpack(r))
    &&& carries_timing(mid.dec_ref(f), r, elapsed, post, out)
}

/// The timer is transparent. What comes back has the tag and the state of
/// the result that the host returned. An error comes back as the error that
/// the host returned, and nothing is made but the result that carries it on.
/// A value comes back as the first component of a pair whose second
/// component is a box with the count.
pub proof fn lemma_timing_keeps_result<H: Host>(
    host: &H,
    pre: HeapView,
    f: u64,
    a: u64,
    mid: HeapView,
    r: u64,
    elapsed: u64,
    post: HeapView,
    out: u64,
)
    requires
        timing_of(host, pre, f, a, mid, r, elapsed, post, out),
    ensures
        post.tag(out) == mid.tag(r),
        post.child(out, 1) == mid.child(r, 1),
        mid.tag(r) == RESULT_ERROR_TAG ==> {
            &&& post.child(out, 0) == mid.child(r, 0)
            &&& post == mid.dec_ref(f).unpack(r).pack(
                RESULT_ERROR_TAG as u32,
                mid.child(r, 0),
                mid.child(r, 1),
            )
        },
        mid.tag(r) == RESULT_OK_TAG ==> {
            &&& post.child(post.child(out, 0), 0) == mid.child(r, 0)
            &&& post.scalar_u64(post.child(post.child(out, 0), 1), 0) == elapsed
        },
{
    let h = mid.dec_ref(f);
    mid.lemma_object_in_bounds(f);
    if r == f {
        assert(h.is_live(f));
        let n = (mid.rc(f) - 1) as u64;
        if mid.is_st(f) {
            mid.lemma_with_rc_object(f, n);
            lemma_read_u64_local(h.mem, mid.mem, mid.payload(r));
            lemma_read_u64_local(h.mem, mid.mem, mid.payload(r) + 8);
        }
    } else {
        assert(mid.is_object(r));
        mid.lemma_dec_ref_keeps_other(f, r);
        assert(h.scalar_u64(r, 0) == mid.scalar_u64(r, 0));
        assert(h.scalar_u64(r, 8) == mid.scalar_u64(r, 8));
    }
}

/// Runs the action `act` on the world `rw` and times it. The result of the
/// action comes back with the microseconds that the run took: a value is
/// paired with the boxed count, an error passes through as it is.
pub fn rusttime<A: LeanObject, H: Host>(
    heap: &mut Heap,
    host: &mut H,
    act: IO<A>,
    rw: Realworld,
) -> (out: Result<IOError, Realworld, Pair<A, BoxedUInt64>>)
    requires
        old(heap)@.wf(),
        old(host).accepts(old(heap)@, act.ptr(), rw.ptr()),
    ensures
        final(heap)@.wf(),
        exists|mid: HeapView, r: u64, elapsed: u64| #[trigger]
            timing_of(
                old(host),
                old(heap)@,
                act.ptr(),
                rw.ptr(),
                mid,
                r,
                elapsed,
                final(heap)@,
                out.ptr(),
            ),
{
    let start = Instant::now();
    let r = act.apply(heap, host, rw);
    let finish = Instant::now();
    let ghost r_at = r.ptr();
    let ghost mid = choose|mid: HeapView| #[trigger]
        old(host).yields(old(heap)@, act.ptr(), rw.ptr(), mid, r_at) && mid.wf() && mid.layout
            == old(heap)@.layout && mid.allocator == old(heap)@.allocator && mid.returned(
            act.ptr(),
            r_at,
        ) && heap@ == mid.dec_ref(act.ptr());
    let elapsed = elapsed_micros(start, finish);
    let out = with_elapsed(heap, r, elapsed);
    proof {
        assert(timing_of(
            old(host),
            old(heap)@,
            act.ptr(),
            rw.ptr(),
            mid,
            r_at,
            elapsed,
            heap@,
            out.ptr(),
        ));
    }
    out
}

/// The entry point that the host calls: takes over the action at `act_ptr`
/// and the world at `rw_ptr`, times the action, and hands back the address of
/// the result, which is then the caller's. Neither address is null.
pub fn leanclock_io_rusttime<H: Host>(
    heap: &mut Heap,
    host: &mut H,
    act_ptr: u64,
    rw_ptr: u64,
) -> (out: u64)
    requires
        old(heap)@.wf(),
        act_ptr != 0,
        rw_ptr != 0,
        old(host).accepts(old(heap)@, act_ptr, rw_ptr),
    ensures
        final(heap)@.wf(),
        exists|mid: HeapView, r: u64, elapsed: u64| #[trigger]
            timing_of(old(host), old(heap)@, act_ptr, rw_ptr, mid, r, elapsed, final(heap)@, out),
{
    let act = IO::<Realworld>::acquire(act_ptr);
    let rw = Realworld::acquire(rw_ptr);
    rusttime(heap, host, act, rw).release()
}

} // verus!
