use clocklean::lean::estatem::{Result, ResultPat};
use clocklean::lean::heap::Heap;
use clocklean::lean::host::{Host, Immediate};
use clocklean::lean::layout::{Allocator, HeaderLayout, Object};
use clocklean::lean::runtime::{
    lean_alloc_ctor, lean_box, lean_box_uint64, lean_ctor_get, lean_inc, lean_object,
    lean_ptr_tag, lean_unbox, lean_unbox_uint64,
};
use clocklean::lean::{lean_pack, BoxedUInt64, IOError, LeanObject, Pair, Realworld, IO};
use clocklean::{leanclock_io_rusttime, rusttime, with_elapsed};
use std::time::Instant;

fn all_heaps() -> Vec<Heap> {
    vec![
        Heap::new(HeaderLayout::Packed, Allocator::Small),
        Heap::new(HeaderLayout::Packed, Allocator::Generic),
        Heap::new(HeaderLayout::Discrete, Allocator::Small),
        Heap::new(HeaderLayout::Discrete, Allocator::Generic),
    ]
}

/// A closure object as the host would hand it over: one reference, no fields.
fn closure(heap: &mut Heap) -> u64 {
    lean_alloc_ctor(heap, 245, 0, 0)
}

/// A host whose actions wait, then give a value and a new state.
struct Delayed {
    micros: u128,
    value: u64,
    state: u64,
}

impl Host for Delayed {
    fn lean_apply_1(&mut self, heap: &mut Heap, _f: u64, _a: u64) -> u64 {
        let start = Instant::now();
        while start.elapsed().as_micros() < self.micros {
            std::hint::spin_loop();
        }
        lean_pack(heap, 0, self.value, self.state)
    }
}

/// A host whose actions give a boxed integer that lives on the heap.
struct Boxing {
    value: u64,
}

impl Host for Boxing {
    fn lean_apply_1(&mut self, heap: &mut Heap, _f: u64, a: u64) -> u64 {
        let boxed = lean_box_uint64(heap, self.value);
        lean_pack(heap, 0, boxed, a)
    }
}

#[test]
fn a_delayed_value_comes_back_with_at_least_its_delay() {
    for mut heap in all_heaps() {
        let mut host = Delayed { micros: 5000, value: lean_box(42), state: lean_box(9) };
        let act = IO::<Realworld>::acquire(closure(&mut heap));
        let rw = Realworld::acquire(lean_box(0));
        let out = rusttime(&mut heap, &mut host, act, rw);
        match out.pat(&mut heap) {
            ResultPat::Success(pair, state) => {
                assert_eq!(state.release(), lean_box(9));
                let (first, second) = pair.pat(&mut heap);
                assert_eq!(lean_unbox(first.release()), 42);
                let elapsed = second.get(&heap);
                assert!(elapsed >= 5000);
                assert!(elapsed < 60_000_000);
            },
            ResultPat::Error(_, _) => panic!("a value came back as an error"),
        }
    }
}

#[test]
fn an_immediate_failure_passes_through_untimed() {
    for mut heap in all_heaps() {
        let mut host = Immediate::failing(lean_box(13));
        let f = closure(&mut heap);
        let blocks_before = heap.size();
        let out = rusttime(
            &mut heap,
            &mut host,
            IO::<Realworld>::acquire(f),
            Realworld::acquire(lean_box(0)),
        );
        let out_at = out.release();
        let result_size = heap.layout().header_bytes() as u64 + 16
            + heap.allocator().prefix_bytes();
        assert_eq!(heap.size(), blocks_before + 2 * result_size);
        assert_eq!(lean_object(&heap, out_at), Object { rc: 1, tag: 1, mem_kind: 0, other: 2 });
        assert_eq!(lean_ctor_get(&heap, out_at, 0), lean_box(13));
        assert_eq!(lean_ctor_get(&heap, out_at, 1), lean_box(0));
        match Result::<IOError, Realworld, Pair<Realworld, BoxedUInt64>>::acquire(out_at)
            .pat(&mut heap)
        {
            ResultPat::Error(e, s) => {
                assert_eq!(lean_unbox(e.release()), 13);
                assert_eq!(s.release(), lean_box(0));
            },
            ResultPat::Success(_, _) => panic!("an error came back as a value"),
        }
    }
}

#[test]
fn an_immediate_value_is_paired_with_a_count() {
    for mut heap in all_heaps() {
        let mut host = Immediate::returning(lean_box(42));
        let f = closure(&mut heap);
        let out = rusttime(
            &mut heap,
            &mut host,
            IO::<Realworld>::acquire(f),
            Realworld::acquire(lean_box(0)),
        );
        let out_at = out.release();
        assert_eq!(lean_object(&heap, out_at), Object { rc: 1, tag: 0, mem_kind: 0, other: 2 });
        assert_eq!(lean_ctor_get(&heap, out_at, 1), lean_box(0));
        let pair = lean_ctor_get(&heap, out_at, 0);
        assert_eq!(lean_object(&heap, pair), Object { rc: 1, tag: 0, mem_kind: 0, other: 2 });
        assert_eq!(lean_ctor_get(&heap, pair, 0), lean_box(42));
        let boxed = lean_ctor_get(&heap, pair, 1);
        assert_eq!(lean_object(&heap, boxed), Object { rc: 1, tag: 0, mem_kind: 0, other: 0 });
        assert!(lean_unbox_uint64(&heap, boxed) < 60_000_000);
    }
}

#[test]
fn the_action_loses_the_reference_that_was_handed_over() {
    for mut heap in all_heaps() {
        let mut host = Immediate::returning(lean_box(1));
        let f = closure(&mut heap);
        lean_inc(&mut heap, f);
        let out = rusttime(
            &mut heap,
            &mut host,
            IO::<Realworld>::acquire(f),
            Realworld::acquire(lean_box(0)),
        );
        assert_eq!(lean_object(&heap, f).rc, 1);
        assert!(heap.is_live(f));
        let out_at = out.release();
        let again = rusttime(
            &mut heap,
            &mut host,
            IO::<Realworld>::acquire(f),
            Realworld::acquire(lean_box(0)),
        );
        assert!(!heap.is_live(f));
        assert_ne!(again.release(), out_at);
        assert_eq!(heap.deleted().iter().filter(|&&o| o == f).count(), 1);
    }
}

#[test]
fn a_value_on_the_heap_comes_through_the_timer_with_a_reference_of_its_own() {
    for mut heap in all_heaps() {
        let mut host = Boxing { value: 777 };
        let f = closure(&mut heap);
        let value_at = heap.size() + heap.allocator().prefix_bytes();
        let out = rusttime(
            &mut heap,
            &mut host,
            IO::<BoxedUInt64>::acquire(f),
            Realworld::acquire(lean_box(0)),
        );
        // One reference is the one that the host's result held, and one is
        // the one that the pair now owns.
        assert!(heap.is_live(value_at));
        assert_eq!(lean_object(&heap, value_at).rc, 2);
        assert_eq!(lean_unbox_uint64(&heap, value_at), 777);
        let out_at = out.release();
        let pair = lean_ctor_get(&heap, out_at, 0);
        assert_eq!(lean_ctor_get(&heap, pair, 0), value_at);
        assert_eq!(lean_ctor_get(&heap, out_at, 1), lean_box(0));
        let count = BoxedUInt64::acquire(lean_ctor_get(&heap, pair, 1));
        assert!(count.get(&heap) < 60_000_000);
    }
}

#[test]
fn apply_returns_what_the_host_made() {
    for mut heap in all_heaps() {
        let mut host = Immediate::returning(lean_box(5));
        let f = closure(&mut heap);
        let expected = heap.size() + heap.allocator().prefix_bytes();
        let r = IO::<Realworld>::acquire(f).apply(
            &mut heap,
            &mut host,
            Realworld::acquire(lean_box(0)),
        );
        let r_at = r.release();
        assert_eq!(r_at, expected);
        assert_eq!(lean_ptr_tag(&heap, r_at), 0);
        assert_eq!(lean_ctor_get(&heap, r_at, 0), lean_box(5));
        assert_eq!(lean_ctor_get(&heap, r_at, 1), lean_box(0));
        assert!(!heap.is_live(f));
        assert_eq!(heap.deleted(), vec![f]);
    }
}

#[test]
fn the_immediate_host_makes_one_object_per_call() {
    for mut heap in all_heaps() {
        let mut host = Immediate::failing(lean_box(2));
        let f = closure(&mut heap);
        let before = heap.size();
        let r = host.lean_apply_1(&mut heap, f, lean_box(0));
        let result_size = heap.layout().header_bytes() as u64 + 16
            + heap.allocator().prefix_bytes();
        assert_eq!(heap.size(), before + result_size);
        assert_eq!(lean_object(&heap, r), Object { rc: 1, tag: 1, mem_kind: 0, other: 2 });
        assert_eq!(lean_object(&heap, f).rc, 1);
    }
}

#[test]
fn with_elapsed_pairs_a_value_with_the_given_count() {
    for mut heap in all_heaps() {
        for elapsed in [0u64, 5000, u64::MAX] {
            let r = Result::<IOError, Realworld, Realworld>::ok(
                &mut heap,
                Realworld::acquire(lean_box(42)),
                Realworld::acquire(lean_box(9)),
            );
            let r_at = r.release();
            let out = with_elapsed(
                &mut heap,
                Result::<IOError, Realworld, Realworld>::acquire(r_at),
                elapsed,
            );
            assert!(!heap.is_live(r_at));
            match out.pat(&mut heap) {
                ResultPat::Success(pair, state) => {
                    assert_eq!(state.release(), lean_box(9));
                    let (first, second) = pair.pat(&mut heap);
                    assert_eq!(first.release(), lean_box(42));
                    assert_eq!(second.get(&heap), elapsed);
                },
                ResultPat::Error(_, _) => panic!("a value came back as an error"),
            }
        }
    }
}

#[test]
fn with_elapsed_passes_an_error_through() {
    for mut heap in all_heaps() {
        let r = Result::<IOError, Realworld, Realworld>::error(
            &mut heap,
            IOError::acquire(lean_box(13)),
            Realworld::acquire(lean_box(9)),
        );
        let before = heap.size();
        let out = with_elapsed(&mut heap, r, 5000);
        let out_at = out.release();
        let result_size = heap.layout().header_bytes() as u64 + 16
            + heap.allocator().prefix_bytes();
        assert_eq!(heap.size(), before + result_size);
        assert_eq!(lean_ptr_tag(&heap, out_at), 1);
        assert_eq!(lean_ctor_get(&heap, out_at, 0), lean_box(13));
        assert_eq!(lean_ctor_get(&heap, out_at, 1), lean_box(9));
    }
}

#[test]
fn the_entry_point_takes_and_returns_addresses() {
    for mut heap in all_heaps() {
        let mut host = Delayed { micros: 1000, value: lean_box(42), state: lean_box(9) };
        let f = closure(&mut heap);
        let out = leanclock_io_rusttime(&mut heap, &mut host, f, lean_box(0));
        assert!(heap.is_live(out));
        assert_eq!(lean_object(&heap, out), Object { rc: 1, tag: 0, mem_kind: 0, other: 2 });
        assert_eq!(lean_ctor_get(&heap, out, 1), lean_box(9));
        let pair = lean_ctor_get(&heap, out, 0);
        assert_eq!(lean_ctor_get(&heap, pair, 0), lean_box(42));
        assert!(lean_unbox_uint64(&heap, lean_ctor_get(&heap, pair, 1)) >= 1000);
        assert!(!heap.is_live(f));
    }
}

#[test]
fn a_longer_wait_gives_a_larger_count() {
    let mut heap = Heap::new(HeaderLayout::Packed, Allocator::Small);
    let mut counts: Vec<u64> = Vec::new();
    for micros in [0u128, 20_000] {
        let mut host = Delayed { micros, value: lean_box(1), state: lean_box(0) };
        let f = closure(&mut heap);
        let out = leanclock_io_rusttime(&mut heap, &mut host, f, lean_box(0));
        let pair = lean_ctor_get(&heap, out, 0);
        counts.push(lean_unbox_uint64(&heap, lean_ctor_get(&heap, pair, 1)));
    }
    assert!(counts[1] >= 20_000);
    assert!(counts[0] < counts[1]);
}
