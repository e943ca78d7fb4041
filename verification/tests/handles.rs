use clocklean::lean::estatem::{Result, ResultPat, RESULT_ERROR_TAG, RESULT_OK_TAG};
use clocklean::lean::heap::Heap;
use clocklean::lean::layout::{Allocator, HeaderLayout, Object};
use clocklean::lean::runtime::{
    lean_alloc_ctor, lean_box, lean_box_uint64, lean_ctor_get, lean_object, lean_ptr_tag,
};
use clocklean::lean::{
    lean_pack, lean_unpack, BoxedUInt64, IOError, LeanObject, LeanRepr, Pair, Realworld,
};

fn all_heaps() -> Vec<Heap> {
    vec![
        Heap::new(HeaderLayout::Packed, Allocator::Small),
        Heap::new(HeaderLayout::Packed, Allocator::Generic),
        Heap::new(HeaderLayout::Discrete, Allocator::Small),
        Heap::new(HeaderLayout::Discrete, Allocator::Generic),
    ]
}

fn result_size(heap: &Heap) -> u64 {
    heap.layout().header_bytes() as u64 + 16
}

fn rc(heap: &Heap, o: u64) -> u64 {
    lean_object(heap, o).rc
}

#[test]
fn acquire_then_release_leaves_the_count() {
    for mut heap in all_heaps() {
        let o = lean_alloc_ctor(&mut heap, 0, 0, 0);
        let handle: LeanRepr<()> = LeanRepr::acquire(o);
        assert_eq!(handle.as_ptr(), o);
        assert_eq!(rc(&heap, o), 1);
        assert_eq!(handle.release(), o);
        assert_eq!(rc(&heap, o), 1);
        assert!(heap.is_live(o));
        assert_eq!(heap.deleted(), Vec::<u64>::new());
    }
}

#[test]
fn every_handle_type_hands_back_its_reference() {
    assert_eq!(Realworld::acquire(1).release(), 1);
    assert_eq!(IOError::acquire(24).release(), 24);
    assert_eq!(BoxedUInt64::acquire(32).release(), 32);
    assert_eq!(Pair::<Realworld, IOError>::acquire(40).release(), 40);
    assert_eq!(Result::<IOError, Realworld, BoxedUInt64>::acquire(48).release(), 48);
    assert_eq!(clocklean::lean::IO::<Realworld>::acquire(56).release(), 56);
    assert_eq!(LeanRepr::<u64>::acquire(u64::MAX).release(), u64::MAX);
}

#[test]
fn drop_gives_up_exactly_one_reference() {
    for mut heap in all_heaps() {
        let o = lean_alloc_ctor(&mut heap, 0, 0, 0);
        let first: LeanRepr<()> = LeanRepr::acquire(o);
        let mut second = first.clone(&mut heap);
        let mut third = first.clone(&mut heap);
        assert_eq!(rc(&heap, o), 3);
        second.drop(&mut heap);
        assert_eq!(rc(&heap, o), 2);
        third.drop(&mut heap);
        assert_eq!(rc(&heap, o), 1);
        assert!(heap.is_live(o));
        assert_eq!(heap.deleted(), Vec::<u64>::new());
        assert_eq!(first.release(), o);
    }
}

#[test]
fn dropping_the_last_handle_frees_the_object_once() {
    for mut heap in all_heaps() {
        let other = lean_alloc_ctor(&mut heap, 0, 0, 0);
        let o = lean_alloc_ctor(&mut heap, 0, 0, 0);
        let mut handle: LeanRepr<()> = LeanRepr::acquire(o);
        handle.drop(&mut heap);
        assert!(!heap.is_live(o));
        assert_eq!(heap.deleted(), vec![o]);
        assert_eq!(handle.as_ptr(), 0);
        handle.drop(&mut heap);
        handle.drop(&mut heap);
        assert_eq!(heap.deleted(), vec![o]);
        assert!(heap.is_live(other));
        assert_eq!(rc(&heap, other), 1);
        assert_eq!(handle.release(), 0);
    }
}

#[test]
fn clone_makes_a_second_owner() {
    for mut heap in all_heaps() {
        let o = lean_alloc_ctor(&mut heap, 0, 0, 0);
        let mut owner: LeanRepr<()> = LeanRepr::acquire(o);
        let mut copy = owner.clone(&mut heap);
        assert_eq!(copy.as_ptr(), o);
        assert_eq!(owner.as_ptr(), o);
        assert_eq!(rc(&heap, o), 2);
        owner.drop(&mut heap);
        assert!(heap.is_live(o));
        assert_eq!(rc(&heap, o), 1);
        assert_eq!(copy.as_ptr(), o);
        copy.drop(&mut heap);
        assert!(!heap.is_live(o));
        assert_eq!(heap.deleted(), vec![o]);
    }
}

#[test]
fn clone_and_release_leave_one_reference_each() {
    for mut heap in all_heaps() {
        let o = lean_alloc_ctor(&mut heap, 0, 0, 0);
        let owner: LeanRepr<()> = LeanRepr::acquire(o);
        let copy = owner.clone(&mut heap);
        assert_eq!(copy.release(), o);
        assert_eq!(owner.release(), o);
        assert_eq!(rc(&heap, o), 2);
        assert_eq!(heap.deleted(), Vec::<u64>::new());
    }
}

#[test]
fn handles_on_scalars_count_nothing() {
    for mut heap in all_heaps() {
        let size = heap.size();
        let mut handle: LeanRepr<()> = LeanRepr::acquire(lean_box(42));
        let mut copy = handle.clone(&mut heap);
        assert_eq!(copy.as_ptr(), 85);
        handle.drop(&mut heap);
        copy.drop(&mut heap);
        assert_eq!(heap.size(), size);
        assert_eq!(heap.deleted(), Vec::<u64>::new());
    }
}

#[test]
fn a_released_handle_clones_to_a_released_handle() {
    let mut heap = Heap::new(HeaderLayout::Packed, Allocator::Small);
    let o = lean_alloc_ctor(&mut heap, 0, 0, 0);
    let mut handle: LeanRepr<()> = LeanRepr::acquire(o);
    handle.drop(&mut heap);
    let copy = handle.clone(&mut heap);
    assert_eq!(copy.as_ptr(), 0);
    assert_eq!(heap.deleted(), vec![o]);
}

#[test]
fn pack_and_unpack_move_references() {
    for mut heap in all_heaps() {
        let a = lean_box_uint64(&mut heap, 1);
        let b = lean_box_uint64(&mut heap, 2);
        let p = lean_pack(&mut heap, 7, a, b);
        assert_eq!(lean_object(&heap, p), Object { rc: 1, tag: 7, mem_kind: 0, other: 2 });
        assert_eq!(lean_ctor_get(&heap, p, 0), a);
        assert_eq!(lean_ctor_get(&heap, p, 1), b);
        assert_eq!((rc(&heap, a), rc(&heap, b)), (1, 1));
        assert_eq!(lean_unpack(&mut heap, p), (a, b));
        assert_eq!((rc(&heap, a), rc(&heap, b)), (2, 2));
        assert!(!heap.is_live(p));
        assert_eq!(heap.deleted(), vec![p]);
    }
}

#[test]
fn pair_gives_back_its_components() {
    for mut heap in all_heaps() {
        let boxed = BoxedUInt64::mk(&mut heap, 99);
        let boxed_at = boxed.release();
        let pair = Pair::mk(&mut heap, Realworld::acquire(1), BoxedUInt64::acquire(boxed_at));
        let pair_at = pair.release();
        assert_eq!(lean_ptr_tag(&heap, pair_at), 0);
        assert_eq!(lean_ctor_get(&heap, pair_at, 0), 1);
        assert_eq!(lean_ctor_get(&heap, pair_at, 1), boxed_at);
        let (world, boxed) = Pair::<Realworld, BoxedUInt64>::acquire(pair_at).pat(&mut heap);
        assert_eq!(boxed.get(&heap), 99);
        assert_eq!(world.release(), 1);
        assert_eq!(boxed.release(), boxed_at);
        assert_eq!(rc(&heap, boxed_at), 2);
        assert_eq!(heap.deleted(), vec![pair_at]);
    }
}

#[test]
fn taking_a_shared_pair_apart_keeps_the_pair() {
    for mut heap in all_heaps() {
        let pair = Pair::mk(&mut heap, Realworld::acquire(1), IOError::acquire(3));
        let pair_at = pair.release();
        let keeper: LeanRepr<()> = LeanRepr::acquire(pair_at);
        let copy = keeper.clone(&mut heap);
        let (a, b) = Pair::<Realworld, IOError>::acquire(copy.release()).pat(&mut heap);
        assert_eq!((a.release(), b.release()), (1, 3));
        assert!(heap.is_live(pair_at));
        assert_eq!(rc(&heap, pair_at), 1);
        assert_eq!(heap.deleted(), Vec::<u64>::new());
        assert_eq!(keeper.release(), pair_at);
    }
}

#[test]
fn boxed_integers_round_trip() {
    for mut heap in all_heaps() {
        for x in [0u64, 1, 5000, 1 << 63, u64::MAX] {
            let boxed = BoxedUInt64::mk(&mut heap, x);
            assert_eq!(boxed.get(&heap), x);
            let at = boxed.release();
            assert!(heap.is_live(at));
            assert_eq!(lean_object(&heap, at), Object { rc: 1, tag: 0, mem_kind: 0, other: 0 });
        }
    }
}

#[test]
fn value_and_error_results_carry_different_tags() {
    assert_eq!(RESULT_OK_TAG, 0);
    assert_eq!(RESULT_ERROR_TAG, 1);
    for mut heap in all_heaps() {
        let ok = Result::<IOError, Realworld, BoxedUInt64>::ok(
            &mut heap,
            BoxedUInt64::acquire(85),
            Realworld::acquire(1),
        );
        let ok_at = ok.release();
        let err = Result::<IOError, Realworld, BoxedUInt64>::error(
            &mut heap,
            IOError::acquire(13),
            Realworld::acquire(1),
        );
        let err_at = err.release();
        assert_eq!(lean_ptr_tag(&heap, ok_at), 0);
        assert_eq!(lean_ptr_tag(&heap, err_at), 1);
        assert_eq!(lean_object(&heap, ok_at), Object { rc: 1, tag: 0, mem_kind: 0, other: 2 });
        assert_eq!(lean_object(&heap, err_at), Object { rc: 1, tag: 1, mem_kind: 0, other: 2 });
    }
}

#[test]
fn a_value_result_decodes_as_a_value() {
    for mut heap in all_heaps() {
        let made = Result::<IOError, Realworld, BoxedUInt64>::ok(
            &mut heap,
            BoxedUInt64::acquire(85),
            Realworld::acquire(3),
        );
        let at = heap.size() - result_size(&heap);
        match made.pat(&mut heap) {
            ResultPat::Success(a, s) => {
                assert_eq!(a.release(), 85);
                assert_eq!(s.release(), 3);
            },
            ResultPat::Error(_, _) => panic!("a value was decoded as an error"),
        }
        assert_eq!(heap.deleted(), vec![at]);
    }
}

#[test]
fn an_error_result_decodes_as_an_error_with_its_own_state() {
    for mut heap in all_heaps() {
        let made = Result::<IOError, Realworld, BoxedUInt64>::error(
            &mut heap,
            IOError::acquire(13),
            Realworld::acquire(3),
        );
        match made.pat(&mut heap) {
            ResultPat::Error(e, s) => {
                assert_eq!(e.release(), 13);
                assert_eq!(s.release(), 3);
            },
            ResultPat::Success(_, _) => panic!("an error was decoded as a value"),
        }
        assert_eq!(heap.deleted().len(), 1);
    }
}

#[test]
fn decoding_a_result_gives_its_objects_a_reference_each() {
    for mut heap in all_heaps() {
        let value = lean_box_uint64(&mut heap, 7);
        let state = lean_box_uint64(&mut heap, 8);
        let made = Result::<IOError, Realworld, BoxedUInt64>::ok(
            &mut heap,
            BoxedUInt64::acquire(value),
            Realworld::acquire(state),
        );
        match made.pat(&mut heap) {
            ResultPat::Success(a, s) => {
                assert_eq!(a.get(&heap), 7);
                assert_eq!(a.release(), value);
                assert_eq!(s.release(), state);
            },
            ResultPat::Error(_, _) => panic!("a value was decoded as an error"),
        }
        assert_eq!((rc(&heap, value), rc(&heap, state)), (2, 2));
    }
}
