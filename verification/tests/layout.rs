use clocklean::clock::micros_to_u64;
use clocklean::lean::layout::{
    Allocator, HeaderLayout, Object, LEAN_MAX_SMALL_OBJECT_SIZE, LEAN_MT_MEM_KIND,
    LEAN_OBJECT_SIZE_DELTA, LEAN_RC_NBITS, LEAN_ST_MEM_KIND,
};
use clocklean::lean::runtime::{
    lean_align, lean_box, lean_byte, lean_get_slot_idx, lean_is_scalar, lean_unbox,
};

#[test]
fn odd_words_are_scalars() {
    assert!(lean_is_scalar(1));
    assert!(lean_is_scalar(85));
    assert!(lean_is_scalar(u64::MAX));
    assert!(!lean_is_scalar(0));
    assert!(!lean_is_scalar(8));
    assert!(!lean_is_scalar(0xffff_ffff_ffff_fff0));
}

#[test]
fn boxed_numbers_are_scalars_and_unbox_to_themselves() {
    assert_eq!(lean_box(0), 1);
    assert_eq!(lean_box(42), 85);
    assert_eq!(lean_box(0x7fff_ffff_ffff_ffff), u64::MAX);
    for n in [0u64, 1, 42, 1 << 40, 0x7fff_ffff_ffff_ffff] {
        assert!(lean_is_scalar(lean_box(n)));
        assert_eq!(lean_unbox(lean_box(n)), n);
    }
}

#[test]
fn lean_byte_picks_each_byte_from_the_low_end() {
    let v: u64 = 0x0807_0605_0403_0201;
    for idx in 0u8..8 {
        assert_eq!(lean_byte(v, idx), idx + 1);
    }
    assert_eq!(lean_byte(u64::MAX, 7), 0xff);
    assert_eq!(lean_byte(0, 0), 0);
    assert_eq!(lean_byte(0x1234, 1), 0x12);
}

#[test]
fn lean_align_rounds_up_to_the_next_multiple() {
    assert_eq!(lean_align(0, 8), 0);
    assert_eq!(lean_align(1, 8), 8);
    assert_eq!(lean_align(8, 8), 8);
    assert_eq!(lean_align(13, 8), 16);
    assert_eq!(lean_align(4089, 8), 4096);
    assert_eq!(lean_align(4096, 8), 4096);
    assert_eq!(lean_align(7, 1), 7);
    assert_eq!(lean_align(10, 3), 12);
}

#[test]
fn slot_index_counts_size_classes_from_zero() {
    assert_eq!(lean_get_slot_idx(8), 0);
    assert_eq!(lean_get_slot_idx(16), 1);
    assert_eq!(lean_get_slot_idx(32), 3);
    assert_eq!(lean_get_slot_idx(4096), 511);
}

#[test]
fn layouts_have_their_header_sizes() {
    assert_eq!(HeaderLayout::Packed.header_bytes(), 8);
    assert_eq!(HeaderLayout::Discrete.header_bytes(), 16);
    assert_eq!(Allocator::Small.prefix_bytes(), 0);
    assert_eq!(Allocator::Generic.prefix_bytes(), 8);
}

#[test]
fn constants_have_the_runtime_values() {
    assert_eq!(LEAN_ST_MEM_KIND, 0);
    assert_eq!(LEAN_MT_MEM_KIND, 1);
    assert_eq!(LEAN_RC_NBITS, 32);
    assert_eq!(LEAN_MAX_SMALL_OBJECT_SIZE, 4096);
    assert_eq!(LEAN_OBJECT_SIZE_DELTA, 8);
}

#[test]
fn microseconds_keep_their_low_64_bits() {
    assert_eq!(micros_to_u64(0), 0);
    assert_eq!(micros_to_u64(5000), 5000);
    assert_eq!(micros_to_u64(u64::MAX as u128), u64::MAX);
    assert_eq!(micros_to_u64((1u128 << 64) + 5), 5);
    assert_eq!(micros_to_u64(u128::MAX), u64::MAX);
}

#[test]
fn fresh_packed_headers_have_the_documented_bits() {
    assert_eq!(Object::pack_st(0, 0), 0x0000_0000_0000_0001);
    assert_eq!(Object::pack_st(3, 2), 0x0302_0000_0000_0001);
    assert_eq!(Object::pack_st(255, 255), 0xffff_0000_0000_0001);
    assert_eq!(Object::pack_st(1, 0), 1u64 << 56 | 1);
}

#[test]
fn packed_headers_decode_field_by_field() {
    assert_eq!(
        Object::unpack(0x0302_0000_0000_0001),
        Object { rc: 1, tag: 3, mem_kind: 0, other: 2 }
    );
    assert_eq!(
        Object::unpack(0xf5aa_01ee_ffff_fffe),
        Object { rc: 0xffff_fffe, tag: 0xf5, mem_kind: 0x01, other: 0xaa }
    );
    assert_eq!(Object::unpack(0), Object { rc: 0, tag: 0, mem_kind: 0, other: 0 });
    for (tag, other) in [(0u8, 0u16), (7, 1), (244, 255)] {
        assert_eq!(
            Object::unpack(Object::pack_st(tag, other)),
            Object { rc: 1, tag, mem_kind: 0, other }
        );
    }
}
