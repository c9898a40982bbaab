use std::collections::hash_map::DefaultHasher;
use std::hash::{Hash, Hasher};

use perry::header::{capacity_fits, entries_layout};
use perry::key::{is_readable, jsvalue_eq, JSValueKey};
use perry::strings::{strings_equal, StringTable};
use perry::value::{
    clean_map_ptr, extract_string_ptr_from_value, is_string_like, looks_like_pointer,
    nanbox_pointer, normalize_zero, payload_of, tag_of,
};

#[test]
fn tags_and_payloads() {
    assert_eq!(tag_of(0x7FFD_1234_5678_9ABC), 0x7FFD);
    assert_eq!(payload_of(0x7FFD_1234_5678_9ABC), 0x1234_5678_9ABC);
}

#[test]
fn map_pointers_are_cleaned() {
    assert_eq!(clean_map_ptr(0x1234_5678), 0x1234_5678);
    assert_eq!(clean_map_ptr(0x7FFD_0000_1234_5678), 0x1234_5678);
    assert_eq!(clean_map_ptr(0x7FF8_0000_0000_0042), 0x42);
    assert_eq!(clean_map_ptr(0x7FFC_0000_0000_0001), 0);
    assert_eq!(clean_map_ptr(0x7FFC_0000_0000_0099), 0);
    assert_eq!(clean_map_ptr(0x7FFF_0000_0000_0000), 0);
    assert_eq!(clean_map_ptr(0xFFFF_0000_0000_0007), 7);
    assert_eq!(clean_map_ptr(0x7FF7_0000_0000_0007), 0x7FF7_0000_0000_0007);
}

#[test]
fn only_negative_zero_is_normalized() {
    assert_eq!(normalize_zero((-0.0f64).to_bits()), 0);
    assert_eq!(normalize_zero(0), 0);
    assert_eq!(normalize_zero((-1.0f64).to_bits()), (-1.0f64).to_bits());
    assert_eq!(normalize_zero(f64::NAN.to_bits()), f64::NAN.to_bits());
}

#[test]
fn string_pointers_are_extracted() {
    assert_eq!(extract_string_ptr_from_value(0x7FFF_0000_0002_0000), 0x2_0000);
    assert_eq!(extract_string_ptr_from_value(0x7FFD_0000_0002_0000), 0x2_0000);
    assert_eq!(extract_string_ptr_from_value(0x2_0000), 0x2_0000);
    assert_eq!(extract_string_ptr_from_value(0x1_0000), 0);
    assert_eq!(extract_string_ptr_from_value(0x7FFC_0000_0002_0000), 0);
    assert_eq!(extract_string_ptr_from_value(1.5f64.to_bits()), 0);
    assert!(is_string_like(0x7FFF_0000_0000_0005));
    assert!(!is_string_like(0x7FFF_0000_0000_0000));
}

#[test]
fn raw_pointers_have_no_tag() {
    assert!(looks_like_pointer(0x1_0001));
    assert!(!looks_like_pointer(0x1_0000));
    assert!(!looks_like_pointer(0x7FFD_0000_0002_0000));
}

#[test]
fn pointers_are_boxed() {
    assert_eq!(nanbox_pointer(0x2_0000), 0x7FFD_0000_0002_0000);
    assert_eq!(clean_map_ptr(nanbox_pointer(0x2_0000)), 0x2_0000);
}

#[test]
fn layouts_of_entry_buffers() {
    assert_eq!(entries_layout(0).size, 8);
    assert_eq!(entries_layout(4).size, 64);
    assert_eq!(entries_layout(4).align, 8);
    assert!(capacity_fits(4));
}

fn table() -> StringTable {
    let mut strings = StringTable::new();
    strings.insert(0x2_0000, b"abc".to_vec());
    strings.insert(0x3_0000, b"abc".to_vec());
    strings.insert(0x4_0000, b"abcd".to_vec());
    strings.insert(0x5_0000, Vec::new());
    strings
}

#[test]
fn strings_compare_by_content() {
    let strings = table();
    assert!(strings_equal(&strings, 0x2_0000, 0x3_0000));
    assert!(!strings_equal(&strings, 0x2_0000, 0x4_0000));
    assert!(!strings_equal(&strings, 0x2_0000, 0x5_0000));
    assert!(strings_equal(&strings, 5, 5));
    assert!(!strings_equal(&strings, 5, 0x2_0000));
}

#[test]
fn keys_compare_across_tags() {
    let strings = table();
    assert!(jsvalue_eq(&strings, 0x7FFF_0000_0002_0000, 0x7FFD_0000_0003_0000));
    assert!(jsvalue_eq(&strings, 0x7FFF_0000_0002_0000, 0x3_0000));
    assert!(!jsvalue_eq(&strings, 0x7FFF_0000_0002_0000, 0x4_0000));
    assert!(!jsvalue_eq(&strings, 1.0f64.to_bits(), 2.0f64.to_bits()));
    assert!(jsvalue_eq(&strings, f64::NAN.to_bits(), f64::NAN.to_bits()));
    assert!(JSValueKey(0x7FFF_0000_0000_0005).eq(&JSValueKey(0x7FFD_0000_0000_0005), &strings));
    assert!(jsvalue_eq(&strings, 0x9_0000, 0x9_0000));
    assert!(!jsvalue_eq(&strings, 0x9_0000, 1.0f64.to_bits()));
    assert!(is_readable(&strings, 0x2_0000));
    assert!(!is_readable(&strings, 0x9_0000));
    assert!(is_readable(&strings, 7));
}

#[test]
fn equal_keys_hash_alike() {
    let strings = table();
    let a = JSValueKey(0x7FFF_0000_0002_0000);
    let b = JSValueKey(0x3_0000);
    assert_eq!(a.code(&strings), b.code(&strings));
    assert_ne!(a.code(&strings), JSValueKey(0x4_0000).code(&strings));
    let low = JSValueKey(0x7FFF_0000_0000_0005);
    assert_eq!(low.code(&strings), JSValueKey(0x7FFD_0000_0000_0005).code(&strings));
    assert_ne!(
        JSValueKey(1.0f64.to_bits()).code(&strings),
        JSValueKey(2.0f64.to_bits()).code(&strings)
    );
}

#[test]
fn keys_are_fed_to_the_hasher() {
    let strings = table();
    let mut state = DefaultHasher::new();
    JSValueKey(0x7FFF_0000_0002_0000).hash(&strings, &mut state);
    let mut expected = DefaultHasher::new();
    0xFFFF_FFFFu32.hash(&mut expected);
    3u32.hash(&mut expected);
    b"abc".as_slice().hash(&mut expected);
    assert_eq!(state.finish(), expected.finish());
    let mut bits = DefaultHasher::new();
    1.0f64.to_bits().hash(&mut bits);
    assert_eq!(JSValueKey(1.0f64.to_bits()).code(&strings), bits.finish());
}
