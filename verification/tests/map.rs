use perry::heap::Heap;
use perry::map::{
    drop_map_index, has_room, is_map, is_registered_map, js_map_alloc, js_map_clear, js_map_delete,
    js_map_get, js_map_has, js_map_set, js_map_size, reads_key,
};
use perry::value::TAG_UNDEFINED;

const MAP: u64 = 0x5_0000;

fn num(n: f64) -> u64 {
    n.to_bits()
}

fn string_value(addr: u64) -> u64 {
    0x7FFF_0000_0000_0000 | addr
}

fn pointer_value(addr: u64) -> u64 {
    0x7FFD_0000_0000_0000 | addr
}

fn heap_with_map(capacity: u32) -> Heap {
    let mut heap = Heap::new();
    assert_eq!(js_map_alloc(&mut heap, MAP, capacity), MAP);
    heap
}

#[test]
fn new_map_is_empty_and_registered() {
    let heap = heap_with_map(0);
    assert_eq!(js_map_size(&heap, MAP), 0);
    assert!(is_registered_map(&heap, MAP as usize));
    assert!(!is_registered_map(&heap, 0x6_0000));
    assert!(is_map(&heap, MAP));
    assert!(!is_map(&heap, 0x6_0000));
    let header = heap.header(MAP).unwrap();
    assert_eq!(header.capacity, 4);
    assert_eq!(header.entries, vec![0u64; 8]);
    assert_eq!(js_map_has(&heap, MAP, num(5121.0)), 0);
    assert_eq!(js_map_get(&heap, MAP, num(5121.0)), TAG_UNDEFINED);
}

#[test]
fn asked_capacity_is_kept() {
    let heap = heap_with_map(10);
    assert_eq!(heap.header(MAP).unwrap().capacity, 10);
    assert_eq!(heap.header(MAP).unwrap().entries.len(), 20);
}

#[test]
fn get_after_set() {
    let mut heap = heap_with_map(0);
    assert_eq!(js_map_set(&mut heap, MAP, num(1.0), num(10.0)), MAP);
    js_map_set(&mut heap, MAP, num(2.0), num(20.0));
    assert_eq!(js_map_get(&heap, MAP, num(1.0)), num(10.0));
    assert_eq!(js_map_get(&heap, MAP, num(2.0)), num(20.0));
    assert_eq!(js_map_get(&heap, MAP, num(3.0)), TAG_UNDEFINED);
    assert_eq!(js_map_has(&heap, MAP, num(1.0)), 1);
    assert_eq!(js_map_size(&heap, MAP), 2);
}

#[test]
fn set_again_overwrites_in_place() {
    let mut heap = heap_with_map(0);
    js_map_set(&mut heap, MAP, num(1.0), num(10.0));
    js_map_set(&mut heap, MAP, num(2.0), num(20.0));
    js_map_set(&mut heap, MAP, num(1.0), num(11.0));
    assert_eq!(js_map_size(&heap, MAP), 2);
    assert_eq!(js_map_get(&heap, MAP, num(1.0)), num(11.0));
    let header = heap.header(MAP).unwrap();
    assert_eq!(&header.entries[0..4], &[num(1.0), num(11.0), num(2.0), num(20.0)]);
}

#[test]
fn boxed_and_raw_pointers_name_the_same_map() {
    let mut heap = heap_with_map(0);
    assert_eq!(js_map_set(&mut heap, pointer_value(MAP), num(1.0), num(2.0)), MAP);
    assert_eq!(js_map_get(&heap, MAP, num(1.0)), num(2.0));
    assert_eq!(js_map_size(&heap, pointer_value(MAP)), 1);
}

#[test]
fn null_maps_are_ignored() {
    let mut heap = heap_with_map(0);
    js_map_set(&mut heap, MAP, num(1.0), num(2.0));
    for null in [0u64, TAG_UNDEFINED, 0x7FFC_0000_0000_0002, 0x7FFD_0000_0000_0000] {
        assert_eq!(js_map_set(&mut heap, null, num(1.0), num(3.0)), 0);
        assert_eq!(js_map_get(&heap, null, num(1.0)), TAG_UNDEFINED);
        assert_eq!(js_map_has(&heap, null, num(1.0)), 0);
        assert_eq!(js_map_delete(&mut heap, null, num(1.0)), 0);
        assert_eq!(js_map_size(&heap, null), 0);
        js_map_clear(&mut heap, null);
    }
    assert_eq!(js_map_get(&heap, MAP, num(1.0)), num(2.0));
}

#[test]
fn negative_zero_is_zero() {
    let mut heap = heap_with_map(0);
    js_map_set(&mut heap, MAP, num(-0.0), num(7.0));
    assert_eq!(js_map_get(&heap, MAP, num(0.0)), num(7.0));
    assert_eq!(js_map_get(&heap, MAP, num(-0.0)), num(7.0));
    assert_eq!(heap.header(MAP).unwrap().entries[0], 0);
    js_map_set(&mut heap, MAP, num(0.0), num(8.0));
    assert_eq!(js_map_size(&heap, MAP), 1);
    assert_eq!(js_map_delete(&mut heap, MAP, num(-0.0)), 1);
    assert_eq!(js_map_size(&heap, MAP), 0);
}

#[test]
fn strings_are_keys_by_content() {
    let mut heap = heap_with_map(0);
    assert!(heap.write_string(0x2_0000, b"abc".to_vec()));
    assert!(heap.write_string(0x3_0000, b"abc".to_vec()));
    assert!(heap.write_string(0x4_0000, b"abd".to_vec()));
    js_map_set(&mut heap, MAP, string_value(0x2_0000), num(1.0));
    assert_eq!(js_map_get(&heap, MAP, string_value(0x3_0000)), num(1.0));
    assert_eq!(js_map_get(&heap, MAP, pointer_value(0x3_0000)), num(1.0));
    assert_eq!(js_map_get(&heap, MAP, 0x3_0000), num(1.0));
    assert_eq!(js_map_get(&heap, MAP, string_value(0x4_0000)), TAG_UNDEFINED);
    js_map_set(&mut heap, MAP, pointer_value(0x3_0000), num(2.0));
    assert_eq!(js_map_size(&heap, MAP), 1);
    assert_eq!(heap.header(MAP).unwrap().entries[0], string_value(0x2_0000));
}

#[test]
fn low_pointers_are_keys_by_address() {
    let mut heap = heap_with_map(0);
    js_map_set(&mut heap, MAP, string_value(5), num(1.0));
    assert_eq!(js_map_get(&heap, MAP, pointer_value(5)), num(1.0));
    assert_eq!(js_map_get(&heap, MAP, pointer_value(6)), TAG_UNDEFINED);
    for n in 0..20u64 {
        js_map_set(&mut heap, MAP, num(n as f64), num(0.0));
    }
    assert_eq!(js_map_get(&heap, MAP, pointer_value(5)), num(1.0));
}

#[test]
fn a_key_string_cannot_be_overwritten() {
    let mut heap = heap_with_map(0);
    assert!(heap.write_string(0x2_0000, b"abc".to_vec()));
    js_map_set(&mut heap, MAP, string_value(0x2_0000), num(1.0));
    assert_eq!(heap.pinning_map(0x2_0000), Some(MAP));
    assert!(!heap.write_string(0x2_0000, b"xyz".to_vec()));
    js_map_delete(&mut heap, MAP, string_value(0x2_0000));
    assert_eq!(heap.pinning_map(0x2_0000), None);
    assert!(heap.write_string(0x2_0000, b"xyz".to_vec()));
    assert_eq!(heap.string_table().get(0x2_0000), Some(&b"xyz".to_vec()));
}

#[test]
fn growth_doubles_the_capacity() {
    let mut heap = heap_with_map(0);
    for n in 0..5u64 {
        assert!(has_room(&heap, MAP));
        js_map_set(&mut heap, MAP, num(n as f64), num(0.0));
    }
    assert_eq!(heap.header(MAP).unwrap().capacity, 8);
    for n in 5..9u64 {
        js_map_set(&mut heap, MAP, num(n as f64), num(0.0));
    }
    assert_eq!(heap.header(MAP).unwrap().capacity, 16);
    assert_eq!(js_map_size(&heap, MAP), 9);
}

#[test]
fn delete_moves_the_last_entry() {
    let mut heap = heap_with_map(0);
    for n in 1..4u64 {
        js_map_set(&mut heap, MAP, num(n as f64), num(10.0 * n as f64));
    }
    assert_eq!(js_map_delete(&mut heap, MAP, num(1.0)), 1);
    assert_eq!(js_map_delete(&mut heap, MAP, num(1.0)), 0);
    let header = heap.header(MAP).unwrap();
    assert_eq!(header.size, 2);
    assert_eq!(&header.entries[0..4], &[num(3.0), num(30.0), num(2.0), num(20.0)]);
    assert_eq!(js_map_get(&heap, MAP, num(3.0)), num(30.0));
}

#[test]
fn delete_undoes_set() {
    let mut heap = heap_with_map(0);
    js_map_set(&mut heap, MAP, num(1.0), num(10.0));
    js_map_set(&mut heap, MAP, num(2.0), num(20.0));
    js_map_delete(&mut heap, MAP, num(2.0));
    assert_eq!(js_map_size(&heap, MAP), 1);
    assert_eq!(js_map_get(&heap, MAP, num(1.0)), num(10.0));
    assert_eq!(js_map_has(&heap, MAP, num(2.0)), 0);
}

#[test]
fn large_maps_find_through_the_index() {
    let mut heap = heap_with_map(0);
    for n in 0..2500u64 {
        js_map_set(&mut heap, MAP, num(n as f64), num(n as f64 + 0.5));
    }
    assert_eq!(js_map_size(&heap, MAP), 2500);
    for n in 0..2500u64 {
        assert_eq!(js_map_get(&heap, MAP, num(n as f64)), num(n as f64 + 0.5));
    }
    for n in (0..2500u64).step_by(3) {
        assert_eq!(js_map_delete(&mut heap, MAP, num(n as f64)), 1);
    }
    for n in 0..2500u64 {
        let expected = if n % 3 == 0 { TAG_UNDEFINED } else { num(n as f64 + 0.5) };
        assert_eq!(js_map_get(&heap, MAP, num(n as f64)), expected);
    }
    assert_eq!(js_map_has(&heap, MAP, num(2501.0)), 0);
}

#[test]
fn large_maps_find_strings_by_content() {
    let mut heap = heap_with_map(0);
    for n in 0..30u64 {
        assert!(heap.write_string(0x10_0000 + n * 16, format!("key{}", n).into_bytes()));
        assert!(heap.write_string(0x20_0000 + n * 16, format!("key{}", n).into_bytes()));
        js_map_set(&mut heap, MAP, string_value(0x10_0000 + n * 16), num(n as f64));
    }
    for n in 0..30u64 {
        assert_eq!(js_map_get(&heap, MAP, pointer_value(0x20_0000 + n * 16)), num(n as f64));
    }
}

#[test]
fn lookups_survive_a_dropped_index() {
    let mut heap = heap_with_map(0);
    for n in 0..20u64 {
        js_map_set(&mut heap, MAP, num(n as f64), num(1.0));
    }
    drop_map_index(&mut heap, MAP as usize);
    drop_map_index(&mut heap, 0x9999);
    assert_eq!(js_map_get(&heap, MAP, num(3.0)), num(1.0));
    assert_eq!(js_map_delete(&mut heap, MAP, num(4.0)), 1);
    js_map_set(&mut heap, MAP, num(100.0), num(2.0));
    assert_eq!(js_map_get(&heap, MAP, num(100.0)), num(2.0));
    assert_eq!(js_map_get(&heap, MAP, num(3.0)), num(1.0));
    assert_eq!(js_map_get(&heap, MAP, num(4.0)), TAG_UNDEFINED);
    js_map_set(&mut heap, MAP, num(3.0), num(5.0));
    assert_eq!(js_map_size(&heap, MAP), 20);
}

#[test]
fn clear_empties_but_keeps_room() {
    let mut heap = heap_with_map(0);
    for n in 0..20u64 {
        js_map_set(&mut heap, MAP, num(n as f64), num(1.0));
    }
    js_map_clear(&mut heap, MAP);
    assert_eq!(js_map_size(&heap, MAP), 0);
    assert_eq!(heap.header(MAP).unwrap().capacity, 32);
    assert_eq!(js_map_has(&heap, MAP, num(3.0)), 0);
    for n in 0..20u64 {
        js_map_set(&mut heap, MAP, num(n as f64 + 50.0), num(2.0));
    }
    assert_eq!(js_map_has(&heap, MAP, num(3.0)), 0);
    assert_eq!(js_map_get(&heap, MAP, num(53.0)), num(2.0));
}

#[test]
fn a_recycled_address_holds_nothing_of_the_earlier_map() {
    let mut heap = heap_with_map(0);
    for n in 0..2500u64 {
        js_map_set(&mut heap, MAP, num(n as f64 + 5000.0), num(1.0));
    }
    js_map_alloc(&mut heap, MAP, 0);
    assert_eq!(js_map_has(&heap, MAP, num(5121.0)), 0);
    for n in 0..20u64 {
        js_map_set(&mut heap, MAP, num(n as f64), num(1.0));
    }
    assert_eq!(js_map_has(&heap, MAP, num(5121.0)), 0);
    assert_eq!(js_map_size(&heap, MAP), 20);
}

#[test]
fn maps_do_not_disturb_each_other() {
    let mut heap = heap_with_map(0);
    js_map_alloc(&mut heap, 0x6_0000, 0);
    for n in 0..20u64 {
        js_map_set(&mut heap, MAP, num(n as f64), num(1.0));
        js_map_set(&mut heap, 0x6_0000, num(n as f64), num(2.0));
    }
    js_map_clear(&mut heap, MAP);
    assert_eq!(js_map_size(&heap, 0x6_0000), 20);
    assert_eq!(js_map_get(&heap, 0x6_0000, num(19.0)), num(2.0));
}

#[test]
fn a_freed_map_is_gone_and_pins_no_string() {
    let mut heap = heap_with_map(0);
    assert!(heap.write_string(0x2_0000, b"key".to_vec()));
    js_map_set(&mut heap, MAP, string_value(0x2_0000), num(1.0));
    assert!(!heap.write_string(0x2_0000, b"other".to_vec()));
    heap.free_map(MAP);
    assert!(!is_map(&heap, MAP));
    assert!(is_registered_map(&heap, MAP as usize));
    assert!(heap.write_string(0x2_0000, b"other".to_vec()));
    heap.free_map(MAP);
    js_map_alloc(&mut heap, MAP, 0);
    assert_eq!(js_map_size(&heap, MAP), 0);
    assert_eq!(js_map_has(&heap, MAP, string_value(0x2_0000)), 0);
}

#[test]
fn null_maps_do_not_read_the_key() {
    let mut heap = Heap::new();
    let dangling = string_value(0x9_0000);
    assert_eq!(js_map_get(&heap, 0, dangling), TAG_UNDEFINED);
    assert_eq!(js_map_has(&heap, 0, dangling), 0);
    assert_eq!(js_map_set(&mut heap, 0, dangling, num(1.0)), 0);
    assert_eq!(js_map_delete(&mut heap, 0, dangling), 0);
}

#[test]
fn a_lookup_among_numbers_reads_no_string() {
    let mut heap = heap_with_map(0);
    let dangling = pointer_value(0x9_0000);
    for n in 0..8 {
        js_map_set(&mut heap, MAP, num(n as f64), num(1.0));
    }
    assert!(!reads_key(&heap, MAP, dangling));
    assert_eq!(js_map_get(&heap, MAP, dangling), TAG_UNDEFINED);
    assert_eq!(js_map_has(&heap, MAP, dangling), 0);
    assert_eq!(js_map_delete(&mut heap, MAP, dangling), 0);
    assert_eq!(js_map_size(&heap, MAP), 8);
    js_map_set(&mut heap, MAP, num(8.0), num(1.0));
    assert!(reads_key(&heap, MAP, dangling));
    assert!(!reads_key(&heap, MAP, num(8.0)));
    drop_map_index(&mut heap, MAP as usize);
    assert!(!reads_key(&heap, MAP, dangling));
    assert_eq!(js_map_has(&heap, MAP, dangling), 0);
}

#[test]
fn a_lookup_among_strings_reads_the_string() {
    let mut heap = heap_with_map(0);
    heap.write_string(0x2_0000, b"key".to_vec());
    js_map_set(&mut heap, MAP, string_value(0x2_0000), num(1.0));
    assert!(!reads_key(&heap, MAP, string_value(0x2_0000)));
    assert!(reads_key(&heap, MAP, string_value(0x9_0000)));
    assert!(!reads_key(&heap, 0, string_value(0x9_0000)));
}

#[test]
fn strings_are_freed_when_no_key_points_there() {
    let mut heap = heap_with_map(0);
    heap.write_string(0x2_0000, b"key".to_vec());
    heap.write_string(0x3_0000, b"other".to_vec());
    js_map_set(&mut heap, MAP, string_value(0x2_0000), num(1.0));
    assert!(heap.free_string(0x3_0000));
    assert!(heap.string_table().get(0x3_0000).is_none());
    assert!(!heap.free_string(0x2_0000));
    assert_eq!(heap.string_table().get(0x2_0000), Some(&b"key".to_vec()));
}
