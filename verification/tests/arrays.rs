use perry::foreach::{js_map_foreach, ClosureCall};
use perry::heap::Heap;
use perry::map::{js_map_alloc, js_map_clear, js_map_delete, js_map_get, js_map_set, js_map_size};
use perry::map_arrays::{
    inner_array_of, js_map_entries, js_map_from_array, js_map_keys, js_map_values,
    try_map_from_array,
};

const MAP: u64 = 0x5_0000;

fn num(n: f64) -> u64 {
    n.to_bits()
}

fn boxed(addr: u64) -> u64 {
    0x7FFD_0000_0000_0000 | addr
}

fn sample() -> Heap {
    let mut heap = Heap::new();
    js_map_alloc(&mut heap, MAP, 0);
    for n in 1..4u64 {
        js_map_set(&mut heap, MAP, num(n as f64), num(10.0 * n as f64));
    }
    heap
}

#[test]
fn keys_in_entry_order() {
    let mut heap = sample();
    assert_eq!(js_map_keys(&mut heap, MAP, 0x8_0000), 0x8_0000);
    assert_eq!(heap.array(0x8_0000), Some(&vec![num(1.0), num(2.0), num(3.0)]));
}

#[test]
fn values_in_entry_order() {
    let mut heap = sample();
    assert_eq!(js_map_values(&mut heap, MAP, 0x8_0000), 0x8_0000);
    assert_eq!(heap.array(0x8_0000), Some(&vec![num(10.0), num(20.0), num(30.0)]));
}

#[test]
fn null_map_gives_empty_arrays() {
    let mut heap = sample();
    js_map_keys(&mut heap, 0, 0x8_0000);
    js_map_values(&mut heap, 0, 0x9_0000);
    js_map_entries(&mut heap, 0, 0xA_0000, &Vec::new());
    assert_eq!(heap.array(0x8_0000), Some(&Vec::new()));
    assert_eq!(heap.array(0x9_0000), Some(&Vec::new()));
    assert_eq!(heap.array(0xA_0000), Some(&Vec::new()));
}

#[test]
fn entries_are_boxed_pairs() {
    let mut heap = sample();
    let addrs = vec![0xA_0000, 0xB_0000, 0xC_0000];
    assert_eq!(js_map_entries(&mut heap, MAP, 0x8_0000, &addrs), 0x8_0000);
    assert_eq!(
        heap.array(0x8_0000),
        Some(&vec![boxed(0xA_0000), boxed(0xB_0000), boxed(0xC_0000)])
    );
    assert_eq!(heap.array(0xA_0000), Some(&vec![num(1.0), num(10.0)]));
    assert_eq!(heap.array(0xC_0000), Some(&vec![num(3.0), num(30.0)]));
}

#[test]
fn a_map_made_from_its_entries_is_the_same() {
    let mut heap = sample();
    let addrs = vec![0xA_0000, 0xB_0000, 0xC_0000];
    js_map_entries(&mut heap, MAP, 0x8_0000, &addrs);
    assert_eq!(js_map_from_array(&mut heap, 0x6_0000, 0x8_0000), 0x6_0000);
    let copy = heap.header(0x6_0000).unwrap();
    let original = heap.header(MAP).unwrap();
    assert_eq!(copy.size, 3);
    assert_eq!(&copy.entries[0..6], &original.entries[0..6]);
}

#[test]
fn from_array_takes_the_last_of_equal_keys() {
    let mut heap = Heap::new();
    heap.write_array(0xA_0000, vec![num(1.0), num(10.0)]);
    heap.write_array(0xB_0000, vec![num(2.0), num(20.0), num(99.0)]);
    heap.write_array(0xC_0000, vec![num(1.0), num(30.0)]);
    heap.write_array(0x8_0000, vec![boxed(0xA_0000), boxed(0xB_0000), boxed(0xC_0000)]);
    js_map_from_array(&mut heap, MAP, 0x8_0000);
    assert_eq!(js_map_size(&heap, MAP), 2);
    assert_eq!(js_map_get(&heap, MAP, num(1.0)), num(30.0));
    assert_eq!(js_map_get(&heap, MAP, num(2.0)), num(20.0));
}

#[test]
fn from_array_passes_over_what_is_no_pair() {
    let mut heap = Heap::new();
    heap.write_array(0xA_0000, vec![num(1.0)]);
    heap.write_array(0xB_0000, vec![num(2.0), num(20.0)]);
    heap.write_array(
        0x8_0000,
        vec![
            boxed(0xA_0000),
            num(1.5),
            0x7FFC_0000_0000_0001,
            boxed(0),
            0x100,
            0xB_0000,
        ],
    );
    js_map_from_array(&mut heap, MAP, 0x8_0000);
    assert_eq!(js_map_size(&heap, MAP), 1);
    assert_eq!(js_map_get(&heap, MAP, num(2.0)), num(20.0));
}

#[test]
fn from_no_array_is_empty() {
    let mut heap = Heap::new();
    assert_eq!(js_map_from_array(&mut heap, MAP, 0), MAP);
    assert_eq!(js_map_size(&heap, MAP), 0);
    assert_eq!(heap.header(MAP).unwrap().capacity, 4);
}

#[test]
fn inner_arrays_come_under_several_tags() {
    assert_eq!(inner_array_of(0x7FFD_0000_0002_0000), 0x2_0000);
    assert_eq!(inner_array_of(0x7FFF_0000_0002_0000), 0x2_0000);
    assert_eq!(inner_array_of(0x7FFA_0000_0002_0000), 0x2_0000);
    assert_eq!(inner_array_of(0x2_0000), 0x2_0000);
    assert_eq!(inner_array_of(0x1_0000), 0);
    assert_eq!(inner_array_of(0x7FFB_0000_0002_0000), 0);
}

#[test]
fn large_array_grows_the_map() {
    let mut heap = Heap::new();
    let mut elements = Vec::new();
    for n in 0..100u64 {
        heap.write_array(0x10_0000 + n * 16, vec![num(n as f64), num(-(n as f64))]);
        elements.push(boxed(0x10_0000 + n * 16));
    }
    heap.write_array(0x8_0000, elements);
    js_map_from_array(&mut heap, MAP, 0x8_0000);
    assert_eq!(js_map_size(&heap, MAP), 100);
    assert_eq!(heap.header(MAP).unwrap().capacity, 128);
    assert_eq!(js_map_get(&heap, MAP, num(77.0)), num(-77.0));
}

#[test]
fn foreach_visits_every_pair_in_order() {
    let heap = sample();
    let mut cursor = js_map_foreach(&heap, boxed(MAP), boxed(0x7_0000));
    let mut calls = Vec::new();
    while cursor.can_step(&heap) {
        match cursor.step(&heap) {
            Some(call) => calls.push(call),
            None => break,
        }
    }
    let call = |k: f64| ClosureCall {
        closure: 0x7_0000,
        value: num(10.0 * k),
        key: num(k),
        map: boxed(MAP),
    };
    assert_eq!(calls, vec![call(1.0), call(2.0), call(3.0)]);
}

#[test]
fn foreach_over_null_makes_no_call() {
    let heap = sample();
    let mut cursor = js_map_foreach(&heap, 0, boxed(0x7_0000));
    assert_eq!(cursor.step(&heap), None);
}

#[test]
fn foreach_reads_the_buffer_as_it_is_then() {
    let mut heap = sample();
    let mut cursor = js_map_foreach(&heap, MAP, 0x7_0000);
    assert_eq!(cursor.step(&heap).unwrap().key, num(1.0));
    js_map_set(&mut heap, MAP, num(2.0), num(21.0));
    js_map_set(&mut heap, MAP, num(9.0), num(90.0));
    js_map_set(&mut heap, MAP, num(10.0), num(91.0));
    assert_eq!(cursor.step(&heap).unwrap().value, num(21.0));
    js_map_delete(&mut heap, MAP, num(1.0));
    js_map_clear(&mut heap, MAP);
    assert_eq!(cursor.step(&heap).unwrap().key, num(3.0));
    assert_eq!(cursor.step(&heap), None);
    assert_eq!(js_map_size(&heap, MAP), 0);
}

#[test]
fn foreach_cannot_step_into_a_smaller_buffer() {
    let mut heap = sample();
    js_map_set(&mut heap, MAP, num(4.0), num(40.0));
    let mut cursor = js_map_foreach(&heap, MAP, 0x7_0000);
    assert!(cursor.step(&heap).is_some());
    js_map_alloc(&mut heap, MAP, 1);
    assert!(!cursor.can_step(&heap));
}

#[test]
fn a_map_made_from_few_pairs_ends_in_zeros() {
    let mut heap = Heap::new();
    heap.write_array(0x2_0000, vec![num(1.0), num(2.0)]);
    heap.write_array(0x3_0000, vec![boxed(0x2_0000)]);
    assert_eq!(js_map_from_array(&mut heap, MAP, 0x3_0000), MAP);
    let header = heap.header(MAP).unwrap();
    assert_eq!(header.capacity, 4);
    assert_eq!(header.entries, vec![num(1.0), num(2.0), 0, 0, 0, 0, 0, 0]);
}

#[test]
fn room_is_asked_for_distinct_keys_only() {
    let mut heap = Heap::new();
    heap.write_array(0x2_0000, vec![num(1.0), num(2.0)]);
    heap.write_array(0x3_0000, vec![boxed(0x2_0000); 100]);
    assert_eq!(try_map_from_array(&mut heap, MAP, 0x3_0000), Some(MAP));
    assert_eq!(js_map_size(&heap, MAP), 1);
    assert_eq!(heap.header(MAP).unwrap().capacity, 4);
    assert_eq!(js_map_get(&heap, MAP, num(1.0)), num(2.0));
    assert_eq!(try_map_from_array(&mut heap, MAP, 0), Some(MAP));
    assert_eq!(js_map_size(&heap, MAP), 0);
}

#[test]
fn a_taken_array_leaves_the_heap() {
    let mut heap = sample();
    js_map_keys(&mut heap, MAP, 0x8_0000);
    assert_eq!(heap.take_array(0x8_0000), Some(vec![num(1.0), num(2.0), num(3.0)]));
    assert_eq!(heap.array(0x8_0000), None);
    assert_eq!(heap.take_array(0x8_0000), None);
}
