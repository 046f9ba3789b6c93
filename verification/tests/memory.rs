use nicaiemu_core::heap::GuestHeap;
use nicaiemu_core::memory::GuestMemory;

fn two_regions() -> GuestMemory {
    let mut memory = GuestMemory::new();
    assert!(memory.map_region(0x1000, vec![1, 2, 3, 4]));
    assert!(memory.map_region(0xffff_fffc, vec![5, 6, 7, 8]));
    memory
}

#[test]
fn unmapped_bytes_read_as_zero_and_drop_writes() {
    let mut memory = two_regions();
    assert_eq!(memory.r8(0x0fff), 0);
    memory.w8(0x0fff, 9);
    assert_eq!(memory.r8(0x0fff), 0);
    memory.w16(0x1003, 0xaabb);
    assert_eq!(memory.r16(0x1003), 0x00bb);
}

#[test]
fn wide_accesses_are_little_endian() {
    let mut memory = two_regions();
    assert_eq!(memory.r16(0x1000), 0x0201);
    assert_eq!(memory.r32(0x1000), 0x0403_0201);
    memory.w32(0x1000, 0x1234_5678);
    assert_eq!(memory.r8(0x1000), 0x78);
    assert_eq!(memory.r8(0x1003), 0x12);
    assert_eq!(memory.r32(0x1000), 0x1234_5678);
}

#[test]
fn addresses_wrap_around() {
    let mut memory = two_regions();
    assert!(memory.map_region(0, vec![9, 10]));
    assert_eq!(memory.r16(0xffff_ffff), 0x0908);
    assert_eq!(memory.r32(0xffff_fffe), 0x0a09_0807);
}

#[test]
fn overlapping_and_overlong_regions_are_refused() {
    let mut memory = two_regions();
    assert!(!memory.map_region(0x1003, vec![0; 2]));
    assert!(!memory.map_region(0x0ffe, vec![0; 3]));
    assert!(!memory.map_region(0x0ff0, vec![0; 0x40]));
    assert!(!memory.map_region(0xffff_ffff, vec![0; 2]));
    assert!(memory.map_region(0x1004, vec![0; 2]));
    assert!(memory.map_region(0x0ffe, vec![0; 2]));
    assert_eq!(memory.r8(0x1003), 4);
}

#[test]
fn a_region_holds_a_range_only_as_a_whole() {
    let mut memory = two_regions();
    assert!(memory.map_region(0x1004, vec![0; 4]));
    assert_eq!(memory.region(0x1001, 3).unwrap().base, 0x1000);
    assert!(memory.region(0x1001, 4).is_none());
    assert!(memory.region(0x0fff, 1).is_none());
    assert_eq!(memory.region(0xffff_fffe, 2).unwrap().data, vec![5, 6, 7, 8]);
    assert!(memory.region(0xffff_fffe, 3).is_none());
}

#[test]
fn c_strings_end_at_zero_or_at_the_limit() {
    let mut memory = GuestMemory::new();
    assert!(memory.map_region(0x20, b"abc\0def".to_vec()));
    assert_eq!(memory.read_c_bytes(0x20, 16), b"abc");
    assert_eq!(memory.read_c_bytes(0x20, 2), b"ab");
    assert_eq!(memory.read_c_bytes(0x24, 16), b"def");
    assert_eq!(memory.read_c_bytes(0x23, 16), b"");
    assert_eq!(memory.read_c_bytes(0x20, 0), b"");
}

#[test]
fn blocks_are_fresh_and_their_size_is_kept() {
    let mut heap = GuestHeap::new(0x100, 32);
    let first = heap.allocate(5);
    let second = heap.allocate(8);
    assert_eq!(first, 0x100);
    assert_eq!(second, 0x108);
    assert_eq!(heap.allocation_size(first), Some(5));
    assert_eq!(heap.allocation_size(second), Some(8));
    assert_eq!(heap.allocation_size(0x101), None);
}

#[test]
fn requests_without_room_get_zero() {
    let mut heap = GuestHeap::new(0x100, 32);
    assert_eq!(heap.allocate(0), 0);
    assert_eq!(heap.allocate(33), 0);
    assert_eq!(heap.allocate(u32::MAX), 0);
    assert_eq!(heap.allocate(32), 0x100);
    assert_eq!(heap.allocate(1), 0);
    assert_eq!(heap.size(), 32);
}
