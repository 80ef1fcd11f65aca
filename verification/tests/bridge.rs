//! The memory bridge: packing, bounds-checked reads, request writes.

use hmny_host::memory::{mem_slice, pack, read_packed, unpack, write_request, SignalError};

#[test]
fn pack_unpack_round_trip() {
    for (offset, len) in [(0u64, 0u64), (0, 17), (1024, 65535), (0xFFFF_FFFF, 0xFFFF_FFFF)] {
        let word = pack(offset, len);
        let (o, l) = unpack(word);
        assert_eq!(o, offset);
        assert_eq!(l, len);
    }
}

#[test]
fn packed_word_layout() {
    // Length in the low 32 bits, offset in the high 32 bits.
    assert_eq!(pack(1, 2), (1u64 << 32) | 2);
}

#[test]
fn read_packed_in_bounds() {
    let memory: Vec<u8> = (0u8..32).collect();
    let word = pack(8, 4);
    let out = read_packed(&memory, word).unwrap();
    assert_eq!(out, vec![8, 9, 10, 11]);
}

#[test]
fn crafted_packed_result_is_refused() {
    // A packed result whose offset plus length exceeds the memory's size
    // yields MemoryTooSmall with the shortfall, never an out-of-bounds read.
    let memory: Vec<u8> = vec![0u8; 100];
    let word = pack(90, 20);
    match read_packed(&memory, word) {
        Err(SignalError::MemoryTooSmall(shortfall)) => assert_eq!(shortfall, 10),
        _ => panic!("an out-of-range buffer reference must be refused"),
    }
    let word = pack(0xFFFF_FFFF, 0xFFFF_FFFF);
    assert!(matches!(
        read_packed(&memory, word),
        Err(SignalError::MemoryTooSmall(_))
    ));
}

#[test]
fn mem_slice_reports_shortfall() {
    let memory: Vec<u8> = vec![7u8; 10];
    assert_eq!(mem_slice(&memory, 2, 10).unwrap(), &[7u8; 8][..]);
    assert_eq!(mem_slice(&memory, 0, 15).unwrap_err(), 5);
}

#[test]
fn write_request_fills_the_base() {
    let mut memory: Vec<u8> = vec![0xAA; 8];
    write_request(&mut memory, &[1, 2, 3]).unwrap();
    assert_eq!(memory, vec![1, 2, 3, 0xAA, 0xAA, 0xAA, 0xAA, 0xAA]);
}

#[test]
fn write_request_refuses_oversize() {
    let mut memory: Vec<u8> = vec![0u8; 4];
    match write_request(&mut memory, &[9u8; 5]) {
        Err(SignalError::EncodeFailed(_)) => {}
        _ => panic!("a request larger than the memory must be refused"),
    }
    assert_eq!(memory, vec![0u8; 4]);
}
