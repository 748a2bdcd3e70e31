use heap_size::recognize_heap;
use heap_size::AddressRange;

#[test]
fn heap_region() {
    let input = "7ff6ad5f8000-7ff6ad7f5000 rw-p 00000000 00:00 0";
    let range = recognize_heap(input.as_bytes()).unwrap();
    assert!(range.start == 0x7ff6ad5f8000 && range.end == 0x7ff6ad7f5000);
}

#[test]
fn non_heap_region() {
    let input = "7ff6ad5f8000-7ff6ad7f5000 rw-p 00037000 fd:01 23470072";
    assert!(recognize_heap(input.as_bytes()).is_none());
}

#[test]
fn accepts_any_permission_combination() {
    for perms in ["rw-p", "---p", "r", "x", "rwxp", "----", "pprr"] {
        let line = format!("1000-2000 {} 00000000 00:00 0", perms);
        assert_eq!(
            recognize_heap(line.as_bytes()),
            Some(AddressRange {
                start: 0x1000,
                end: 0x2000
            }),
            "permissions {} should be accepted",
            perms
        );
    }
}

#[test]
fn rejects_byte_outside_permission_alphabet() {
    // `s` is not in the permission alphabet, so the whitespace expected
    // after the permissions field is missing and the line is rejected.
    let input = "7ff6c33ff000-7ff6c35ff000 rw-s 00000000 00:00 0";
    assert!(recognize_heap(input.as_bytes()).is_none());
}

#[test]
fn accepts_multi_space_separators() {
    let input = "1000-2000   rw-p\t00000000  00:00\t 0";
    assert_eq!(
        recognize_heap(input.as_bytes()),
        Some(AddressRange {
            start: 0x1000,
            end: 0x2000
        })
    );
}

#[test]
fn accepts_trailing_pathname() {
    let input = "5650a4d0a000-5650a4d2b000 rw-p 00000000 00:00 0                          [heap]";
    assert_eq!(
        recognize_heap(input.as_bytes()),
        Some(AddressRange {
            start: 0x5650a4d0a000,
            end: 0x5650a4d2b000
        })
    );
}

#[test]
fn rejects_nonzero_offset() {
    let input = "1000-2000 rw-p 00037000 00:00 0";
    assert!(recognize_heap(input.as_bytes()).is_none());
}

#[test]
fn rejects_short_offset_field() {
    let input = "1000-2000 rw-p 0000000 00:00 0";
    assert!(recognize_heap(input.as_bytes()).is_none());
}

#[test]
fn rejects_long_offset_field() {
    let input = "1000-2000 rw-p 000000001 00:00 0";
    assert!(recognize_heap(input.as_bytes()).is_none());
}

#[test]
fn rejects_nonzero_device() {
    let input = "1000-2000 rw-p 00000000 fd:01 0";
    assert!(recognize_heap(input.as_bytes()).is_none());
}

#[test]
fn rejects_nonzero_inode() {
    let input = "1000-2000 rw-p 00000000 00:00 2295";
    assert!(recognize_heap(input.as_bytes()).is_none());
}

#[test]
fn accepts_inode_with_leading_zero_digit() {
    // Only the inode field's first byte is examined; the rest of the line
    // is unparsed tail.
    let input = "1000-2000 rw-p 00000000 00:00 023";
    assert_eq!(
        recognize_heap(input.as_bytes()),
        Some(AddressRange {
            start: 0x1000,
            end: 0x2000
        })
    );
}

#[test]
fn rejects_missing_fields() {
    for input in [
        "",
        "1000",
        "1000-",
        "1000-2000",
        "1000-2000 rw-p",
        "1000-2000 rw-p 00000000",
        "1000-2000 rw-p 00000000 00:00",
        "1000-2000 rw-p 00000000 00:00 ",
        "1000-2000  00000000 00:00 0",
        "-2000 rw-p 00000000 00:00 0",
    ] {
        assert!(
            recognize_heap(input.as_bytes()).is_none(),
            "{:?} should be rejected",
            input
        );
    }
}

#[test]
fn rejects_non_hex_bounds() {
    let input = "10g0-2000 rw-p 00000000 00:00 0";
    assert!(recognize_heap(input.as_bytes()).is_none());
    let input = "1000-xyz rw-p 00000000 00:00 0";
    assert!(recognize_heap(input.as_bytes()).is_none());
}

#[test]
fn rejects_bound_overflowing_usize() {
    let input = "1ffffffffffffffff-2000 rw-p 00000000 00:00 0";
    assert!(recognize_heap(input.as_bytes()).is_none());
    let input = "1000-1ffffffffffffffff rw-p 00000000 00:00 0";
    assert!(recognize_heap(input.as_bytes()).is_none());
}

#[test]
fn accepts_largest_bounds() {
    let input = "ffffffffffffffff-ffffffffffffffff rw-p 00000000 00:00 0";
    assert_eq!(
        recognize_heap(input.as_bytes()),
        Some(AddressRange {
            start: usize::MAX,
            end: usize::MAX
        })
    );
}

#[test]
fn accepts_decreasing_bounds() {
    // The grammar does not compare the two bounds.
    let input = "2000-1000 rw-p 00000000 00:00 0";
    assert_eq!(
        recognize_heap(input.as_bytes()),
        Some(AddressRange {
            start: 0x2000,
            end: 0x1000
        })
    );
}

#[test]
fn recognition_is_deterministic() {
    let input = "7ff6ad5f8000-7ff6ad7f5000 rw-p 00000000 00:00 0";
    let first = recognize_heap(input.as_bytes());
    for _ in 0..3 {
        assert_eq!(recognize_heap(input.as_bytes()), first);
    }
}
