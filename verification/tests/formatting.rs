use procmaps::format::{format_size, u64_to_dec, u64_to_hex};
use procmaps::region::{MemoryRegion, PathType};

#[test]
fn decimal_rendering_is_exact() {
    assert_eq!(u64_to_dec(0), "0");
    assert_eq!(u64_to_dec(7), "7");
    assert_eq!(u64_to_dec(10), "10");
    assert_eq!(u64_to_dec(1234567890), "1234567890");
    assert_eq!(u64_to_dec(u64::MAX), "18446744073709551615");
}

#[test]
fn sizes_below_one_kibibyte_are_plain_bytes() {
    assert_eq!(format_size(0), "0 B");
    assert_eq!(format_size(1), "1 B");
    assert_eq!(format_size(1023), "1023 B");
}

#[test]
fn sizes_scale_with_one_fractional_digit() {
    assert_eq!(format_size(1024), "1.0 KiB");
    assert_eq!(format_size(1536), "1.5 KiB");
    assert_eq!(format_size(10 * 1024), "10.0 KiB");
    assert_eq!(format_size(1024 * 1024), "1.0 MiB");
    assert_eq!(format_size(1024 * 1024 + 512 * 1024), "1.5 MiB");
    assert_eq!(format_size(1024 * 1024 * 1024), "1.0 GiB");
    assert_eq!(format_size(3 * 1024 * 1024 * 1024 + 256 * 1024 * 1024), "3.3 GiB");
}

#[test]
fn hexadecimal_rendering_is_exact() {
    assert_eq!(u64_to_hex(0), "0");
    assert_eq!(u64_to_hex(255), "ff");
    assert_eq!(u64_to_hex(0xdeadbeef), "deadbeef");
    assert_eq!(u64_to_hex(u64::MAX), "ffffffffffffffff");
}

#[test]
fn region_line_reproduces_the_columns() {
    let line = "7f2a1b3c4000-7f2a1b5c4000 r-xp 00001000 08:01 1234567 /usr/lib/libc.so.6";
    let region = MemoryRegion::parse(line).unwrap();
    assert_eq!(
        region.to_line(),
        "7f2a1b3c4000-7f2a1b5c4000 r-xp     1000    2.0 MiB 08:01  1234567 /usr/lib/libc.so.6"
    );

    let heap = MemoryRegion::parse("1000-2000 rw-p 00000000 00:00 0 [heap]").unwrap();
    assert_eq!(
        heap.to_line(),
        "000000001000-000000002000 rw-p        0    4.0 KiB 00:00        0 [heap]"
    );
}

#[test]
fn display_text_keeps_the_deleted_marker() {
    assert_eq!(
        PathType::classify("/tmp/old.so (deleted)").display_text(),
        "/tmp/old.so (deleted)"
    );
    assert_eq!(PathType::classify("[stack]").display_text(), "[stack]");
    assert_eq!(PathType::classify("").display_text(), "[anonymous]");
}
