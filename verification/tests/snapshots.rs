use procmaps::detail::{parse_detail_into_region, DetailedMemoryRegion};
use procmaps::error::{Field, ParseError};
use procmaps::process::{is_address_line, normalize_cmd_line, split_lines, Process, ProcessParseError};
use procmaps::region::MemoryRegion;

fn region_stub() -> DetailedMemoryRegion {
    let base = MemoryRegion::parse("1000-2000 rw-p 00000000 00:00 0 [heap]").unwrap();
    DetailedMemoryRegion::from_region(base)
}

#[test]
fn enriched_block_accumulates_known_counters_and_ignores_junk() {
    let text = "7f2a1b3c4000-7f2a1b5c4000 rw-p 00000000 00:00 0 [heap]\n\
                Rss:      100 kB\n\
                Pss:       50 kB\n\
                VmFlags rd ex mr\n";
    let p = Process::from_parts(1, "cmd", text).unwrap();
    assert_eq!(p.memory_regions.len(), 1);
    let region = &p.memory_regions[0];
    assert_eq!(region.counter("Rss"), 100);
    assert_eq!(region.counter("Pss"), 50);
    assert_eq!(region.counter("Swap"), 0);
}

#[test]
fn detail_line_without_value_token_is_skipped() {
    let mut r = region_stub();
    parse_detail_into_region(&mut r, "Rss:");
    parse_detail_into_region(&mut r, "Pss:   kB");
    parse_detail_into_region(&mut r, "no colon at all");
    assert_eq!(r.counter("Rss"), 0);
    assert_eq!(r.counter("Pss"), 0);
}

#[test]
fn detail_line_overwrites_earlier_value() {
    let mut r = region_stub();
    parse_detail_into_region(&mut r, "Rss: 10 kB");
    parse_detail_into_region(&mut r, "Rss: 30 kB");
    assert_eq!(r.counter("Rss"), 30);
}

#[test]
fn set_counter_last_write_wins() {
    let mut r = region_stub();
    r.set_counter("Shared_Clean", 4);
    r.set_counter("Shared_Clean", 12);
    r.set_counter("Private_Dirty", 8);
    assert_eq!(r.counter("Shared_Clean"), 12);
    assert_eq!(r.counter("Private_Dirty"), 8);
}

#[test]
fn missing_device_aborts_whole_snapshot() {
    let text = "7f2a1b3c4000-7f2a1b5c4000 r-xp 00001000 08:01 42 /usr/lib/a.so\n\
                7f2a1b6c4000-7f2a1b7c4000 r-xp 00001000\n";
    let err = Process::from_parts(7, "cmd", text).unwrap_err();
    assert!(matches!(
        err,
        ProcessParseError::MemoryParseError(ParseError::MissingField(Field::Device))
    ));
}

#[test]
fn minimal_and_enriched_shapes_build_identical_region_lists() {
    let minimal = "1000-2000 r-xp 00000000 08:01 5 /bin/a\n\
                   3000-4000 rw-p 00000000 00:00 0 [heap]\n";
    let p = Process::from_parts(2, "cmd", minimal).unwrap();
    assert_eq!(p.memory_regions.len(), 2);
    assert_eq!(p.memory_regions[0].counter("Rss"), 0);

    let enriched = "1000-2000 r-xp 00000000 08:01 5 /bin/a\n\
                    Rss: 4 kB\n\
                    3000-4000 rw-p 00000000 00:00 0 [heap]\n\
                    Rss: 9 kB\n";
    let q = Process::from_parts(2, "cmd", enriched).unwrap();
    assert_eq!(q.memory_regions.len(), 2);
    assert_eq!(q.memory_regions[0].counter("Rss"), 4);
    assert_eq!(q.memory_regions[1].counter("Rss"), 9);
    assert_eq!(
        p.memory_regions[0].region.start,
        q.memory_regions[0].region.start
    );
}

#[test]
fn detail_lines_before_any_header_are_skipped() {
    let text = "Rss: 5 kB\n1000-2000 rw-p 00000000 00:00 0 [heap]\n";
    let p = Process::from_parts(3, "cmd", text).unwrap();
    assert_eq!(p.memory_regions.len(), 1);
    assert_eq!(p.memory_regions[0].counter("Rss"), 0);
}

#[test]
fn regions_keep_kernel_emission_order() {
    let text = "5000-6000 r--p 00000000 00:00 0 [vvar]\n\
                1000-2000 r--p 00000000 00:00 0 [heap]\n";
    let p = Process::from_parts(4, "cmd", text).unwrap();
    assert_eq!(p.memory_regions[0].region.start, 0x5000);
    assert_eq!(p.memory_regions[1].region.start, 0x1000);
}

#[test]
fn cmd_line_nuls_become_spaces_and_ends_trim() {
    assert_eq!(normalize_cmd_line("/usr/bin/foo\0--bar\0"), "/usr/bin/foo --bar");
    assert_eq!(normalize_cmd_line("  plain  "), "plain");
    assert_eq!(normalize_cmd_line("\0\0"), "");
    let p = Process::from_parts(5, "/bin/cat\0file.txt\0", "").unwrap();
    assert_eq!(p.cmd_line, "/bin/cat file.txt");
    assert_eq!(p.pid, 5);
    assert_eq!(p.memory_regions.len(), 0);
}

#[test]
fn split_lines_handles_both_line_endings() {
    assert_eq!(split_lines("a\nb\r\nc"), vec!["a", "b", "c"]);
    assert_eq!(split_lines("a\nb\n"), vec!["a", "b"]);
    assert_eq!(split_lines(""), Vec::<String>::new());
    assert_eq!(split_lines("\n"), vec![""]);
}

#[test]
fn header_discriminator_is_a_leading_hex_digit() {
    assert!(is_address_line("7f2a1b3c4000-7f2a1b5c4000 r-xp 0 0:0 0"));
    assert!(is_address_line("00400000-00452000 r-xp 0 0:0 0"));
    assert!(!is_address_line("Rss: 100 kB"));
    assert!(!is_address_line(""));
    assert!(!is_address_line("  1000-2000"));
}

#[test]
fn oversized_detail_value_skips_the_line() {
    let mut r = region_stub();
    parse_detail_into_region(&mut r, "Rss: 99999999999999999999999 kB");
    assert_eq!(r.counter("Rss"), 0);
    parse_detail_into_region(&mut r, "Rss: 18446744073709551615 kB");
    assert_eq!(r.counter("Rss"), u64::MAX);
}

#[test]
fn oversized_inode_is_a_fatal_integer_error() {
    let err = Process::from_parts(
        8,
        "cmd",
        "1000-2000 r-xp 0 08:01 99999999999999999999999\n",
    )
    .unwrap_err();
    assert!(matches!(
        err,
        ProcessParseError::MemoryParseError(ParseError::InvalidInt)
    ));
}
