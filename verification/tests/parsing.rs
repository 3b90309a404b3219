use procmaps::error::{Field, ParseError};
use procmaps::region::{parse_address_range, parse_device, MemoryRegion, PathType, Permissions};

#[test]
fn full_header_line_with_file_path() {
    let line = "7f2a1b3c4000-7f2a1b5c4000 r-xp 00001000 08:01 1234567 /usr/lib/libc.so.6";
    let region = MemoryRegion::parse(line).unwrap();
    assert_eq!(region.start, 0x7f2a1b3c4000);
    assert_eq!(region.end, 0x7f2a1b5c4000);
    assert!(region.permissions.read);
    assert!(!region.permissions.write);
    assert!(region.permissions.execute);
    assert!(!region.permissions.shared);
    assert_eq!(region.offset, 0x1000);
    assert_eq!(region.device, (8, 1));
    assert_eq!(region.inode, 1234567);
    assert_eq!(
        region.path_name,
        Some(PathType::File(String::from("/usr/lib/libc.so.6")))
    );
}

#[test]
fn trailing_empty_path_field_is_anonymous() {
    let line = "7f2a1b3c4000-7f2a1b5c4000 r--p 00000000 00:00 0 ";
    let region = MemoryRegion::parse(line).unwrap();
    assert_eq!(region.path_name, Some(PathType::Anonymous));
}

#[test]
fn absent_path_field_is_none() {
    let line = "7f2a1b3c4000-7f2a1b5c4000 r--p 00000000 00:00 0";
    let region = MemoryRegion::parse(line).unwrap();
    assert_eq!(region.path_name, None);
}

#[test]
fn heap_pseudo_region() {
    let line = "7f2a1b3c4000-7f2a1b5c4000 rw-p 00000000 00:00 0 [heap]";
    let region = MemoryRegion::parse(line).unwrap();
    assert_eq!(region.path_name, Some(PathType::Heap));
}

#[test]
fn deleted_path_classification() {
    let line = "7f2a1b3c4000-7f2a1b5c4000 rw-p 00000000 08:01 99 /tmp/old.so (deleted)";
    let region = MemoryRegion::parse(line).unwrap();
    assert_eq!(
        region.path_name,
        Some(PathType::Deleted(String::from("/tmp/old.so")))
    );
}

#[test]
fn path_with_internal_spaces_is_kept_whole() {
    let line = "7f2a1b3c4000-7f2a1b5c4000 r--p 00000000 08:01 77 /home/u/My Documents/a.so";
    let region = MemoryRegion::parse(line).unwrap();
    assert_eq!(
        region.path_name,
        Some(PathType::File(String::from("/home/u/My Documents/a.so")))
    );
}

#[test]
fn classify_covers_every_category() {
    assert_eq!(PathType::classify(""), PathType::Anonymous);
    assert_eq!(PathType::classify("[heap]"), PathType::Heap);
    assert_eq!(PathType::classify("[stack]"), PathType::Stack);
    assert_eq!(PathType::classify("[vdso]"), PathType::Vdso);
    assert_eq!(PathType::classify("[vvar]"), PathType::Vvar);
    assert_eq!(PathType::classify("[vsyscall]"), PathType::Vsyscall);
    assert_eq!(
        PathType::classify("/tmp/x (deleted)"),
        PathType::Deleted(String::from("/tmp/x"))
    );
    assert_eq!(
        PathType::classify("[unknown-token]"),
        PathType::File(String::from("[unknown-token]"))
    );
    assert_eq!(
        PathType::classify("/usr/bin/cat"),
        PathType::File(String::from("/usr/bin/cat"))
    );
}

#[test]
fn labels_merge_deleted_with_files() {
    assert_eq!(PathType::classify("/a/b (deleted)").label(), "/a/b");
    assert_eq!(PathType::classify("/a/b").label(), "/a/b");
    assert_eq!(PathType::Anonymous.label(), "[anonymous]");
    assert_eq!(PathType::Heap.label(), "[heap]");
}

#[test]
fn permissions_round_trip_canonical() {
    for s in ["rwxp", "r-xp", "rw-s", "---p", "--xs", "rwxs", "----"] {
        let canonical = if s.ends_with('s') {
            s.to_string()
        } else {
            let mut t = s[..3].to_string();
            t.push('p');
            t
        };
        let p = Permissions::parse(s).unwrap();
        assert_eq!(p.to_text(), canonical);
    }
}

#[test]
fn permissions_private_indicator_normalizes_to_p() {
    let p = Permissions::parse("rw-Z").unwrap();
    assert!(!p.shared);
    assert_eq!(p.to_text(), "rw-p");
}

#[test]
fn permissions_wrong_length_rejected() {
    assert_eq!(
        Permissions::parse("rwx"),
        Err(ParseError::InvalidPermissions)
    );
    assert_eq!(
        Permissions::parse("rwxps"),
        Err(ParseError::InvalidPermissions)
    );
}

#[test]
fn address_range_parses_and_fails_precisely() {
    assert_eq!(parse_address_range("1000-2000"), Ok((0x1000, 0x2000)));
    assert_eq!(parse_address_range("deadbeef"), Err(ParseError::InvalidAddress));
    assert_eq!(parse_address_range("xyz-123"), Err(ParseError::InvalidInt));
    assert_eq!(parse_address_range("123-xyz"), Err(ParseError::InvalidInt));
    assert_eq!(parse_address_range("-123"), Err(ParseError::InvalidInt));
    assert_eq!(
        parse_address_range("1ffffffffffffffff-0"),
        Err(ParseError::InvalidInt)
    );
}

#[test]
fn device_parses_and_fails_precisely() {
    assert_eq!(parse_device("08:01"), Ok((8, 1)));
    assert_eq!(parse_device("fd:1f"), Ok((0xfd, 0x1f)));
    assert_eq!(parse_device("0801"), Err(ParseError::InvalidDevice));
    assert_eq!(parse_device("1ff:00"), Err(ParseError::InvalidInt));
    assert_eq!(parse_device("zz:00"), Err(ParseError::InvalidInt));
}

#[test]
fn missing_fields_are_named_in_order() {
    assert_eq!(
        MemoryRegion::parse(""),
        Err(ParseError::MissingField(Field::AddressRange))
    );
    assert_eq!(
        MemoryRegion::parse("   "),
        Err(ParseError::MissingField(Field::AddressRange))
    );
    assert_eq!(
        MemoryRegion::parse("1000-2000"),
        Err(ParseError::MissingField(Field::Permissions))
    );
    assert_eq!(
        MemoryRegion::parse("1000-2000 r-xp"),
        Err(ParseError::MissingField(Field::Offset))
    );
    assert_eq!(
        MemoryRegion::parse("1000-2000 r-xp 0"),
        Err(ParseError::MissingField(Field::Device))
    );
    assert_eq!(
        MemoryRegion::parse("1000-2000 r-xp 0 08:01"),
        Err(ParseError::MissingField(Field::Inode))
    );
}

#[test]
fn content_errors_surface_field_parser_kinds() {
    assert_eq!(
        MemoryRegion::parse("1000_2000 r-xp 0 08:01 0"),
        Err(ParseError::InvalidAddress)
    );
    assert_eq!(
        MemoryRegion::parse("1000-2000 rx 0 08:01 0"),
        Err(ParseError::InvalidPermissions)
    );
    assert_eq!(
        MemoryRegion::parse("1000-2000 r-xp zz 08:01 0"),
        Err(ParseError::InvalidInt)
    );
    assert_eq!(
        MemoryRegion::parse("1000-2000 r-xp 0 0801 0"),
        Err(ParseError::InvalidDevice)
    );
    assert_eq!(
        MemoryRegion::parse("1000-2000 r-xp 0 08:01 12a"),
        Err(ParseError::InvalidInt)
    );
}

#[test]
fn inverted_bounds_still_parse_and_size_cannot_underflow() {
    let region = MemoryRegion::parse("5000-4000 r--p 00000000 00:00 0").unwrap();
    assert_eq!(region.start, 0x5000);
    assert_eq!(region.end, 0x4000);
    assert_eq!(region.size(), 0);
    let normal = MemoryRegion::parse("4000-5000 r--p 00000000 00:00 0").unwrap();
    assert_eq!(normal.size(), 0x1000);
}

#[test]
fn fields_split_on_runs_of_whitespace() {
    let line = "1000-2000   r-xp\t00000000  08:01   42    /usr/lib/x.so";
    let region = MemoryRegion::parse(line).unwrap();
    assert_eq!(region.inode, 42);
    assert_eq!(
        region.path_name,
        Some(PathType::File(String::from("/usr/lib/x.so")))
    );
}
