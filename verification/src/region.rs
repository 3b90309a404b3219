//! Region header records: permissions, backing-object classification, and
//! the parser for one header line of descriptor text.

use vstd::prelude::*;
use crate::error::{Field, ParseError};
use crate::num::{
    is_dec_numeral, is_hex_numeral, num_value, parse_u64_dec, parse_u64_hex, parse_u8_hex,
};
use crate::text::{
    find_char, push_char, rtrim, scan_find, scan_rtrim, scan_spaces, scan_token, skip_spaces,
    str_eq, token_end,
};

verus! {

/// The four per-region permission flags.
#[derive(Clone, Copy, Debug, PartialEq, Eq, Structural)]
pub struct Permissions {
    pub read: bool,
    pub write: bool,
    pub execute: bool,
    pub shared: bool,
}

/// The flags encoded by a four-character permission string.
pub open spec fn perms_of(s: Seq<char>) -> Permissions
    recommends
        s.len() == 4,
{
    Permissions {
        read: s[0] == 'r',
        write: s[1] == 'w',
        execute: s[2] == 'x',
        shared: s[3] == 's',
    }
}

/// The canonical four-character rendering of a permission set.
pub open spec fn perms_text(p: Permissions) -> Seq<char> {
    seq![
        if p.read { 'r' } else { '-' },
        if p.write { 'w' } else { '-' },
        if p.execute { 'x' } else { '-' },
        if p.shared { 's' } else { 'p' },
    ]
}

impl Permissions {
    /// Parses a permission token: exactly four characters, position 0 read
    /// (`r`), 1 write (`w`), 2 execute (`x`), 3 shared (`s`) versus private
    /// (anything else).  Any other length is `InvalidPermissions`.
    pub fn parse(s: &str) -> (r: Result<Permissions, ParseError>)
        ensures
            s@.len() == 4 ==> r == Ok::<Permissions, ParseError>(perms_of(s@)),
            s@.len() != 4 ==> r == Err::<Permissions, ParseError>(ParseError::InvalidPermissions),
    {
        let n = s.unicode_len();
        if n != 4 {
            return Err(ParseError::InvalidPermissions);
        }
        Ok(
            Permissions {
                read: s.get_char(0) == 'r',
                write: s.get_char(1) == 'w',
                execute: s.get_char(2) == 'x',
                shared: s.get_char(3) == 's',
            },
        )
    }

    /// Renders the flags back to their four-character form, writing `p` for
    /// any private mapping.
    pub fn to_text(&self) -> (r: String)
        ensures
            r@ == perms_text(*self),
    {
        let mut out = String::new();
        push_char(&mut out, if self.read { 'r' } else { '-' });
        push_char(&mut out, if self.write { 'w' } else { '-' });
        push_char(&mut out, if self.execute { 'x' } else { '-' });
        push_char(&mut out, if self.shared { 's' } else { 'p' });
        proof {
            assert(out@ =~= perms_text(*self));
        }
        out
    }
}

/// Round trip: parsing a four-character permission string and rendering the
/// result reproduces the string, with any private indicator other than `s`
/// normalized to `p`.
pub proof fn lemma_permissions_round_trip(s: Seq<char>)
    requires
        s.len() == 4,
        s[0] == 'r' || s[0] == '-',
        s[1] == 'w' || s[1] == '-',
        s[2] == 'x' || s[2] == '-',
    ensures
        perms_text(perms_of(s)) == s.update(3, if s[3] == 's' { 's' } else { 'p' }),
{
    assert(perms_text(perms_of(s)) =~= s.update(3, if s[3] == 's' { 's' } else { 'p' }));
}

/// The backing object of a region, classified from the trailing pathname
/// field of its header line.
#[derive(Debug, PartialEq, Eq)]
pub enum PathType {
    /// A file on disk.
    File(String),
    /// The `[stack]` pseudo-region.
    Stack,
    /// The `[heap]` pseudo-region.
    Heap,
    /// The `[vdso]` pseudo-region.
    Vdso,
    /// The `[vvar]` pseudo-region.
    Vvar,
    /// The `[vsyscall]` pseudo-region.
    Vsyscall,
    /// No backing object at all.
    Anonymous,
    /// A file that is still mapped but removed from disk.
    Deleted(String),
}

/// Mathematical shape of a `PathType`, with paths as character sequences.
pub enum PathModel {
    File(Seq<char>),
    Stack,
    Heap,
    Vdso,
    Vvar,
    Vsyscall,
    Anonymous,
    Deleted(Seq<char>),
}

impl View for PathType {
    type V = PathModel;

    open spec fn view(&self) -> PathModel {
        match self {
            PathType::File(p) => PathModel::File(p@),
            PathType::Stack => PathModel::Stack,
            PathType::Heap => PathModel::Heap,
            PathType::Vdso => PathModel::Vdso,
            PathType::Vvar => PathModel::Vvar,
            PathType::Vsyscall => PathModel::Vsyscall,
            PathType::Anonymous => PathModel::Anonymous,
            PathType::Deleted(p) => PathModel::Deleted(p@),
        }
    }
}

/// The suffix that marks a mapped-but-unlinked file.
pub open spec fn deleted_suffix() -> Seq<char> {
    " (deleted)"@
}

pub open spec fn ends_with_deleted(s: Seq<char>) -> bool {
    s.len() >= 10 && s.subrange(s.len() - 10, s.len() as int) == deleted_suffix()
}

/// Total classification of a pathname field into a backing-object category.
pub open spec fn classify_spec(s: Seq<char>) -> PathModel {
    if s.len() == 0 {
        PathModel::Anonymous
    } else if s == "[heap]"@ {
        PathModel::Heap
    } else if s == "[stack]"@ {
        PathModel::Stack
    } else if s == "[vdso]"@ {
        PathModel::Vdso
    } else if s == "[vvar]"@ {
        PathModel::Vvar
    } else if s == "[vsyscall]"@ {
        PathModel::Vsyscall
    } else if ends_with_deleted(s) {
        PathModel::Deleted(s.subrange(0, s.len() - 10))
    } else {
        PathModel::File(s)
    }
}

impl PathType {
    /// Classifies a pathname field.  Every input maps to exactly one
    /// category; unrecognized non-empty text is a `File`.
    pub fn classify(s: &str) -> (r: PathType)
        ensures
            r@ == classify_spec(s@),
    {
        let n = s.unicode_len();
        if n == 0 {
            PathType::Anonymous
        } else if str_eq(s, "[heap]") {
            PathType::Heap
        } else if str_eq(s, "[stack]") {
            PathType::Stack
        } else if str_eq(s, "[vdso]") {
            PathType::Vdso
        } else if str_eq(s, "[vvar]") {
            PathType::Vvar
        } else if str_eq(s, "[vsyscall]") {
            PathType::Vsyscall
        } else if n >= 10 && str_eq(s.substring_char(n - 10, n), " (deleted)") {
            PathType::Deleted(String::from_str(s.substring_char(0, n - 10)))
        } else {
            PathType::File(String::from_str(s))
        }
    }
}

/// Splits an address-range token on its first `-` and reads both halves as
/// hexadecimal.  No separator is `InvalidAddress`; a bad half is `InvalidInt`.
pub open spec fn spec_parse_addr_range(t: Seq<char>) -> Result<(u64, u64), ParseError> {
    let d = find_char(t, '-', 0);
    if !(0 <= d < t.len()) {
        Err(ParseError::InvalidAddress)
    } else {
        let first = t.subrange(0, d);
        let second = t.subrange(d + 1, t.len() as int);
        if !(is_hex_numeral(first) && num_value(first, 16) <= u64::MAX) {
            Err(ParseError::InvalidInt)
        } else if !(is_hex_numeral(second) && num_value(second, 16) <= u64::MAX) {
            Err(ParseError::InvalidInt)
        } else {
            Ok((num_value(first, 16) as u64, num_value(second, 16) as u64))
        }
    }
}

/// Parses a `start-end` address-range token.
pub fn parse_address_range(s: &str) -> (r: Result<(u64, u64), ParseError>)
    ensures
        r == spec_parse_addr_range(s@),
{
    let n = s.unicode_len();
    let d = scan_find(s, '-', 0, n);
    if d == n {
        return Err(ParseError::InvalidAddress);
    }
    let start = match parse_u64_hex(s, 0, d) {
        Ok(v) => v,
        Err(e) => {
            return Err(e);
        },
    };
    let end = match parse_u64_hex(s, d + 1, n) {
        Ok(v) => v,
        Err(e) => {
            return Err(e);
        },
    };
    Ok((start, end))
}

/// Splits a device token on its first `:` and reads both halves as
/// hexadecimal `u8` values.  No separator is `InvalidDevice`; a bad or
/// oversized half is `InvalidInt`.
pub open spec fn spec_parse_device(t: Seq<char>) -> Result<(u8, u8), ParseError> {
    let d = find_char(t, ':', 0);
    if !(0 <= d < t.len()) {
        Err(ParseError::InvalidDevice)
    } else {
        let first = t.subrange(0, d);
        let second = t.subrange(d + 1, t.len() as int);
        if !(is_hex_numeral(first) && num_value(first, 16) <= 255) {
            Err(ParseError::InvalidInt)
        } else if !(is_hex_numeral(second) && num_value(second, 16) <= 255) {
            Err(ParseError::InvalidInt)
        } else {
            Ok((num_value(first, 16) as u8, num_value(second, 16) as u8))
        }
    }
}

/// Parses a `major:minor` device token.
pub fn parse_device(s: &str) -> (r: Result<(u8, u8), ParseError>)
    ensures
        r == spec_parse_device(s@),
{
    let n = s.unicode_len();
    let d = scan_find(s, ':', 0, n);
    if d == n {
        return Err(ParseError::InvalidDevice);
    }
    let major = match parse_u8_hex(s, 0, d) {
        Ok(v) => v,
        Err(e) => {
            return Err(e);
        },
    };
    let minor = match parse_u8_hex(s, d + 1, n) {
        Ok(v) => v,
        Err(e) => {
            return Err(e);
        },
    };
    Ok((major, minor))
}

/// One region of a process's address space, as read from a header line.
#[derive(Debug, PartialEq, Eq)]
pub struct MemoryRegion {
    pub start: u64,
    pub end: u64,
    pub permissions: Permissions,
    pub offset: u64,
    pub device: (u8, u8),
    pub inode: u64,
    pub path_name: Option<PathType>,
}

/// Mathematical shape of a region record.
pub struct RegionModel {
    pub start: u64,
    pub end: u64,
    pub permissions: Permissions,
    pub offset: u64,
    pub device: (u8, u8),
    pub inode: u64,
    pub path_name: Option<PathModel>,
}

impl View for MemoryRegion {
    type V = RegionModel;

    open spec fn view(&self) -> RegionModel {
        RegionModel {
            start: self.start,
            end: self.end,
            permissions: self.permissions,
            offset: self.offset,
            device: self.device,
            inode: self.inode,
            path_name: match self.path_name {
                Some(p) => Some(p@),
                None => None,
            },
        }
    }
}

/// The optional trailing pathname of a header line: absent only when the
/// line ends right at the inode token; otherwise the remainder after it,
/// trimmed of surrounding spaces and classified.
pub open spec fn spec_path_field(s: Seq<char>, after_inode: int) -> Option<PathModel> {
    if !(0 <= after_inode < s.len()) {
        None
    } else {
        let p0 = skip_spaces(s, after_inode);
        let p1 = rtrim(s, p0, s.len() as int);
        Some(classify_spec(s.subrange(p0, p1)))
    }
}

/// Outcome of parsing one header line: five whitespace-delimited mandatory
/// fields, then the optional pathname.  A missing field is reported before
/// its content is examined; content errors carry the field parsers' kinds.
pub open spec fn spec_parse_header(s: Seq<char>) -> Result<RegionModel, ParseError> {
    let a0 = skip_spaces(s, 0);
    let a1 = token_end(s, a0);
    if !(0 <= a0 < s.len()) {
        Err(ParseError::MissingField(Field::AddressRange))
    } else {
        match spec_parse_addr_range(s.subrange(a0, a1)) {
            Err(e) => Err(e),
            Ok(range) => {
                let b0 = skip_spaces(s, a1);
                let b1 = token_end(s, b0);
                if !(b0 < s.len()) {
                    Err(ParseError::MissingField(Field::Permissions))
                } else if b1 - b0 != 4 {
                    Err(ParseError::InvalidPermissions)
                } else {
                    let perms = perms_of(s.subrange(b0, b1));
                    let c0 = skip_spaces(s, b1);
                    let c1 = token_end(s, c0);
                    if !(c0 < s.len()) {
                        Err(ParseError::MissingField(Field::Offset))
                    } else {
                        let off_t = s.subrange(c0, c1);
                        if !(is_hex_numeral(off_t) && num_value(off_t, 16) <= u64::MAX) {
                            Err(ParseError::InvalidInt)
                        } else {
                            let d0 = skip_spaces(s, c1);
                            let d1 = token_end(s, d0);
                            if !(d0 < s.len()) {
                                Err(ParseError::MissingField(Field::Device))
                            } else {
                                match spec_parse_device(s.subrange(d0, d1)) {
                                    Err(e) => Err(e),
                                    Ok(dev) => {
                                        let e0 = skip_spaces(s, d1);
                                        let e1 = token_end(s, e0);
                                        if !(e0 < s.len()) {
                                            Err(ParseError::MissingField(Field::Inode))
                                        } else {
                                            let ino_t = s.subrange(e0, e1);
                                            if !(is_dec_numeral(ino_t) && num_value(ino_t, 10)
                                                <= u64::MAX) {
                                                Err(ParseError::InvalidInt)
                                            } else {
                                                Ok(RegionModel {
                                                    start: range.0,
                                                    end: range.1,
                                                    permissions: perms,
                                                    offset: num_value(off_t, 16) as u64,
                                                    device: dev,
                                                    inode: num_value(ino_t, 10) as u64,
                                                    path_name: spec_path_field(s, e1),
                                                })
                                            }
                                        }
                                    },
                                }
                            }
                        }
                    }
                }
            },
        }
    }
}

/// Number of bytes a region record spans: `end - start`, and zero when the
/// record's bounds are inverted, so the computation cannot underflow.
pub open spec fn region_size(r: RegionModel) -> u64 {
    if r.start <= r.end {
        (r.end - r.start) as u64
    } else {
        0
    }
}

impl MemoryRegion {
    /// Parses one header line of descriptor text.
    pub fn parse(line: &str) -> (r: Result<MemoryRegion, ParseError>)
        ensures
            match r {
                Ok(region) => spec_parse_header(line@) == Ok::<RegionModel, ParseError>(region@),
                Err(e) => spec_parse_header(line@) == Err::<RegionModel, ParseError>(e),
            },
    {
        let n = line.unicode_len();
        let a0 = scan_spaces(line, 0, n);
        if a0 == n {
            return Err(ParseError::MissingField(Field::AddressRange));
        }
        let a1 = scan_token(line, a0, n);
        let range = match parse_address_range(line.substring_char(a0, a1)) {
            Ok(p) => p,
            Err(e) => {
                return Err(e);
            },
        };
        let b0 = scan_spaces(line, a1, n);
        if b0 == n {
            return Err(ParseError::MissingField(Field::Permissions));
        }
        let b1 = scan_token(line, b0, n);
        let permissions = match Permissions::parse(line.substring_char(b0, b1)) {
            Ok(p) => p,
            Err(e) => {
                return Err(e);
            },
        };
        let c0 = scan_spaces(line, b1, n);
        if c0 == n {
            return Err(ParseError::MissingField(Field::Offset));
        }
        let c1 = scan_token(line, c0, n);
        let offset = match parse_u64_hex(line, c0, c1) {
            Ok(v) => v,
            Err(e) => {
                return Err(e);
            },
        };
        let d0 = scan_spaces(line, c1, n);
        if d0 == n {
            return Err(ParseError::MissingField(Field::Device));
        }
        let d1 = scan_token(line, d0, n);
        let device = match parse_device(line.substring_char(d0, d1)) {
            Ok(p) => p,
            Err(e) => {
                return Err(e);
            },
        };
        let e0 = scan_spaces(line, d1, n);
        if e0 == n {
            return Err(ParseError::MissingField(Field::Inode));
        }
        let e1 = scan_token(line, e0, n);
        let inode = match parse_u64_dec(line, e0, e1) {
            Ok(v) => v,
            Err(e) => {
                return Err(e);
            },
        };
        let path_name = if e1 == n {
            None
        } else {
            let p0 = scan_spaces(line, e1, n);
            let p1 = scan_rtrim(line, p0, n);
            Some(PathType::classify(line.substring_char(p0, p1)))
        };
        Ok(
            MemoryRegion {
                start: range.0,
                end: range.1,
                permissions,
                offset,
                device,
                inode,
                path_name,
            },
        )
    }

    /// The span of the region in bytes; zero when the bounds are inverted.
    pub fn size(&self) -> (r: u64)
        ensures
            r == region_size(self@),
    {
        if self.start <= self.end {
            self.end - self.start
        } else {
            0
        }
    }
}

/// Display label of a backing object: the underlying path for `File` and
/// `Deleted` alike (both name the same object), the bracketed token for a
/// pseudo-region, and `[anonymous]` for no backing object.
pub open spec fn label_model(p: PathModel) -> Seq<char> {
    match p {
        PathModel::File(q) => q,
        PathModel::Deleted(q) => q,
        PathModel::Stack => "[stack]"@,
        PathModel::Heap => "[heap]"@,
        PathModel::Vdso => "[vdso]"@,
        PathModel::Vvar => "[vvar]"@,
        PathModel::Vsyscall => "[vsyscall]"@,
        PathModel::Anonymous => "[anonymous]"@,
    }
}

/// Label of a region's optional backing object; an absent pathname counts
/// as anonymous.
pub open spec fn label_of_path(p: Option<PathModel>) -> Seq<char> {
    match p {
        Some(m) => label_model(m),
        None => "[anonymous]"@,
    }
}

impl PathType {
    /// The group label of this backing object.
    pub fn label(&self) -> (r: String)
        ensures
            r@ == label_model(self@),
    {
        match self {
            PathType::File(p) => p.clone(),
            PathType::Deleted(p) => p.clone(),
            PathType::Stack => String::from_str("[stack]"),
            PathType::Heap => String::from_str("[heap]"),
            PathType::Vdso => String::from_str("[vdso]"),
            PathType::Vvar => String::from_str("[vvar]"),
            PathType::Vsyscall => String::from_str("[vsyscall]"),
            PathType::Anonymous => String::from_str("[anonymous]"),
        }
    }
}

/// Display form of a backing object: unlike the group label, a deleted
/// mapping keeps its ` (deleted)` marker.
pub open spec fn path_text(p: PathModel) -> Seq<char> {
    match p {
        PathModel::File(q) => q,
        PathModel::Deleted(q) => q + " (deleted)"@,
        PathModel::Stack => "[stack]"@,
        PathModel::Heap => "[heap]"@,
        PathModel::Vdso => "[vdso]"@,
        PathModel::Vvar => "[vvar]"@,
        PathModel::Vsyscall => "[vsyscall]"@,
        PathModel::Anonymous => "[anonymous]"@,
    }
}

impl PathType {
    /// Renders the backing object for display.
    pub fn display_text(&self) -> (r: String)
        ensures
            r@ == path_text(self@),
    {
        match self {
            PathType::File(p) => p.clone(),
            PathType::Deleted(p) => p.clone().concat(" (deleted)"),
            PathType::Stack => String::from_str("[stack]"),
            PathType::Heap => String::from_str("[heap]"),
            PathType::Vdso => String::from_str("[vdso]"),
            PathType::Vvar => String::from_str("[vvar]"),
            PathType::Vsyscall => String::from_str("[vsyscall]"),
            PathType::Anonymous => String::from_str("[anonymous]"),
        }
    }
}

} // verus!
