//! Display rendering: decimal and hexadecimal numerals, left padding,
//! human-readable sizes, and the one-line form of a region record — all
//! with integer arithmetic alone.

use vstd::prelude::*;
use vstd::arithmetic::div_mod::*;
use crate::region::{path_text, perms_text, region_size, MemoryRegion, RegionModel};
use crate::text::push_char;

verus! {

pub const KIB: u64 = 1024;

pub const MIB: u64 = 1024 * 1024;

pub const GIB: u64 = 1024 * 1024 * 1024;

/// Decimal digit character for a value below ten.
pub open spec fn dec_digit_char(d: int) -> char
    recommends
        0 <= d < 10,
{
    ((('0' as u32) + d) as u32) as char
}

/// Decimal numeral of a non-negative value, most significant digit first.
pub open spec fn dec_str(n: int) -> Seq<char>
    recommends
        0 <= n,
    decreases n,
{
    if n < 10 {
        seq![dec_digit_char(n)]
    } else {
        dec_str(n / 10).push(dec_digit_char(n % 10))
    }
}

/// Executable digit rendering matching `dec_digit_char`.
fn digit_to_char(d: u8) -> (c: char)
    requires
        d < 10,
    ensures
        c == dec_digit_char(d as int),
{
    (48 + d) as char
}

/// Renders a value in decimal.
pub fn u64_to_dec(n: u64) -> (r: String)
    ensures
        r@ == dec_str(n as int),
    decreases n,
{
    if n < 10 {
        let mut s = String::new();
        push_char(&mut s, digit_to_char(n as u8));
        proof {
            assert(s@ =~= seq![dec_digit_char(n as int)]);
        }
        s
    } else {
        let mut s = u64_to_dec(n / 10);
        push_char(&mut s, digit_to_char((n % 10) as u8));
        s
    }
}

/// The value in tenths of a unit, rounded to the nearest tenth.
pub open spec fn spec_size_tenths(bytes: u64, unit: u64) -> int {
    ((bytes as int) * 10 + (unit as int) / 2) / (unit as int)
}

/// `W.F`: whole units and one fractional digit.
pub open spec fn scaled_text(bytes: u64, unit: u64) -> Seq<char> {
    let tenths = spec_size_tenths(bytes, unit);
    dec_str(tenths / 10) + seq!['.'] + seq![dec_digit_char(tenths % 10)]
}

/// Human-readable rendering of a byte count: `W.F GiB` / `MiB` / `KiB` for
/// a value of at least one unit, plain `N B` below one kibibyte.
pub open spec fn spec_format_size(bytes: u64) -> Seq<char> {
    if bytes >= GIB {
        scaled_text(bytes, GIB) + " GiB"@
    } else if bytes >= MIB {
        scaled_text(bytes, MIB) + " MiB"@
    } else if bytes >= KIB {
        scaled_text(bytes, KIB) + " KiB"@
    } else {
        dec_str(bytes as int) + " B"@
    }
}

/// Renders `W.F` for the chosen unit.
fn scaled_string(bytes: u64, unit: u64) -> (r: String)
    requires
        unit == KIB || unit == MIB || unit == GIB,
    ensures
        r@ == scaled_text(bytes, unit),
{
    let b10: u128 = (bytes as u128) * 10;
    let half: u128 = (unit / 2) as u128;
    let t128: u128 = (b10 + half) / (unit as u128);
    proof {
        let u = unit as int;
        let x = (bytes as int) * 10 + u / 2;
        let t = x / u;
        lemma_fundamental_div_mod(x, u);
        lemma_mod_bound(x, u);
        if t > u64::MAX as int {
            vstd::arithmetic::mul::lemma_mul_inequality(u64::MAX as int + 1, t, u);
            vstd::arithmetic::mul::lemma_mul_inequality(1024, u, u64::MAX as int + 1);
            assert(false);
        }
    }
    let tenths: u64 = t128 as u64;
    let mut s = u64_to_dec(tenths / 10);
    push_char(&mut s, '.');
    push_char(&mut s, digit_to_char((tenths % 10) as u8));
    proof {
        assert(s@ =~= scaled_text(bytes, unit));
    }
    s
}

/// Renders a byte count as `spec_format_size` describes.
pub fn format_size(bytes: u64) -> (r: String)
    ensures
        r@ == spec_format_size(bytes),
{
    if bytes >= GIB {
        scaled_string(bytes, GIB).concat(" GiB")
    } else if bytes >= MIB {
        scaled_string(bytes, MIB).concat(" MiB")
    } else if bytes >= KIB {
        scaled_string(bytes, KIB).concat(" KiB")
    } else {
        u64_to_dec(bytes).concat(" B")
    }
}

/// Lower-case hexadecimal digit character for a value below sixteen.
pub open spec fn hex_digit_char_of(d: int) -> char
    recommends
        0 <= d < 16,
{
    if d < 10 {
        ((('0' as u32) + d) as u32) as char
    } else {
        ((('a' as u32) + (d - 10)) as u32) as char
    }
}

/// Lower-case hexadecimal numeral of a non-negative value, most significant
/// digit first.
pub open spec fn hex_str(n: int) -> Seq<char>
    recommends
        0 <= n,
    decreases n,
{
    if n < 16 {
        seq![hex_digit_char_of(n)]
    } else {
        hex_str(n / 16).push(hex_digit_char_of(n % 16))
    }
}

/// Executable digit rendering matching `hex_digit_char_of`.
fn hex_digit_to_char(d: u8) -> (c: char)
    requires
        d < 16,
    ensures
        c == hex_digit_char_of(d as int),
{
    if d < 10 {
        (48 + d) as char
    } else {
        (97 + (d - 10)) as char
    }
}

/// Renders a value in lower-case hexadecimal.
pub fn u64_to_hex(n: u64) -> (r: String)
    ensures
        r@ == hex_str(n as int),
    decreases n,
{
    if n < 16 {
        let mut s = String::new();
        push_char(&mut s, hex_digit_to_char(n as u8));
        proof {
            assert(s@ =~= seq![hex_digit_char_of(n as int)]);
        }
        s
    } else {
        let mut s = u64_to_hex(n / 16);
        push_char(&mut s, hex_digit_to_char((n % 16) as u8));
        s
    }
}

/// `s` preceded by as many `c` as it takes to reach `width`; text already
/// that wide is kept as it is.
pub open spec fn pad_left(s: Seq<char>, width: int, c: char) -> Seq<char> {
    if s.len() >= width {
        s
    } else {
        Seq::new((width - s.len()) as nat, |k: int| c) + s
    }
}

/// Pads text on the left as `pad_left` describes.
pub fn pad_left_text(s: String, width: usize, c: char) -> (r: String)
    ensures
        r@ == pad_left(s@, width as int, c),
{
    let n = s.as_str().unicode_len();
    if n >= width {
        return s;
    }
    let mut fill = String::new();
    let mut j: usize = 0;
    proof {
        assert(fill@ =~= Seq::new(0, |k: int| c));
    }
    while j < width - n
        invariant
            j <= width - n,
            n == s@.len(),
            n < width,
            fill@ == Seq::new(j as nat, |k: int| c),
        decreases width - n - j,
    {
        push_char(&mut fill, c);
        proof {
            assert(fill@ =~= Seq::new((j + 1) as nat, |k: int| c));
        }
        j = j + 1;
    }
    fill.append(s.as_str());
    fill
}

/// One display line of a region: zero-padded twelve-digit hexadecimal
/// bounds, the permission flags, the file offset in hexadecimal, the
/// human-readable size, the device pair, the inode, and the backing object.
pub open spec fn region_line(r: RegionModel) -> Seq<char> {
    pad_left(hex_str(r.start as int), 12, '0') + seq!['-'] + pad_left(
        hex_str(r.end as int),
        12,
        '0',
    ) + seq![' '] + perms_text(r.permissions) + seq![' '] + pad_left(
        hex_str(r.offset as int),
        8,
        ' ',
    ) + seq![' '] + pad_left(spec_format_size(region_size(r)), 10, ' ') + seq![' '] + pad_left(
        hex_str(r.device.0 as int),
        2,
        '0',
    ) + seq![':'] + pad_left(hex_str(r.device.1 as int), 2, '0') + seq![' '] + pad_left(
        dec_str(r.inode as int),
        8,
        ' ',
    ) + seq![' '] + match r.path_name {
        Some(p) => path_text(p),
        None => Seq::empty(),
    }
}

impl MemoryRegion {
    /// Renders the region as one display line, as `region_line` describes.
    pub fn to_line(&self) -> (r: String)
        ensures
            r@ == region_line(self@),
    {
        let mut out = pad_left_text(u64_to_hex(self.start), 12, '0');
        push_char(&mut out, '-');
        let end_text = pad_left_text(u64_to_hex(self.end), 12, '0');
        out.append(end_text.as_str());
        push_char(&mut out, ' ');
        let perms = self.permissions.to_text();
        out.append(perms.as_str());
        push_char(&mut out, ' ');
        let offset_text = pad_left_text(u64_to_hex(self.offset), 8, ' ');
        out.append(offset_text.as_str());
        push_char(&mut out, ' ');
        let size_text = pad_left_text(format_size(self.size()), 10, ' ');
        out.append(size_text.as_str());
        push_char(&mut out, ' ');
        let major_text = pad_left_text(u64_to_hex(self.device.0 as u64), 2, '0');
        out.append(major_text.as_str());
        push_char(&mut out, ':');
        let minor_text = pad_left_text(u64_to_hex(self.device.1 as u64), 2, '0');
        out.append(minor_text.as_str());
        push_char(&mut out, ' ');
        let inode_text = pad_left_text(u64_to_dec(self.inode), 8, ' ');
        out.append(inode_text.as_str());
        push_char(&mut out, ' ');
        match &self.path_name {
            Some(p) => {
                let p_text = p.display_text();
                out.append(p_text.as_str());
            },
            None => {},
        }
        proof {
            assert(out@ =~= region_line(self@));
        }
        out
    }
}

} // verus!
