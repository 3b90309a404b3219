//! Process snapshots: the line-oriented scan that turns descriptor text
//! into an ordered list of detailed regions, plus the invocation string.

use vstd::prelude::*;
use crate::detail::{
    apply_detail, parse_detail_into_region, DetailedMemoryRegion, DetailedRegionModel,
};
use crate::error::ParseError;
use crate::num::{is_hex_digit, is_hex_digit_char};
use crate::region::{spec_parse_header, MemoryRegion};
use crate::text::{
    find_char, push_char, rtrim, scan_find, scan_rtrim, scan_spaces, skip_spaces,
};

verus! {

/// Why a snapshot could not be built.
#[derive(Debug)]
pub enum ProcessParseError {
    /// A region header line failed to parse.
    MemoryParseError(ParseError),
    /// The raw invocation or descriptor text could not be obtained; carries
    /// the reporting text of the underlying failure.
    Io(String),
}

/// A header line starts with an ASCII hexadecimal digit; this is the sole
/// discriminator between header lines and detail lines.
pub open spec fn spec_is_header(s: Seq<char>) -> bool {
    s.len() > 0 && is_hex_digit_char(s[0])
}

/// Executable check matching `spec_is_header`.
pub fn is_address_line(line: &str) -> (r: bool)
    ensures
        r == spec_is_header(line@),
{
    line.unicode_len() > 0 && is_hex_digit(line.get_char(0))
}

/// One trailing carriage return is dropped from a line broken at a newline.
pub open spec fn strip_cr(t: Seq<char>) -> Seq<char> {
    if t.len() > 0 && t.last() == '\r' {
        t.drop_last()
    } else {
        t
    }
}

/// The lines of `s` from index `i` on: segments broken at `\n`, each with a
/// trailing `\r` dropped; the final segment is kept as written, and a
/// trailing newline opens no extra empty line.
pub open spec fn spec_lines_from(s: Seq<char>, i: int) -> Seq<Seq<char>>
    decreases s.len() - i,
{
    if !(0 <= i < s.len()) {
        Seq::empty()
    } else {
        let j = find_char(s, '\n', i);
        if !(i <= j < s.len()) {
            seq![s.subrange(i, s.len() as int)]
        } else {
            seq![strip_cr(s.subrange(i, j))] + spec_lines_from(s, j + 1)
        }
    }
}

/// The lines of a whole text.
pub open spec fn spec_lines(s: Seq<char>) -> Seq<Seq<char>> {
    spec_lines_from(s, 0)
}

/// Splits text into lines as `spec_lines` describes.
pub fn split_lines(s: &str) -> (r: Vec<String>)
    ensures
        r.deep_view() == spec_lines(s@),
{
    let n = s.unicode_len();
    let mut out: Vec<String> = Vec::new();
    let mut i: usize = 0;
    proof {
        assert(out.deep_view() + spec_lines_from(s@, 0) =~= spec_lines(s@));
    }
    while i < n
        invariant
            i <= n,
            n == s@.len(),
            out.deep_view() + spec_lines_from(s@, i as int) == spec_lines(s@),
        decreases n - i,
    {
        let ghost prev = out.deep_view();
        let j = scan_find(s, '\n', i, n);
        if j == n {
            let seg = s.substring_char(i, n);
            out.push(String::from_str(seg));
            proof {
                assert(out.deep_view() =~= prev.push(seg@));
                assert(prev.push(seg@) + spec_lines_from(s@, n as int) =~= prev
                    + spec_lines_from(s@, i as int));
            }
            i = n;
        } else {
            let end = if j > i && s.get_char(j - 1) == '\r' {
                j - 1
            } else {
                j
            };
            let seg = s.substring_char(i, end);
            proof {
                if j > i && s@[j as int - 1] == '\r' {
                    assert(s@.subrange(i as int, j as int).last() == '\r');
                    assert(s@.subrange(i as int, j as int).drop_last() =~= s@.subrange(
                        i as int,
                        j as int - 1,
                    ));
                }
                assert(seg@ == strip_cr(s@.subrange(i as int, j as int)));
            }
            out.push(String::from_str(seg));
            proof {
                assert(out.deep_view() =~= prev.push(seg@));
                assert(prev.push(seg@) + spec_lines_from(s@, j as int + 1) =~= prev + (seq![
                    strip_cr(s@.subrange(i as int, j as int)),
                ] + spec_lines_from(s@, j as int + 1)));
            }
            i = j + 1;
        }
    }
    proof {
        assert(out.deep_view() + spec_lines_from(s@, i as int) =~= out.deep_view());
    }
    out
}

/// NUL separators become spaces.
pub open spec fn nul_to_space(s: Seq<char>) -> Seq<char> {
    s.map_values(|c: char| if c == '\0' { ' ' } else { c })
}

/// Raw invocation text after normalization: NUL separators replaced by
/// spaces and surrounding whitespace trimmed.
pub open spec fn normalize_cmd(s: Seq<char>) -> Seq<char> {
    let t = nul_to_space(s);
    let a = skip_spaces(t, 0);
    let b = rtrim(t, a, t.len() as int);
    t.subrange(a, b)
}

/// Normalizes raw invocation text as `normalize_cmd` describes.
pub fn normalize_cmd_line(s: &str) -> (r: String)
    ensures
        r@ == normalize_cmd(s@),
{
    let n = s.unicode_len();
    let mut t = String::new();
    let mut i: usize = 0;
    proof {
        assert(t@ =~= nul_to_space(s@.take(0)));
    }
    while i < n
        invariant
            i <= n,
            n == s@.len(),
            t@ == nul_to_space(s@.take(i as int)),
        decreases n - i,
    {
        let c = s.get_char(i);
        push_char(&mut t, if c == '\0' { ' ' } else { c });
        proof {
            assert(nul_to_space(s@.take(i as int + 1)) =~= nul_to_space(s@.take(i as int)).push(
                if s@[i as int] == '\0' { ' ' } else { s@[i as int] },
            ));
        }
        i = i + 1;
    }
    proof {
        assert(s@.take(n as int) =~= s@);
    }
    let a = scan_spaces(t.as_str(), 0, n);
    let b = scan_rtrim(t.as_str(), a, n);
    String::from_str(t.as_str().substring_char(a, b))
}

/// The model of an optional in-progress region.
pub open spec fn opt_model(c: Option<DetailedMemoryRegion>) -> Option<DetailedRegionModel> {
    match c {
        Some(r) => Some(r@),
        None => None,
    }
}

/// The models of a sequence of detailed regions.
pub open spec fn regions_model(rs: Seq<DetailedMemoryRegion>) -> Seq<DetailedRegionModel> {
    rs.map_values(|r: DetailedMemoryRegion| r@)
}

/// The two-state scan over lines, from line `i` on, with an optional region
/// in progress and the regions already finished.  A header line finalizes
/// any in-progress region and opens a new one; a detail line folds into the
/// region in progress, or is skipped when none is; the last in-progress
/// region is finalized at the end.  A header parse failure aborts the scan.
pub open spec fn spec_scan(
    lines: Seq<Seq<char>>,
    i: int,
    cur: Option<DetailedRegionModel>,
    done: Seq<DetailedRegionModel>,
) -> Result<Seq<DetailedRegionModel>, ParseError>
    decreases lines.len() - i,
{
    if !(0 <= i < lines.len()) {
        Ok(
            match cur {
                Some(r) => done.push(r),
                None => done,
            },
        )
    } else if spec_is_header(lines[i]) {
        match spec_parse_header(lines[i]) {
            Err(e) => Err(e),
            Ok(rm) => spec_scan(
                lines,
                i + 1,
                Some(DetailedRegionModel { region: rm, counters: Seq::empty() }),
                match cur {
                    Some(r) => done.push(r),
                    None => done,
                },
            ),
        }
    } else {
        match cur {
            None => spec_scan(lines, i + 1, None, done),
            Some(r) => spec_scan(lines, i + 1, Some(apply_detail(r, lines[i])), done),
        }
    }
}

/// The ordered region list encoded by descriptor text.
pub open spec fn spec_snapshot(text: Seq<char>) -> Result<Seq<DetailedRegionModel>, ParseError> {
    spec_scan(spec_lines(text), 0, None, Seq::empty())
}

/// A process snapshot: identity, invocation string, and regions in kernel
/// emission order.  Constructed once and immutable thereafter.
#[derive(Debug)]
pub struct Process {
    pub pid: u32,
    pub cmd_line: String,
    pub memory_regions: Vec<DetailedMemoryRegion>,
}

impl Process {
    /// Builds a snapshot from the process identity, its raw invocation text,
    /// and its raw descriptor text.  Any header-line failure aborts the
    /// whole construction: there is no partial region list.
    #[verifier::rlimit(60)]
    pub fn from_parts(pid: u32, raw_cmd_line: &str, descriptor_text: &str) -> (r: Result<
        Process,
        ProcessParseError,
    >)
        ensures
            match r {
                Ok(p) => p.pid == pid && p.cmd_line@ == normalize_cmd(raw_cmd_line@)
                    && spec_snapshot(descriptor_text@) == Ok::<_, ParseError>(
                    regions_model(p.memory_regions@),
                ),
                Err(e) => match e {
                    ProcessParseError::MemoryParseError(pe) => spec_snapshot(descriptor_text@)
                        == Err::<Seq<DetailedRegionModel>, ParseError>(pe),
                    ProcessParseError::Io(_) => false,
                },
            },
    {
        let cmd_line = normalize_cmd_line(raw_cmd_line);
        let lines = split_lines(descriptor_text);
        let ghost lm = spec_lines(descriptor_text@);
        let mut regions: Vec<DetailedMemoryRegion> = Vec::new();
        let mut current: Option<DetailedMemoryRegion> = None;
        let nl = lines.len();
        let mut i: usize = 0;
        proof {
            assert(regions_model(regions@) =~= Seq::<DetailedRegionModel>::empty());
        }
        while i < nl
            invariant
                i <= nl,
                nl == lines.len(),
                lines.deep_view() == lm,
                lm == spec_lines(descriptor_text@),
                spec_scan(lm, i as int, opt_model(current), regions_model(regions@)) == spec_scan(
                    lm,
                    0,
                    None,
                    Seq::empty(),
                ),
            decreases nl - i,
        {
            proof {
                assert(lm[i as int] == lines@[i as int]@);
            }
            let line = lines[i].as_str();
            if is_address_line(line) {
                match MemoryRegion::parse(line) {
                    Ok(base) => {
                        let ghost prev_regions = regions_model(regions@);
                        match current {
                            Some(finished) => {
                                let ghost fm = finished@;
                                regions.push(finished);
                                proof {
                                    assert(regions_model(regions@) =~= prev_regions.push(fm));
                                }
                            },
                            None => {},
                        }
                        let opened = DetailedMemoryRegion::from_region(base);
                        proof {
                            assert(opened@ == DetailedRegionModel {
                                region: base@,
                                counters: Seq::empty(),
                            });
                        }
                        current = Some(opened);
                    },
                    Err(e) => {
                        proof {
                            assert(spec_scan(
                                lm,
                                i as int,
                                opt_model(current),
                                regions_model(regions@),
                            ) == Err::<Seq<DetailedRegionModel>, ParseError>(e));
                        }
                        return Err(ProcessParseError::MemoryParseError(e));
                    },
                }
            } else {
                match &mut current {
                    Some(rg) => parse_detail_into_region(rg, line),
                    None => {},
                }
            }
            i = i + 1;
        }
        match current {
            Some(rg) => {
                let ghost prev_regions = regions_model(regions@);
                regions.push(rg);
                proof {
                    assert(regions_model(regions@) =~= prev_regions.push(rg@));
                }
            },
            None => {},
        }
        Ok(Process { pid, cmd_line, memory_regions: regions })
    }
}

} // verus!
