//! Per-region accounting counters and the detail-line accumulator.
//!
//! Detail lines of the form `Key: value unit` may follow a region's header
//! line.  Each recorded counter is a `(name, kibibytes)` entry; a counter
//! that was never recorded reads as zero.

use vstd::prelude::*;
use crate::num::{is_dec_numeral, num_value, parse_u64_dec};
use crate::region::{MemoryRegion, RegionModel};
use crate::text::{find_char, scan_find, scan_spaces, scan_token, skip_spaces, str_eq, token_end};

verus! {

/// A region together with the counters accumulated from its detail lines.
#[derive(Debug, PartialEq, Eq)]
pub struct DetailedMemoryRegion {
    pub region: MemoryRegion,
    pub counters: Vec<(String, u64)>,
}

/// Mathematical shape: the region model plus counter entries in insertion
/// order.
pub struct DetailedRegionModel {
    pub region: RegionModel,
    pub counters: Seq<(Seq<char>, u64)>,
}

impl View for DetailedMemoryRegion {
    type V = DetailedRegionModel;

    open spec fn view(&self) -> DetailedRegionModel {
        DetailedRegionModel {
            region: self.region@,
            counters: self.counters@.map_values(|p: (String, u64)| (p.0@, p.1)),
        }
    }
}

/// Value of the named counter; a counter never recorded reads as zero.
pub open spec fn counter_value(cs: Seq<(Seq<char>, u64)>, key: Seq<char>) -> u64
    decreases cs.len(),
{
    if cs.len() == 0 {
        0
    } else if cs[0].0 == key {
        cs[0].1
    } else {
        counter_value(cs.drop_first(), key)
    }
}

/// Entries after recording `key = value`: the first entry for the key is
/// overwritten in place, or a new entry is appended.
pub open spec fn counters_set(
    cs: Seq<(Seq<char>, u64)>,
    key: Seq<char>,
    value: u64,
) -> Seq<(Seq<char>, u64)>
    decreases cs.len(),
{
    if cs.len() == 0 {
        seq![(key, value)]
    } else if cs[0].0 == key {
        seq![(key, value)] + cs.drop_first()
    } else {
        seq![cs[0]] + counters_set(cs.drop_first(), key, value)
    }
}

/// After recording a counter, reading it back gives the recorded value.
pub proof fn lemma_counter_value_set(cs: Seq<(Seq<char>, u64)>, key: Seq<char>, value: u64)
    ensures
        counter_value(counters_set(cs, key, value), key) == value,
    decreases cs.len(),
{
    if cs.len() == 0 {
    } else if cs[0].0 == key {
    } else {
        let tail = counters_set(cs.drop_first(), key, value);
        assert((seq![cs[0]] + tail).drop_first() =~= tail);
        lemma_counter_value_set(cs.drop_first(), key, value);
    }
}

/// Recording a counter leaves every other counter unchanged.
pub proof fn lemma_counter_value_set_other(
    cs: Seq<(Seq<char>, u64)>,
    key: Seq<char>,
    value: u64,
    k: Seq<char>,
)
    requires
        k != key,
    ensures
        counter_value(counters_set(cs, key, value), k) == counter_value(cs, k),
    decreases cs.len(),
{
    if cs.len() == 0 {
        let single = seq![(key, value)];
        assert(single[0] == (key, value));
        assert(single.drop_first() =~= Seq::<(Seq<char>, u64)>::empty());
        assert(counter_value(single.drop_first(), k) == 0);
    } else if cs[0].0 == key {
        let joined = seq![(key, value)] + cs.drop_first();
        assert(joined[0] == (key, value));
        assert(joined.drop_first() =~= cs.drop_first());
    } else {
        let tail = counters_set(cs.drop_first(), key, value);
        let joined = seq![cs[0]] + tail;
        assert(joined[0] == cs[0]);
        assert(joined.drop_first() =~= tail);
        lemma_counter_value_set_other(cs.drop_first(), key, value, k);
    }
}

/// Overwriting the first entry that holds the key is `counters_set`.
proof fn lemma_counters_set_is_update(
    cs: Seq<(Seq<char>, u64)>,
    i: int,
    key: Seq<char>,
    value: u64,
)
    requires
        0 <= i < cs.len(),
        cs[i].0 == key,
        forall|k: int| 0 <= k < i ==> (#[trigger] cs[k]).0 != key,
    ensures
        counters_set(cs, key, value) == cs.update(i, (key, value)),
    decreases i,
{
    if i == 0 {
        assert(seq![(key, value)] + cs.drop_first() =~= cs.update(0, (key, value)));
    } else {
        lemma_counters_set_is_update(cs.drop_first(), i - 1, key, value);
        assert(seq![cs[0]] + cs.drop_first().update(i - 1, (key, value)) =~= cs.update(
            i,
            (key, value),
        ));
    }
}

/// Appending a fresh key is `counters_set`.
proof fn lemma_counters_set_is_push(cs: Seq<(Seq<char>, u64)>, key: Seq<char>, value: u64)
    requires
        forall|k: int| 0 <= k < cs.len() ==> (#[trigger] cs[k]).0 != key,
    ensures
        counters_set(cs, key, value) == cs.push((key, value)),
    decreases cs.len(),
{
    if cs.len() == 0 {
        assert(seq![(key, value)] =~= cs.push((key, value)));
    } else {
        lemma_counters_set_is_push(cs.drop_first(), key, value);
        assert(seq![cs[0]] + cs.drop_first().push((key, value)) =~= cs.push((key, value)));
    }
}

impl DetailedMemoryRegion {
    /// Wraps a base region with no counters recorded yet.
    pub fn from_region(region: MemoryRegion) -> (r: DetailedMemoryRegion)
        ensures
            r@.region == region@,
            r@.counters =~= Seq::<(Seq<char>, u64)>::empty(),
    {
        DetailedMemoryRegion { region, counters: Vec::new() }
    }

    /// Reads the named counter; a counter never recorded reads as zero.
    pub fn counter(&self, key: &str) -> (v: u64)
        ensures
            v == counter_value(self@.counters, key@),
    {
        let n = self.counters.len();
        let mut i: usize = 0;
        proof {
            assert(self@.counters.skip(0) =~= self@.counters);
        }
        while i < n
            invariant
                i <= n,
                n == self.counters.len(),
                counter_value(self@.counters, key@) == counter_value(
                    self@.counters.skip(i as int),
                    key@,
                ),
            decreases n - i,
        {
            if str_eq(self.counters[i].0.as_str(), key) {
                return self.counters[i].1;
            }
            proof {
                assert(self@.counters.skip(i as int).drop_first() =~= self@.counters.skip(
                    i as int + 1,
                ));
            }
            i = i + 1;
        }
        0
    }

    /// Records `key = value`, overwriting any earlier value for the key.
    pub fn set_counter(&mut self, key: &str, value: u64)
        ensures
            final(self)@.region == old(self)@.region,
            final(self)@.counters == counters_set(old(self)@.counters, key@, value),
    {
        let n = self.counters.len();
        let mut i: usize = 0;
        while i < n
            invariant
                i <= n,
                n == self.counters.len(),
                *self == *old(self),
                forall|k: int| 0 <= k < i ==> (#[trigger] self@.counters[k]).0 != key@,
            decreases n - i,
        {
            if str_eq(self.counters[i].0.as_str(), key) {
                let old_key = self.counters[i].0.clone();
                self.counters[i] = (old_key, value);
                proof {
                    lemma_counters_set_is_update(old(self)@.counters, i as int, key@, value);
                    assert(self@.counters =~= old(self)@.counters.update(
                        i as int,
                        (key@, value),
                    ));
                }
                return;
            }
            i = i + 1;
        }
        self.counters.push((String::from_str(key), value));
        proof {
            lemma_counters_set_is_push(old(self)@.counters, key@, value);
            assert(self@.counters =~= old(self)@.counters.push((key@, value)));
        }
    }
}

/// Outcome of reading one detail line: the text before the first `:` as the
/// key, and the first whitespace-delimited token after the `:` as a decimal
/// value — if the line has that shape.  `None` means the line is ignored.
pub open spec fn spec_parse_detail(s: Seq<char>) -> Option<(Seq<char>, u64)> {
    let ci = find_char(s, ':', 0);
    if !(0 <= ci < s.len()) {
        None
    } else {
        let v0 = skip_spaces(s, ci + 1);
        let v1 = token_end(s, v0);
        if !(v0 < s.len()) {
            None
        } else {
            let vt = s.subrange(v0, v1);
            if is_dec_numeral(vt) && num_value(vt, 10) <= u64::MAX {
                Some((s.subrange(0, ci), num_value(vt, 10) as u64))
            } else {
                None
            }
        }
    }
}

/// A region after one detail line: unchanged unless the line parses, in
/// which case its counter is recorded.
pub open spec fn apply_detail(r: DetailedRegionModel, s: Seq<char>) -> DetailedRegionModel {
    match spec_parse_detail(s) {
        None => r,
        Some(kv) => DetailedRegionModel {
            region: r.region,
            counters: counters_set(r.counters, kv.0, kv.1),
        },
    }
}

/// Folds one detail line into the region's counters.  A line that does not
/// have the `key: value` shape is skipped rather than failing, so corrupt
/// detail text never aborts a snapshot.
pub fn parse_detail_into_region(region: &mut DetailedMemoryRegion, line: &str)
    ensures
        final(region)@ == apply_detail(old(region)@, line@),
{
    let n = line.unicode_len();
    let ci = scan_find(line, ':', 0, n);
    if ci == n {
        return;
    }
    let v0 = scan_spaces(line, ci + 1, n);
    if v0 == n {
        return;
    }
    let v1 = scan_token(line, v0, n);
    let value = match parse_u64_dec(line, v0, v1) {
        Ok(v) => v,
        Err(_) => {
            return;
        },
    };
    let key = line.substring_char(0, ci);
    region.set_counter(key, value);
}

} // verus!
