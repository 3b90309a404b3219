//! Character classes and low-level text scanning.
//!
//! Descriptor text is scanned index by index.  The spec functions here name
//! the scan positions (end of a whitespace run, end of a token, first
//! occurrence of a separator), and the executable functions compute them.

use vstd::prelude::*;

verus! {

/// ASCII whitespace: the separators that occur in descriptor text.
pub open spec fn is_space_char(c: char) -> bool {
    c == ' ' || c == '\t' || c == '\n' || c == '\r' || c == '\u{b}' || c == '\u{c}'
}

/// Executable check matching `is_space_char`.
pub fn is_space(c: char) -> (r: bool)
    ensures
        r == is_space_char(c),
{
    c == ' ' || c == '\t' || c == '\n' || c == '\r' || c == '\u{b}' || c == '\u{c}'
}

/// First index at or after `i` that holds a non-space character, or the length.
pub open spec fn skip_spaces(s: Seq<char>, i: int) -> int
    decreases s.len() - i,
{
    if 0 <= i < s.len() && is_space_char(s[i]) {
        skip_spaces(s, i + 1)
    } else {
        i
    }
}

/// First index at or after `i` that holds a space, or the length.
pub open spec fn token_end(s: Seq<char>, i: int) -> int
    decreases s.len() - i,
{
    if 0 <= i < s.len() && !is_space_char(s[i]) {
        token_end(s, i + 1)
    } else {
        i
    }
}

/// Last index of the range `[lo, hi)` after dropping trailing spaces.
pub open spec fn rtrim(s: Seq<char>, lo: int, hi: int) -> int
    decreases hi - lo,
{
    if lo < hi <= s.len() && is_space_char(s[hi - 1]) {
        rtrim(s, lo, hi - 1)
    } else {
        hi
    }
}

/// First index at or after `i` that holds the character `c`, or the length.
pub open spec fn find_char(s: Seq<char>, c: char, i: int) -> int
    decreases s.len() - i,
{
    if 0 <= i < s.len() && s[i] != c {
        find_char(s, c, i + 1)
    } else {
        i
    }
}

/// Computes `skip_spaces` on the view of `s`.
pub fn scan_spaces(s: &str, from: usize, len: usize) -> (r: usize)
    requires
        len == s@.len(),
        from <= len,
    ensures
        r == skip_spaces(s@, from as int),
        from <= r <= len,
{
    let mut i = from;
    while i < len && is_space(s.get_char(i))
        invariant
            from <= i <= len,
            len == s@.len(),
            skip_spaces(s@, from as int) == skip_spaces(s@, i as int),
        decreases len - i,
    {
        i = i + 1;
    }
    i
}

/// Computes `token_end` on the view of `s`.
pub fn scan_token(s: &str, from: usize, len: usize) -> (r: usize)
    requires
        len == s@.len(),
        from <= len,
    ensures
        r == token_end(s@, from as int),
        from <= r <= len,
{
    let mut i = from;
    while i < len && !is_space(s.get_char(i))
        invariant
            from <= i <= len,
            len == s@.len(),
            token_end(s@, from as int) == token_end(s@, i as int),
        decreases len - i,
    {
        i = i + 1;
    }
    i
}

/// Computes `rtrim` on the view of `s`.
pub fn scan_rtrim(s: &str, lo: usize, hi: usize) -> (r: usize)
    requires
        hi <= s@.len(),
        lo <= hi,
    ensures
        r == rtrim(s@, lo as int, hi as int),
        lo <= r <= hi,
{
    let mut i = hi;
    while lo < i && is_space(s.get_char(i - 1))
        invariant
            lo <= i <= hi,
            hi <= s@.len(),
            rtrim(s@, lo as int, hi as int) == rtrim(s@, lo as int, i as int),
        decreases i,
    {
        i = i - 1;
    }
    i
}

/// Computes `find_char` on the view of `s`.
pub fn scan_find(s: &str, c: char, from: usize, len: usize) -> (r: usize)
    requires
        len == s@.len(),
        from <= len,
    ensures
        r == find_char(s@, c, from as int),
        from <= r <= len,
{
    let mut i = from;
    while i < len && s.get_char(i) != c
        invariant
            from <= i <= len,
            len == s@.len(),
            find_char(s@, c, from as int) == find_char(s@, c, i as int),
        decreases len - i,
    {
        i = i + 1;
    }
    i
}

/// Character-wise string equality.
pub fn str_eq(a: &str, b: &str) -> (r: bool)
    ensures
        r == (a@ == b@),
{
    let an = a.unicode_len();
    let bn = b.unicode_len();
    if an != bn {
        return false;
    }
    let mut i: usize = 0;
    while i < an
        invariant
            i <= an,
            an == a@.len(),
            bn == b@.len(),
            an == bn,
            forall|k: int| 0 <= k < i ==> a@[k] == b@[k],
        decreases an - i,
    {
        if a.get_char(i) != b.get_char(i) {
            return false;
        }
        i = i + 1;
    }
    proof {
        assert(a@ =~= b@);
    }
    true
}

/// Lexicographic order on character sequences, by code point.
pub open spec fn lex_leq(a: Seq<char>, b: Seq<char>) -> bool
    decreases a.len(),
{
    if a.len() == 0 {
        true
    } else if b.len() == 0 {
        false
    } else if a[0] as u32 == b[0] as u32 {
        lex_leq(a.drop_first(), b.drop_first())
    } else {
        (a[0] as u32) < (b[0] as u32)
    }
}

/// `lex_leq` is total: two sequences always compare one way or the other.
pub proof fn lemma_lex_total(a: Seq<char>, b: Seq<char>)
    ensures
        lex_leq(a, b) || lex_leq(b, a),
    decreases a.len(),
{
    if a.len() > 0 && b.len() > 0 && a[0] as u32 == b[0] as u32 {
        lemma_lex_total(a.drop_first(), b.drop_first());
    }
}

/// `lex_leq` is transitive.
pub proof fn lemma_lex_trans(a: Seq<char>, b: Seq<char>, c: Seq<char>)
    requires
        lex_leq(a, b),
        lex_leq(b, c),
    ensures
        lex_leq(a, c),
    decreases a.len(),
{
    if a.len() > 0 && b.len() > 0 && c.len() > 0 && a[0] as u32 == b[0] as u32
        && b[0] as u32 == c[0] as u32 {
        lemma_lex_trans(a.drop_first(), b.drop_first(), c.drop_first());
    }
}

/// Executable lexicographic comparison matching `lex_leq`.
pub fn str_leq(a: &str, b: &str) -> (r: bool)
    ensures
        r == lex_leq(a@, b@),
{
    let an = a.unicode_len();
    let bn = b.unicode_len();
    let mut i: usize = 0;
    proof {
        assert(a@.skip(0) =~= a@);
        assert(b@.skip(0) =~= b@);
    }
    loop
        invariant
            i <= an,
            i <= bn,
            an == a@.len(),
            bn == b@.len(),
            lex_leq(a@, b@) == lex_leq(a@.skip(i as int), b@.skip(i as int)),
        decreases an - i,
    {
        if i == an {
            return true;
        }
        if i == bn {
            return false;
        }
        let ca = a.get_char(i) as u32;
        let cb = b.get_char(i) as u32;
        if ca == cb {
            proof {
                assert(a@.skip(i as int).drop_first() =~= a@.skip(i as int + 1));
                assert(b@.skip(i as int).drop_first() =~= b@.skip(i as int + 1));
            }
            i = i + 1;
        } else {
            return ca < cb;
        }
    }
}

/// Relies on `String::push`: appends exactly one character.
#[verifier::external_body]
pub fn push_char(s: &mut String, c: char)
    ensures
        final(s)@ == old(s)@.push(c),
{
    s.push(c)
}

} // verus!
