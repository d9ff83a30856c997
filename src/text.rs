//! Character-level helpers shared by the parsers and the formatter.
use vstd::prelude::*;
use vstd::string::*;

verus! {

/// The first index at or after `from` where `s` holds `c`, or `s.len()` if there is none.
pub open spec fn next_index(s: Seq<char>, c: char, from: int) -> int
    decreases s.len() - from,
{
    if from >= s.len() {
        s.len() as int
    } else if s[from] == c {
        from
    } else {
        next_index(s, c, from + 1)
    }
}

pub proof fn lemma_next_index_bounds(s: Seq<char>, c: char, from: int)
    requires
        0 <= from <= s.len(),
    ensures
        from <= next_index(s, c, from) <= s.len(),
        next_index(s, c, from) < s.len() ==> s[next_index(s, c, from)] == c,
        forall|j: int| from <= j < next_index(s, c, from) ==> s[j] != c,
    decreases s.len() - from,
{
    if from < s.len() && s[from] != c {
        lemma_next_index_bounds(s, c, from + 1);
    }
}

/// `next_index` is determined by the characters it skips and the one it stops at.
pub proof fn lemma_next_index_at(s: Seq<char>, c: char, from: int, k: int)
    requires
        0 <= from <= k <= s.len(),
        forall|j: int| from <= j < k ==> s[j] != c,
        k == s.len() || s[k] == c,
    ensures
        next_index(s, c, from) == k,
    decreases k - from,
{
    if from < k {
        lemma_next_index_at(s, c, from + 1, k);
    }
}

/// `s` does not hold `c`.
pub open spec fn lacks(s: Seq<char>, c: char) -> bool {
    forall|i: int| 0 <= i < s.len() ==> s[i] != c
}

/// Past a prefix, `next_index` is that of the rest, shifted by the prefix's length.
pub proof fn lemma_next_index_shift(p: Seq<char>, v: Seq<char>, c: char, j: int)
    requires
        0 <= j <= v.len(),
    ensures
        next_index(p + v, c, p.len() + j) == p.len() + next_index(v, c, j),
{
    lemma_next_index_bounds(v, c, j);
    let s = p + v;
    let k = p.len() + next_index(v, c, j);
    assert forall|x: int| p.len() + j <= x < k implies s[x] != c by {
        assert(s[x] == v[x - p.len()]);
    }
    lemma_next_index_at(s, c, p.len() + j, k);
}

/// Whitespace that may surround a header name or value.
pub open spec fn is_ows(c: char) -> bool {
    c == ' ' || c == '\t'
}

/// `s` without its leading whitespace.
pub open spec fn trim_start(s: Seq<char>) -> Seq<char>
    decreases s.len(),
{
    if s.len() > 0 && is_ows(s[0]) {
        trim_start(s.drop_first())
    } else {
        s
    }
}

/// `s` without its trailing whitespace.
pub open spec fn trim_end(s: Seq<char>) -> Seq<char>
    decreases s.len(),
{
    if s.len() > 0 && is_ows(s.last()) {
        trim_end(s.drop_last())
    } else {
        s
    }
}

/// `s` without whitespace at either end.
pub open spec fn trim(s: Seq<char>) -> Seq<char> {
    trim_end(trim_start(s))
}

/// The characters of `s`, one per element.
pub fn chars_of(s: &str) -> (r: Vec<char>)
    ensures
        r@ == s@,
{
    let n = s.unicode_len();
    let mut r: Vec<char> = Vec::new();
    let mut i: usize = 0;
    while i < n
        invariant
            n == s@.len(),
            i <= n,
            r@ == s@.subrange(0, i as int),
        decreases n - i,
    {
        r.push(s.get_char(i));
        i = i + 1;
    }
    assert(r@ =~= s@);
    r
}

/// Exec counterpart of `next_index`.
pub fn find_char(s: &Vec<char>, c: char, from: usize) -> (r: usize)
    requires
        from <= s@.len(),
    ensures
        r as int == next_index(s@, c, from as int),
        from <= r <= s@.len(),
{
    proof {
        lemma_next_index_bounds(s@, c, from as int);
    }
    let mut i: usize = from;
    while i < s.len() && s[i] != c
        invariant
            from <= i <= s@.len(),
            next_index(s@, c, from as int) == next_index(s@, c, i as int),
        decreases s@.len() - i,
    {
        i = i + 1;
    }
    i
}

/// The characters of `s` from `from` up to `to`, as an owned string.
pub fn substring(s: &str, from: usize, to: usize) -> (r: String)
    requires
        from <= to <= s@.len(),
    ensures
        r@ == s@.subrange(from as int, to as int),
{
    s.substring_char(from, to).to_owned()
}

/// The characters of `s` from `from` up to `to`, with whitespace at both ends removed.
pub fn trimmed_substring(s: &str, chars: &Vec<char>, from: usize, to: usize) -> (r: String)
    requires
        chars@ == s@,
        from <= to <= s@.len(),
    ensures
        r@ == trim(s@.subrange(from as int, to as int)),
{
    let ghost t = s@.subrange(from as int, to as int);
    let mut lo: usize = from;
    while lo < to && (chars[lo] == ' ' || chars[lo] == '\t')
        invariant
            chars@ == s@,
            from <= lo <= to <= s@.len(),
            trim_start(t) == trim_start(s@.subrange(lo as int, to as int)),
        decreases to - lo,
    {
        assert(s@.subrange(lo as int, to as int).drop_first() =~= s@.subrange(lo + 1, to as int));
        lo = lo + 1;
    }
    assert(trim_start(s@.subrange(lo as int, to as int)) == s@.subrange(lo as int, to as int));
    let mut hi: usize = to;
    while hi > lo && (chars[hi - 1] == ' ' || chars[hi - 1] == '\t')
        invariant
            chars@ == s@,
            from <= lo <= hi <= to <= s@.len(),
            trim(t) == trim_end(s@.subrange(lo as int, hi as int)),
        decreases hi - lo,
    {
        assert(s@.subrange(lo as int, hi as int).drop_last() =~= s@.subrange(lo as int, hi - 1));
        hi = hi - 1;
    }
    substring(s, lo, hi)
}

/// Whether two strings hold the same characters.
pub fn same_text(a: &str, b: &str) -> (r: bool)
    ensures
        r == (a@ == b@),
{
    let x = chars_of(a);
    let y = chars_of(b);
    if x.len() != y.len() {
        return false;
    }
    let mut i: usize = 0;
    while i < x.len()
        invariant
            x@ == a@,
            y@ == b@,
            x@.len() == y@.len(),
            i <= x@.len(),
            forall|j: int| 0 <= j < i ==> x@[j] == y@[j],
        decreases x@.len() - i,
    {
        if x[i] != y[i] {
            return false;
        }
        i = i + 1;
    }
    assert(x@ =~= y@);
    true
}

/// A line without the `\r` that ends it, if any.
pub open spec fn strip_cr(l: Seq<char>) -> Seq<char> {
    if l.len() > 0 && l.last() == '\r' {
        l.drop_last()
    } else {
        l
    }
}

/// The lines of `s` from position `i` on, where the current line began at `start`:
/// lines end at `\n` (a `\r` before it is dropped), and a final line
/// needs no terminator.
pub open spec fn lines_from(s: Seq<char>, i: int, start: int) -> Seq<Seq<char>>
    decreases s.len() - i,
{
    if i < 0 || i >= s.len() {
        if 0 <= start < s.len() {
            seq![strip_cr(s.subrange(start, s.len() as int))]
        } else {
            seq![]
        }
    } else if s[i] == '\n' {
        seq![strip_cr(s.subrange(start, i))] + lines_from(s, i + 1, i + 1)
    } else {
        lines_from(s, i + 1, start)
    }
}

/// The lines of a text.
pub open spec fn text_lines(s: Seq<char>) -> Seq<Seq<char>> {
    lines_from(s, 0, 0)
}

/// The characters of each string.
pub open spec fn strings_view(v: Seq<String>) -> Seq<Seq<char>> {
    Seq::new(v.len(), |i: int| v[i]@)
}

/// Splits a text into its lines.
pub fn split_lines(s: &str) -> (r: Vec<String>)
    ensures
        strings_view(r@) == text_lines(s@),
{
    let cs = chars_of(s);
    let mut out: Vec<String> = Vec::new();
    let mut start: usize = 0;
    let mut i: usize = 0;
    while i < cs.len()
        invariant
            cs@ == s@,
            start <= i <= cs@.len(),
            strings_view(out@) + lines_from(s@, i as int, start as int) == text_lines(s@),
        decreases cs@.len() - i,
    {
        if cs[i] == '\n' {
            let line = line_between(s, &cs, start, i);
            let ghost before = out@;
            out.push(line);
            assert(strings_view(out@) =~= strings_view(before) + seq![line@]);
            assert(strings_view(out@) + lines_from(s@, i + 1, i + 1) =~= strings_view(before)
                + lines_from(s@, i as int, start as int));
            start = i + 1;
        }
        i = i + 1;
    }
    if start < cs.len() {
        let line = line_between(s, &cs, start, cs.len());
        let ghost before = out@;
        out.push(line);
        assert(strings_view(out@) =~= strings_view(before) + seq![line@]);
    }
    assert(strings_view(out@) =~= text_lines(s@));
    out
}

/// The characters from `from` up to `to`, without a final `\r`.
fn line_between(s: &str, cs: &Vec<char>, from: usize, to: usize) -> (r: String)
    requires
        cs@ == s@,
        from <= to <= s@.len(),
    ensures
        r@ == strip_cr(s@.subrange(from as int, to as int)),
{
    if to > from && cs[to - 1] == '\r' {
        let r = substring(s, from, to - 1);
        assert(s@.subrange(from as int, to as int).drop_last() =~= r@);
        r
    } else {
        substring(s, from, to)
    }
}

} // verus!
