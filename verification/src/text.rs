//! Verified character-level string utilities: equality, prefix and suffix
//! tests, line splitting and whitespace trimming, each specified over the
//! `Seq<char>` view of `str`.

use vstd::prelude::*;

verus! {

/// True when `p` is a prefix of `l`.
pub open spec fn is_prefixed(l: Seq<char>, p: Seq<char>) -> bool {
    l.len() >= p.len() && l.subrange(0, p.len() as int) == p
}

/// True when `p` is a suffix of `l`.
pub open spec fn is_suffixed(l: Seq<char>, p: Seq<char>) -> bool {
    l.len() >= p.len() && l.subrange(l.len() - p.len(), l.len() as int) == p
}

/// Character-wise string equality.
pub fn str_eq(a: &str, b: &str) -> (r: bool)
    ensures
        r == (a@ == b@),
{
    let an = a.unicode_len();
    let bn = b.unicode_len();
    if an != bn {
        return false;
    }
    let mut i: usize = 0;
    while i < an
        invariant
            an == a@.len(),
            bn == b@.len(),
            an == bn,
            i <= an,
            forall|k: int| 0 <= k < i ==> a@[k] == b@[k],
        decreases an - i,
    {
        if a.get_char(i) != b.get_char(i) {
            return false;
        }
        i += 1;
    }
    proof {
        assert(a@ =~= b@);
    }
    true
}

/// Whether `l` starts with `p`.
pub fn has_prefix(l: &str, p: &str) -> (r: bool)
    ensures
        r == is_prefixed(l@, p@),
{
    let ln = l.unicode_len();
    let pn = p.unicode_len();
    if ln < pn {
        return false;
    }
    let mut i: usize = 0;
    while i < pn
        invariant
            ln == l@.len(),
            pn == p@.len(),
            pn <= ln,
            i <= pn,
            forall|k: int| 0 <= k < i ==> l@[k] == p@[k],
        decreases pn - i,
    {
        if l.get_char(i) != p.get_char(i) {
            proof {
                assert(l@.subrange(0, p@.len() as int)[i as int] == l@[i as int]);
            }
            return false;
        }
        i += 1;
    }
    proof {
        assert(l@.subrange(0, p@.len() as int) =~= p@);
    }
    true
}

/// Whether `l` ends with `p`.
pub fn has_suffix(l: &str, p: &str) -> (r: bool)
    ensures
        r == is_suffixed(l@, p@),
{
    let ln = l.unicode_len();
    let pn = p.unicode_len();
    if ln < pn {
        return false;
    }
    let base = ln - pn;
    let mut i: usize = 0;
    while i < pn
        invariant
            ln == l@.len(),
            pn == p@.len(),
            pn <= ln,
            base == ln - pn,
            i <= pn,
            forall|k: int| 0 <= k < i ==> l@[base as int + k] == p@[k],
        decreases pn - i,
    {
        if l.get_char(base + i) != p.get_char(i) {
            proof {
                assert(l@.subrange(l@.len() - p@.len(), l@.len() as int)[i as int] == l@[base as int
                    + i]);
            }
            return false;
        }
        i += 1;
    }
    proof {
        assert(l@.subrange(l@.len() - p@.len(), l@.len() as int) =~= p@);
    }
    true
}

/// The characters of `l` from position `from` on, as an owned string.
pub fn suffix_from(l: &str, from: usize) -> (r: String)
    requires
        from <= l@.len(),
    ensures
        r@ == l@.skip(from as int),
{
    let n = l.unicode_len();
    let sub = l.substring_char(from, n);
    proof {
        assert(l@.subrange(from as int, l@.len() as int) =~= l@.skip(from as int));
    }
    sub.to_owned()
}

/// Position of the first newline in `s`, or `s.len()` when there is none.
pub open spec fn newline_pos(s: Seq<char>) -> int
    decreases s.len(),
{
    if s.len() == 0 {
        0
    } else if s[0] == '\n' {
        0
    } else {
        1 + newline_pos(s.skip(1))
    }
}

proof fn lemma_newline_pos_bounds(s: Seq<char>)
    ensures
        0 <= newline_pos(s) <= s.len(),
    decreases s.len(),
{
    if s.len() != 0 && s[0] != '\n' {
        lemma_newline_pos_bounds(s.skip(1));
    }
}

/// `newline_pos` is the unique `j` with no newline before it and (unless it
/// is the length) a newline at it.
proof fn lemma_newline_pos_is_first(s: Seq<char>, j: int)
    requires
        0 <= j <= s.len(),
        forall|k: int| 0 <= k < j ==> s[k] != '\n',
        j == s.len() || s[j] == '\n',
    ensures
        newline_pos(s) == j,
    decreases s.len(),
{
    if s.len() == 0 {
    } else if s[0] == '\n' {
        assert(j == 0);
    } else {
        assert(j >= 1);
        lemma_newline_pos_is_first(s.skip(1), j - 1);
    }
}

/// A line with a trailing carriage return removed.
pub open spec fn chomp_cr(l: Seq<char>) -> Seq<char> {
    if l.len() > 0 && l.last() == '\r' {
        l.drop_last()
    } else {
        l
    }
}

/// The lines of `s`: split at `'\n'`, with a trailing `'\r'` removed from
/// each line and no final empty segment (as Rust's `str::lines` behaves).
pub open spec fn lines_of(s: Seq<char>) -> Seq<Seq<char>>
    decreases s.len() via lines_of_decreases
{
    if s.len() == 0 {
        Seq::empty()
    } else {
        let i = newline_pos(s);
        if i == s.len() {
            seq![chomp_cr(s)]
        } else {
            seq![chomp_cr(s.take(i))] + lines_of(s.skip(i + 1))
        }
    }
}

#[via_fn]
proof fn lines_of_decreases(s: Seq<char>) {
    lemma_newline_pos_bounds(s);
}

/// The segment `[from, to)` of `s` with a trailing `'\r'` removed, owned.
fn chomp_line(s: &str, from: usize, to: usize) -> (r: String)
    requires
        from <= to <= s@.len(),
    ensures
        r@ == chomp_cr(s@.subrange(from as int, to as int)),
{
    let end = if to > from && s.get_char(to - 1) == '\r' {
        to - 1
    } else {
        to
    };
    let sub = s.substring_char(from, end);
    proof {
        let seg = s@.subrange(from as int, to as int);
        if to > from && s@[to - 1] == '\r' {
            assert(seg.last() == s@[to - 1]);
            assert(s@.subrange(from as int, end as int) =~= seg.drop_last());
        } else {
            if to > from {
                assert(seg.last() == s@[to - 1]);
            }
            assert(s@.subrange(from as int, end as int) =~= seg);
        }
    }
    sub.to_owned()
}

/// Split `s` into its lines.
pub fn split_lines(s: &str) -> (r: Vec<String>)
    ensures
        r.deep_view() == lines_of(s@),
{
    let n = s.unicode_len();
    let mut out: Vec<String> = Vec::new();
    let mut start: usize = 0;
    let mut i: usize = 0;
    proof {
        assert(s@.skip(0) =~= s@);
        assert(out.deep_view() + lines_of(s@) =~= lines_of(s@));
    }
    while i < n
        invariant
            n == s@.len(),
            start <= i <= n,
            forall|k: int| start <= k < i ==> s@[k] != '\n',
            out.deep_view() + lines_of(s@.skip(start as int)) == lines_of(s@),
        decreases n - i,
    {
        if s.get_char(i) == '\n' {
            let line = chomp_line(s, start, i);
            let ghost prev = out.deep_view();
            out.push(line);
            proof {
                let tail = s@.skip(start as int);
                assert forall|k: int| 0 <= k < i - start implies tail[k] != '\n' by {
                    assert(tail[k] == s@[start as int + k]);
                }
                assert(tail[i - start] == s@[i as int]);
                lemma_newline_pos_is_first(tail, i - start);
                assert(tail.take(i - start) =~= s@.subrange(start as int, i as int));
                assert(tail.skip(i - start + 1) =~= s@.skip(i as int + 1));
                assert(lines_of(tail) == seq![chomp_cr(s@.subrange(start as int, i as int))]
                    + lines_of(s@.skip(i as int + 1)));
                assert(out.deep_view() =~= prev.push(line@));
                assert(out.deep_view() + lines_of(s@.skip(i as int + 1)) =~= prev + lines_of(
                    tail,
                ));
            }
            start = i + 1;
        }
        i += 1;
    }
    if start < n {
        let line = chomp_line(s, start, n);
        let ghost prev = out.deep_view();
        out.push(line);
        proof {
            let tail = s@.skip(start as int);
            assert forall|k: int| 0 <= k < n - start implies tail[k] != '\n' by {
                assert(tail[k] == s@[start as int + k]);
            }
            lemma_newline_pos_is_first(tail, n - start);
            assert(tail.take(n - start) =~= s@.subrange(start as int, n as int));
            assert(tail =~= s@.subrange(start as int, n as int));
            assert(lines_of(tail) == seq![chomp_cr(tail)]);
            assert(out.deep_view() =~= prev.push(line@));
            assert(out.deep_view() =~= prev + lines_of(tail));
        }
    } else {
        proof {
            assert(s@.skip(start as int) =~= Seq::<char>::empty());
            assert(out.deep_view() + lines_of(s@.skip(start as int)) =~= out.deep_view());
        }
    }
    out
}

/// An ASCII whitespace character, as the trimming of command output treats it.
pub open spec fn is_wsp(c: char) -> bool {
    c == ' ' || c == '\t' || c == '\n' || c == '\r'
}

/// `s` without leading whitespace.
pub open spec fn trim_start_spec(s: Seq<char>) -> Seq<char>
    decreases s.len(),
{
    if s.len() > 0 && is_wsp(s[0]) {
        trim_start_spec(s.skip(1))
    } else {
        s
    }
}

/// `s` without trailing whitespace.
pub open spec fn trim_end_spec(s: Seq<char>) -> Seq<char>
    decreases s.len(),
{
    if s.len() > 0 && is_wsp(s.last()) {
        trim_end_spec(s.drop_last())
    } else {
        s
    }
}

/// `s` without leading and trailing whitespace.
pub open spec fn trim_spec(s: Seq<char>) -> Seq<char> {
    trim_end_spec(trim_start_spec(s))
}

proof fn lemma_trim_start_at(s: Seq<char>, lo: int)
    requires
        0 <= lo <= s.len(),
        forall|k: int| 0 <= k < lo ==> is_wsp(s[k]),
        lo == s.len() || !is_wsp(s[lo]),
    ensures
        trim_start_spec(s) == s.skip(lo),
    decreases s.len(),
{
    if s.len() > 0 && is_wsp(s[0]) {
        assert(lo >= 1);
        lemma_trim_start_at(s.skip(1), lo - 1);
        assert(s.skip(1).skip(lo - 1) =~= s.skip(lo));
    } else {
        assert(lo == 0);
        assert(s.skip(0) =~= s);
    }
}

proof fn lemma_trim_end_at(s: Seq<char>, hi: int)
    requires
        0 <= hi <= s.len(),
        forall|k: int| hi <= k < s.len() ==> is_wsp(s[k]),
        hi == 0 || !is_wsp(s[hi - 1]),
    ensures
        trim_end_spec(s) == s.take(hi),
    decreases s.len(),
{
    if s.len() > 0 && is_wsp(s.last()) {
        assert(hi < s.len());
        lemma_trim_end_at(s.drop_last(), hi);
        assert(s.drop_last().take(hi) =~= s.take(hi));
    } else {
        assert(hi == s.len());
        assert(s.take(hi) =~= s);
    }
}

/// `s` with ASCII whitespace trimmed from both ends, owned.
pub fn trim(s: &str) -> (r: String)
    ensures
        r@ == trim_spec(s@),
{
    let n = s.unicode_len();
    let mut lo: usize = 0;
    while lo < n && is_wsp_char(s.get_char(lo))
        invariant
            n == s@.len(),
            lo <= n,
            forall|k: int| 0 <= k < lo ==> is_wsp(s@[k]),
        decreases n - lo,
    {
        lo += 1;
    }
    let mut hi: usize = n;
    while hi > lo && is_wsp_char(s.get_char(hi - 1))
        invariant
            n == s@.len(),
            lo <= hi <= n,
            forall|k: int| 0 <= k < lo ==> is_wsp(s@[k]),
            lo == n || !is_wsp(s@[lo as int]),
            forall|k: int| hi <= k < n ==> is_wsp(s@[k]),
        decreases hi,
    {
        hi -= 1;
    }
    let sub = s.substring_char(lo, hi);
    proof {
        lemma_trim_start_at(s@, lo as int);
        let t = s@.skip(lo as int);
        assert forall|k: int| hi - lo <= k < t.len() implies is_wsp(t[k]) by {
            assert(t[k] == s@[lo as int + k]);
        }
        if hi > lo {
            assert(t[hi - lo - 1] == s@[hi - 1]);
        }
        lemma_trim_end_at(t, hi - lo);
        assert(t.take(hi - lo) =~= s@.subrange(lo as int, hi as int));
    }
    sub.to_owned()
}

/// Whether `c` is ASCII whitespace.
fn is_wsp_char(c: char) -> (r: bool)
    ensures
        r == is_wsp(c),
{
    c == ' ' || c == '\t' || c == '\n' || c == '\r'
}

} // verus!
