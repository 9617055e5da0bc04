//! Line splitting, whitespace trimming and prefix tests on character sequences.

use vstd::prelude::*;

verus! {

/// The characters with the Unicode `White_Space` property.
pub open spec fn is_white(c: char) -> bool {
    ('\u{9}' <= c && c <= '\u{d}') || c == ' ' || c == '\u{85}' || c == '\u{a0}'
        || c == '\u{1680}' || ('\u{2000}' <= c && c <= '\u{200a}') || c == '\u{2028}'
        || c == '\u{2029}' || c == '\u{202f}' || c == '\u{205f}' || c == '\u{3000}'
}

/// The pieces of `s` between line feeds, in order. A text ending in a line feed
/// has an empty last piece.
pub open spec fn lines_of(s: Seq<char>) -> Seq<Seq<char>>
    decreases s.len(),
{
    if s.len() == 0 {
        seq![Seq::empty()]
    } else {
        let init = lines_of(s.drop_last());
        if s.last() == '\n' {
            init.push(Seq::empty())
        } else {
            init.update(init.len() - 1, init.last().push(s.last()))
        }
    }
}

/// `s` without its leading whitespace.
pub open spec fn trim_start(s: Seq<char>) -> Seq<char>
    decreases s.len(),
{
    if s.len() > 0 && is_white(s[0]) {
        trim_start(s.drop_first())
    } else {
        s
    }
}

/// `s` without its trailing whitespace.
pub open spec fn trim_end(s: Seq<char>) -> Seq<char>
    decreases s.len(),
{
    if s.len() > 0 && is_white(s.last()) {
        trim_end(s.drop_last())
    } else {
        s
    }
}

/// `s` without leading and trailing whitespace.
pub open spec fn trimmed(s: Seq<char>) -> Seq<char> {
    trim_end(trim_start(s))
}

/// `s` begins with `prefix`.
pub open spec fn starts_with(s: Seq<char>, prefix: Seq<char>) -> bool {
    prefix.len() <= s.len() && s.take(prefix.len() as int) == prefix
}

/// Every text has at least one line.
pub proof fn lemma_lines_nonempty(s: Seq<char>)
    ensures
        lines_of(s).len() >= 1,
    decreases s.len(),
{
    if s.len() > 0 {
        lemma_lines_nonempty(s.drop_last());
    }
}

/// No line holds a line feed.
pub proof fn lemma_lines_unbroken(s: Seq<char>)
    ensures
        forall|k: int| 0 <= k < lines_of(s).len() ==> !(#[trigger] lines_of(s)[k]).contains('\n'),
    decreases s.len(),
{
    if s.len() > 0 {
        lemma_lines_unbroken(s.drop_last());
        lemma_lines_nonempty(s.drop_last());
        let init = lines_of(s.drop_last());
        if s.last() != '\n' {
            let l = init.last().push(s.last());
            assert forall|i: int| 0 <= i < l.len() implies l[i] != '\n' by {
                if i < init.last().len() {
                    assert(init.last()[i] == l[i]);
                }
            }
            assert(lines_of(s) == init.update(init.len() - 1, l));
        } else {
            assert(!Seq::<char>::empty().contains('\n'));
        }
    }
}

/// Trimming keeps only characters of `s`, and what it keeps does not end in
/// whitespace.
pub proof fn lemma_trimmed_shape(s: Seq<char>, c: char)
    ensures
        !s.contains(c) ==> !trimmed(s).contains(c),
        trimmed(s).len() > 0 ==> !is_white(trimmed(s).last()),
{
    lemma_trim_start_keeps(s, c);
    lemma_trim_end_keeps(trim_start(s), c);
}

proof fn lemma_trim_start_keeps(s: Seq<char>, c: char)
    ensures
        !s.contains(c) ==> !trim_start(s).contains(c),
    decreases s.len(),
{
    if s.len() > 0 && is_white(s[0]) {
        if !s.contains(c) {
            assert forall|i: int| 0 <= i < s.drop_first().len() implies s.drop_first()[i] != c by {
                assert(s[i + 1] == s.drop_first()[i]);
            }
        }
        lemma_trim_start_keeps(s.drop_first(), c);
    }
}

proof fn lemma_trim_end_keeps(s: Seq<char>, c: char)
    ensures
        !s.contains(c) ==> !trim_end(s).contains(c),
        trim_end(s).len() > 0 ==> !is_white(trim_end(s).last()),
    decreases s.len(),
{
    if s.len() > 0 && is_white(s.last()) {
        if !s.contains(c) {
            assert forall|i: int| 0 <= i < s.drop_last().len() implies s.drop_last()[i] != c by {
                assert(s[i] == s.drop_last()[i]);
            }
        }
        lemma_trim_end_keeps(s.drop_last(), c);
    }
}

/// A text without line feeds is one line.
pub proof fn lemma_single_line(s: Seq<char>)
    requires
        !s.contains('\n'),
    ensures
        lines_of(s) == seq![s],
    decreases s.len(),
{
    if s.len() > 0 {
        assert(s.drop_last().contains('\n') ==> s.contains('\n'));
        lemma_single_line(s.drop_last());
        assert(s.drop_last().push(s.last()) =~= s);
        assert(lines_of(s) =~= seq![s]);
    } else {
        assert(s =~= Seq::<char>::empty());
    }
}

/// The lines of two texts joined by a line feed are the lines of the first
/// followed by those of the second.
pub proof fn lemma_lines_join(a: Seq<char>, b: Seq<char>)
    ensures
        lines_of(a + seq!['\n'] + b) == lines_of(a) + lines_of(b),
    decreases b.len(),
{
    let s = a + seq!['\n'] + b;
    if b.len() == 0 {
        assert(s.drop_last() =~= a);
        assert(lines_of(s) =~= lines_of(a) + lines_of(b));
    } else {
        lemma_lines_join(a, b.drop_last());
        lemma_lines_nonempty(b.drop_last());
        assert(s.drop_last() =~= a + seq!['\n'] + b.drop_last());
        assert(lines_of(s) =~= lines_of(a) + lines_of(b));
    }
}

/// Whether `c` is a whitespace character.
pub fn is_whitespace(c: char) -> (r: bool)
    ensures
        r == is_white(c),
{
    ('\u{9}' <= c && c <= '\u{d}') || c == ' ' || c == '\u{85}' || c == '\u{a0}'
        || c == '\u{1680}' || ('\u{2000}' <= c && c <= '\u{200a}') || c == '\u{2028}'
        || c == '\u{2029}' || c == '\u{202f}' || c == '\u{205f}' || c == '\u{3000}'
}

/// The bounds `(lo, hi)` of the trimmed part of `line`.
pub fn trim_bounds(line: &Vec<char>) -> (r: (usize, usize))
    ensures
        r.0 <= r.1 <= line@.len(),
        line@.subrange(r.0 as int, r.1 as int) == trimmed(line@),
{
    let n = line.len();
    let mut lo: usize = 0;
    assert(line@.subrange(0, n as int) =~= line@);
    while lo < n && is_whitespace(line[lo])
        invariant
            n == line@.len(),
            lo <= n,
            trim_start(line@) == trim_start(line@.subrange(lo as int, n as int)),
        decreases n - lo,
    {
        assert(line@.subrange(lo as int, n as int).drop_first() =~= line@.subrange(
            lo + 1,
            n as int,
        ));
        lo = lo + 1;
    }
    let mut hi: usize = n;
    while hi > lo && is_whitespace(line[hi - 1])
        invariant
            n == line@.len(),
            lo <= hi <= n,
            trim_start(line@) == line@.subrange(lo as int, n as int),
            trimmed(line@) == trim_end(line@.subrange(lo as int, hi as int)),
        decreases hi - lo,
    {
        assert(line@.subrange(lo as int, hi as int).drop_last() =~= line@.subrange(
            lo as int,
            hi - 1,
        ));
        hi = hi - 1;
    }
    (lo, hi)
}

/// Whether `line[lo..hi]` begins with `prefix`.
pub fn has_prefix(line: &Vec<char>, lo: usize, hi: usize, prefix: &str) -> (r: bool)
    requires
        lo <= hi <= line@.len(),
    ensures
        r == starts_with(line@.subrange(lo as int, hi as int), prefix@),
{
    let k = prefix.unicode_len();
    if k > hi - lo {
        return false;
    }
    let mut i: usize = 0;
    while i < k
        invariant
            k == prefix@.len(),
            k <= hi - lo,
            lo <= hi <= line@.len(),
            i <= k,
            forall|j: int| 0 <= j < i ==> line@[lo + j] == prefix@[j],
        decreases k - i,
    {
        if line[lo + i] != prefix.get_char(i) {
            assert(line@.subrange(lo as int, hi as int).take(k as int)[i as int] != prefix@[i as int]);
            return false;
        }
        i = i + 1;
    }
    assert(line@.subrange(lo as int, hi as int).take(k as int) =~= prefix@);
    true
}

/// Whether `line[lo..hi]` holds the character `c`.
pub fn has_char(line: &Vec<char>, lo: usize, hi: usize, c: char) -> (r: bool)
    requires
        lo <= hi <= line@.len(),
    ensures
        r == line@.subrange(lo as int, hi as int).contains(c),
{
    let mut i: usize = lo;
    while i < hi
        invariant
            lo <= i <= hi <= line@.len(),
            forall|j: int| lo <= j < i ==> line@[j] != c,
        decreases hi - i,
    {
        if line[i] == c {
            assert(line@.subrange(lo as int, hi as int)[i - lo] == c);
            return true;
        }
        i = i + 1;
    }
    false
}

/// Relies on `String: FromIterator<char>`: collecting characters gives the string
/// of exactly those characters, in order.
#[verifier::external_body]
pub(crate) fn string_of(line: &Vec<char>, lo: usize, hi: usize) -> (r: String)
    requires
        lo <= hi <= line@.len(),
    ensures
        r@ == line@.subrange(lo as int, hi as int),
{
    line[lo..hi].iter().collect()
}

} // verus!
