//! Character-level text primitives used by the classifiers and parsers.
use vstd::prelude::*;
use vstd::std_specs::iter::IteratorSpec;

verus! {

broadcast use vstd::string::axiom_spec_iter, vstd::string::next_postcondition;

/// `pat` occurs in `s` starting at position `i`.
pub open spec fn occurs_at(s: Seq<char>, pat: Seq<char>, i: int) -> bool {
    0 <= i && i + pat.len() <= s.len() && s.subrange(i, i + pat.len()) =~= pat
}

/// `pat` occurs somewhere in `s`.
pub open spec fn occurs(s: Seq<char>, pat: Seq<char>) -> bool {
    exists|i: int| #[trigger] occurs_at(s, pat, i)
}

/// `s` begins with `pat`.
pub open spec fn begins(s: Seq<char>, pat: Seq<char>) -> bool {
    occurs_at(s, pat, 0)
}

/// The characters of a string slice, in order.
pub fn chars_of(s: &str) -> (r: Vec<char>)
    ensures
        r@ == s@,
{
    let mut out: Vec<char> = Vec::new();
    for c in it: s.chars()
        invariant
            out@ == it.history(),
            it.seq() == s@,
    {
        out.push(c);
    }
    out
}

/// Builds a `String` holding exactly the given characters.
/// Relies on `String: FromIterator<char>`: the characters are appended in order.
#[verifier::external_body]
pub(crate) fn string_of(v: &Vec<char>) -> (r: String)
    ensures
        r@ == v@,
{
    v.iter().collect()
}

/// An owned copy of a string slice.
pub fn owned(s: &str) -> (r: String)
    ensures
        r@ == s@,
{
    s.to_owned()
}

/// Whether `pat` occurs in `s` at position `i`, compared character by character.
fn matches_at(s: &Vec<char>, pat: &Vec<char>, i: usize) -> (r: bool)
    ensures
        r == occurs_at(s@, pat@, i as int),
{
    if pat.len() > s.len() || i > s.len() - pat.len() {
        return false;
    }
    let mut k: usize = 0;
    while k < pat.len()
        invariant
            k <= pat.len(),
            i + pat.len() <= s.len(),
            forall|j: int| 0 <= j < k ==> s@[i + j] == pat@[j],
        decreases pat.len() - k,
    {
        if s[i + k] != pat[k] {
            assert(s@.subrange(i as int, i + pat.len())[k as int] != pat@[k as int]);
            return false;
        }
        k = k + 1;
    }
    assert(s@.subrange(i as int, i + pat.len()) =~= pat@);
    true
}

/// Whether `pat` occurs anywhere in `s`.
pub fn contains_seq(s: &Vec<char>, pat: &Vec<char>) -> (r: bool)
    ensures
        r == occurs(s@, pat@),
{
    if pat.len() > s.len() {
        return false;
    }
    let last = s.len() - pat.len();
    let mut i: usize = 0;
    while i <= last
        invariant
            last == s.len() - pat.len(),
            forall|j: int| 0 <= j < i ==> !occurs_at(s@, pat@, j),
        decreases last + 1 - i,
    {
        if matches_at(s, pat, i) {
            return true;
        }
        if i == last {
            assert forall|j: int| !#[trigger] occurs_at(s@, pat@, j) by {
                if 0 <= j < i {
                }
            }
            return false;
        }
        i = i + 1;
    }
    false
}

/// Whether the text `pat` occurs anywhere in `s`.
pub fn contains(s: &Vec<char>, pat: &str) -> (r: bool)
    ensures
        r == occurs(s@, pat@),
{
    let p = chars_of(pat);
    contains_seq(s, &p)
}

/// Whether `s` begins with the text `pat`.
pub fn starts_with(s: &Vec<char>, pat: &str) -> (r: bool)
    ensures
        r == begins(s@, pat@),
{
    let p = chars_of(pat);
    matches_at(s, &p, 0)
}

/// Whether `s` holds the same characters as the text `t`.
pub fn equals(s: &Vec<char>, t: &str) -> (r: bool)
    ensures
        r == (s@ == t@),
{
    let p = chars_of(t);
    if p.len() != s.len() {
        return false;
    }
    let b = matches_at(s, &p, 0);
    proof {
        if b {
            assert(s@ =~= s@.subrange(0, p@.len() as int));
        }
    }
    b
}

/// White space as Unicode defines it (the set that `char::is_whitespace` tests).
pub open spec fn is_ws(c: char) -> bool {
    c == ' ' || ('\t' <= c && c <= '\r') || c == '\u{85}' || c == '\u{a0}' || c == '\u{1680}'
        || ('\u{2000}' <= c && c <= '\u{200a}') || c == '\u{2028}' || c == '\u{2029}'
        || c == '\u{202f}' || c == '\u{205f}' || c == '\u{3000}'
}

fn is_ws_exec(c: char) -> (r: bool)
    ensures
        r == is_ws(c),
{
    c == ' ' || ('\t' <= c && c <= '\r') || c == '\u{85}' || c == '\u{a0}' || c == '\u{1680}'
        || ('\u{2000}' <= c && c <= '\u{200a}') || c == '\u{2028}' || c == '\u{2029}'
        || c == '\u{202f}' || c == '\u{205f}' || c == '\u{3000}'
}

/// The number of white-space characters that `s` begins with.
pub open spec fn lead_ws(s: Seq<char>) -> nat
    decreases s.len(),
{
    if s.len() > 0 && is_ws(s[0]) {
        1 + lead_ws(s.drop_first())
    } else {
        0
    }
}

/// The number of white-space characters that `s` ends with.
pub open spec fn trail_ws(s: Seq<char>) -> nat
    decreases s.len(),
{
    if s.len() > 0 && is_ws(s.last()) {
        1 + trail_ws(s.drop_last())
    } else {
        0
    }
}

/// `s` without leading white space.
pub open spec fn trim_start(s: Seq<char>) -> Seq<char> {
    s.subrange(lead_ws(s) as int, s.len() as int)
}

/// `s` without leading or trailing white space.
pub open spec fn trim(s: Seq<char>) -> Seq<char> {
    let t = trim_start(s);
    t.subrange(0, t.len() - trail_ws(t))
}

proof fn lemma_lead_ws_is(s: Seq<char>, m: int)
    requires
        0 <= m <= s.len(),
        forall|j: int| 0 <= j < m ==> is_ws(s[j]),
        m == s.len() || !is_ws(s[m]),
    ensures
        lead_ws(s) == m,
    decreases m,
{
    if m > 0 {
        lemma_lead_ws_is(s.drop_first(), m - 1);
    }
}

proof fn lemma_trail_ws_is(s: Seq<char>, m: int)
    requires
        0 <= m <= s.len(),
        forall|j: int| s.len() - m <= j < s.len() ==> is_ws(s[j]),
        m == s.len() || !is_ws(s[s.len() - 1 - m]),
    ensures
        trail_ws(s) == m,
    decreases m,
{
    if m > 0 {
        lemma_trail_ws_is(s.drop_last(), m - 1);
    }
}

/// Copies `s[lo..hi]`.
pub fn slice_of(s: &Vec<char>, lo: usize, hi: usize) -> (r: Vec<char>)
    requires
        lo <= hi <= s.len(),
    ensures
        r@ == s@.subrange(lo as int, hi as int),
{
    let mut out: Vec<char> = Vec::new();
    let mut i = lo;
    while i < hi
        invariant
            lo <= i <= hi <= s.len(),
            out@ == s@.subrange(lo as int, i as int),
        decreases hi - i,
    {
        out.push(s[i]);
        i = i + 1;
        assert(out@ =~= s@.subrange(lo as int, i as int));
    }
    out
}

/// `s` with leading and trailing white space removed.
pub fn trimmed(s: &Vec<char>) -> (r: Vec<char>)
    ensures
        r@ == trim(s@),
{
    let mut a: usize = 0;
    while a < s.len() && is_ws_exec(s[a])
        invariant
            a <= s.len(),
            forall|j: int| 0 <= j < a ==> is_ws(s@[j]),
        decreases s.len() - a,
    {
        a = a + 1;
    }
    proof {
        lemma_lead_ws_is(s@, a as int);
    }
    let ghost t = trim_start(s@);
    let mut b: usize = s.len();
    while b > a && is_ws_exec(s[b - 1])
        invariant
            a <= b <= s.len(),
            t == s@.subrange(a as int, s.len() as int),
            forall|j: int| b <= j < s.len() ==> is_ws(s@[j]),
        decreases b,
    {
        b = b - 1;
    }
    proof {
        lemma_trail_ws_is(t, (s.len() - b) as int);
    }
    let r = slice_of(s, a, b);
    assert(r@ =~= trim(s@));
    r
}

/// The index of the first `sep` in `s`, or its length where there is none.
pub open spec fn first_sep(s: Seq<char>, sep: char) -> nat
    decreases s.len(),
{
    if s.len() == 0 || s[0] == sep {
        0
    } else {
        1 + first_sep(s.drop_first(), sep)
    }
}

/// The parts of `s` between occurrences of `sep`; there is always at least one.
pub open spec fn split_on(s: Seq<char>, sep: char) -> Seq<Seq<char>>
    decreases s.len(),
{
    let k = first_sep(s, sep);
    if k >= s.len() {
        seq![s]
    } else {
        seq![s.subrange(0, k as int)] + split_on(s.subrange(k as int + 1, s.len() as int), sep)
    }
}

/// The parts of `s` between line breaks.
pub open spec fn pieces(s: Seq<char>) -> Seq<Seq<char>> {
    split_on(s, '\n')
}

/// A line without the carriage return that may end it.
pub open spec fn strip_cr(l: Seq<char>) -> Seq<char> {
    if l.len() > 0 && l.last() == '\r' {
        l.drop_last()
    } else {
        l
    }
}

/// The lines of `s`: split at each line break, a final empty part dropped, and one carriage
/// return removed from the end of each line. This is `str::lines`, except that a carriage
/// return that ends the last line without a line break is removed as well.
pub open spec fn lines(s: Seq<char>) -> Seq<Seq<char>> {
    let p = pieces(s);
    let q = if p.last().len() == 0 {
        p.drop_last()
    } else {
        p
    };
    q.map_values(|l: Seq<char>| strip_cr(l))
}

pub proof fn lemma_first_sep_bound(s: Seq<char>, sep: char)
    ensures
        first_sep(s, sep) <= s.len(),
    decreases s.len(),
{
    if s.len() > 0 && s[0] != sep {
        lemma_first_sep_bound(s.drop_first(), sep);
    }
}

pub proof fn lemma_first_sep_is(s: Seq<char>, sep: char, m: int)
    requires
        0 <= m <= s.len(),
        forall|j: int| 0 <= j < m ==> s[j] != sep,
        m == s.len() || s[m] == sep,
    ensures
        first_sep(s, sep) == m,
    decreases m,
{
    if m > 0 {
        lemma_first_sep_is(s.drop_first(), sep, m - 1);
    }
}

proof fn lemma_split_nonempty(s: Seq<char>, sep: char)
    ensures
        split_on(s, sep).len() >= 1,
    decreases s.len(),
{
    lemma_first_sep_bound(s, sep);
    let k = first_sep(s, sep);
    if k < s.len() {
        lemma_split_nonempty(s.subrange(k as int + 1, s.len() as int), sep);
    }
}

/// The views of a vector of character vectors.
pub open spec fn views(v: Seq<Vec<char>>) -> Seq<Seq<char>> {
    v.map_values(|x: Vec<char>| x@)
}

/// The parts of `s` between occurrences of `sep`.
pub fn split_at_char(s: &Vec<char>, sep: char) -> (r: Vec<Vec<char>>)
    ensures
        views(r@) == split_on(s@, sep),
{
    let mut out: Vec<Vec<char>> = Vec::new();
    let mut start: usize = 0;
    assert(s@.subrange(0, s.len() as int) =~= s@);
    assert(views(out@) =~= Seq::<Seq<char>>::empty());
    loop
        invariant
            start <= s.len(),
            split_on(s@, sep) == views(out@) + split_on(s@.subrange(start as int, s.len() as int), sep),
        decreases s.len() + 1 - start,
    {
        let ghost rest = s@.subrange(start as int, s.len() as int);
        let mut j = start;
        while j < s.len() && s[j] != sep
            invariant
                start <= j <= s.len(),
                forall|k: int| start <= k < j ==> s@[k] != sep,
            decreases s.len() - j,
        {
            j = j + 1;
        }
        proof {
            lemma_first_sep_is(rest, sep, j - start);
        }
        let piece = slice_of(s, start, j);
        let ghost old_out = out@;
        out.push(piece);
        assert(views(out@) =~= views(old_out).push(piece@));
        if j == s.len() {
            assert(rest.subrange(0, rest.len() as int) =~= rest);
            assert(views(out@) =~= views(old_out) + split_on(rest, sep));
            return out;
        }
        assert(rest.subrange((j - start) + 1, rest.len() as int) =~= s@.subrange(j + 1, s.len() as int));
        assert(rest.subrange(0, (j - start) as int) =~= piece@);
        start = j + 1;
        assert(views(old_out) + split_on(rest, sep) =~= views(out@) + split_on(s@.subrange(start as int, s.len() as int), sep));
    }
}

/// The lines of `s`, as `lines` describes them.
pub fn split_lines(s: &Vec<char>) -> (r: Vec<Vec<char>>)
    ensures
        views(r@) == lines(s@),
{
    let mut p = split_at_char(s, '\n');
    proof {
        lemma_split_nonempty(s@, '\n');
    }
    let ghost q0 = views(p@);
    if p[p.len() - 1].len() == 0 {
        p.pop();
        assert(views(p@) =~= q0.drop_last());
    }
    let ghost q = views(p@);
    let mut out: Vec<Vec<char>> = Vec::new();
    let mut i: usize = 0;
    while i < p.len()
        invariant
            i <= p.len(),
            q == views(p@),
            views(out@) =~= q.subrange(0, i as int).map_values(|l: Seq<char>| strip_cr(l)),
        decreases p.len() - i,
    {
        let l = &p[i];
        let line = if l.len() > 0 && l[l.len() - 1] == '\r' {
            slice_of(l, 0, l.len() - 1)
        } else {
            slice_of(l, 0, l.len())
        };
        proof {
            assert(l@.subrange(0, l@.len() as int) =~= l@);
            if l@.len() > 0 {
                assert(l@.subrange(0, l@.len() - 1) =~= l@.drop_last());
            }
            assert(line@ == strip_cr(q[i as int]));
        }
        let ghost before = out@;
        out.push(line);
        i = i + 1;
        assert(views(out@) =~= views(before).push(line@));
        assert(views(out@) =~= q.subrange(0, i as int).map_values(|l: Seq<char>| strip_cr(l)));
    }
    assert(q.subrange(0, q.len() as int) =~= q);
    out
}


/// The lines of `ls`, each followed by a line break but the last.
pub open spec fn join_lines(ls: Seq<Seq<char>>) -> Seq<char>
    decreases ls.len(),
{
    if ls.len() == 0 {
        Seq::empty()
    } else if ls.len() == 1 {
        ls[0]
    } else {
        join_lines(ls.drop_last()) + seq!['\n'] + ls.last()
    }
}

/// Joins `ls[lo..hi]` with line breaks.
pub fn join_range(ls: &Vec<Vec<char>>, lo: usize, hi: usize) -> (r: Vec<char>)
    requires
        lo <= hi <= ls.len(),
    ensures
        r@ == join_lines(views(ls@).subrange(lo as int, hi as int)),
{
    let mut out: Vec<char> = Vec::new();
    let mut k = lo;
    assert(views(ls@).subrange(lo as int, lo as int) =~= Seq::<Seq<char>>::empty());
    while k < hi
        invariant
            lo <= k <= hi <= ls.len(),
            out@ == join_lines(views(ls@).subrange(lo as int, k as int)),
        decreases hi - k,
    {
        let ghost sub = views(ls@).subrange(lo as int, k as int + 1);
        assert(sub.drop_last() =~= views(ls@).subrange(lo as int, k as int));
        assert(sub.last() == ls@[k as int]@);
        if k > lo {
            out.push('\n');
        } else {
            assert(sub =~= seq![ls@[k as int]@]);
        }
        let line = &ls[k];
        let mut m: usize = 0;
        let ghost base = out@;
        while m < line.len()
            invariant
                m <= line.len(),
                out@ == base + line@.subrange(0, m as int),
            decreases line.len() - m,
        {
            out.push(line[m]);
            m = m + 1;
            assert(out@ =~= base + line@.subrange(0, m as int));
        }
        assert(line@.subrange(0, line@.len() as int) =~= line@);
        k = k + 1;
        assert(out@ =~= join_lines(views(ls@).subrange(lo as int, k as int)));
    }
    out
}

/// The decimal digits of `n`.
pub open spec fn decimal(n: nat) -> Seq<char>
    decreases n,
{
    if n < 10 {
        seq![digit(n)]
    } else {
        decimal(n / 10).push(digit(n % 10))
    }
}

/// The digit character for `d` below ten.
pub open spec fn digit(d: nat) -> char {
    if d == 0 { '0' } else if d == 1 { '1' } else if d == 2 { '2' } else if d == 3 { '3' } else if d == 4 {
        '4'
    } else if d == 5 { '5' } else if d == 6 { '6' } else if d == 7 { '7' } else if d == 8 { '8' } else { '9' }
}

fn digit_of(d: u64) -> (r: char)
    requires
        d < 10,
    ensures
        r == digit(d as nat),
{
    if d == 0 { '0' } else if d == 1 { '1' } else if d == 2 { '2' } else if d == 3 { '3' } else if d == 4 {
        '4'
    } else if d == 5 { '5' } else if d == 6 { '6' } else if d == 7 { '7' } else if d == 8 { '8' } else { '9' }
}

/// Appends the decimal digits of `n` to `out`.
pub fn push_decimal(out: &mut Vec<char>, n: u64)
    ensures
        final(out)@ == old(out)@ + decimal(n as nat),
    decreases n,
{
    if n >= 10 {
        push_decimal(out, n / 10);
    }
    out.push(digit_of(n % 10));
    assert(final(out)@ =~= old(out)@ + decimal(n as nat));
}

/// Appends the characters of `t` to `out`.
pub fn push_str(out: &mut Vec<char>, t: &str)
    ensures
        final(out)@ == old(out)@ + t@,
{
    let c = chars_of(t);
    push_all(out, &c);
}

/// Appends the characters of `t` to `out`.
pub fn push_all(out: &mut Vec<char>, t: &Vec<char>)
    ensures
        final(out)@ == old(out)@ + t@,
{
    let mut i: usize = 0;
    let ghost base = out@;
    while i < t.len()
        invariant
            i <= t.len(),
            out@ == base + t@.subrange(0, i as int),
        decreases t.len() - i,
    {
        out.push(t[i]);
        i = i + 1;
        assert(out@ =~= base + t@.subrange(0, i as int));
    }
    assert(t@.subrange(0, t@.len() as int) =~= t@);
}


/// The index of the last `c` in `s`, or -1 where there is none.
pub open spec fn last_index_of(s: Seq<char>, c: char) -> int
    decreases s.len(),
{
    if s.len() == 0 {
        -1
    } else if s.last() == c {
        s.len() - 1
    } else {
        last_index_of(s.drop_last(), c)
    }
}

proof fn lemma_last_index_is(s: Seq<char>, c: char, m: int)
    requires
        -1 <= m < s.len(),
        m == -1 || s[m] == c,
        forall|j: int| m < j < s.len() ==> s[j] != c,
    ensures
        last_index_of(s, c) == m,
    decreases s.len(),
{
    if s.len() > 0 && s.last() != c {
        lemma_last_index_is(s.drop_last(), c, m);
    }
}

/// The position of the last `c` in `s`, or -1.
pub fn find_last(s: &Vec<char>, c: char) -> (r: i64)
    requires
        s.len() < 0x7fff_ffff_ffff_ffff,
    ensures
        r == last_index_of(s@, c),
{
    let mut i: usize = s.len();
    while i > 0 && s[i - 1] != c
        invariant
            i <= s.len(),
            forall|j: int| i <= j < s.len() ==> s@[j] != c,
        decreases i,
    {
        i = i - 1;
    }
    proof {
        lemma_last_index_is(s@, c, i - 1);
    }
    i as i64 - 1
}

/// The name of a document without its directories and its extension: what follows the last
/// `/`, cut before its last `.` unless that dot begins the name.
pub open spec fn document_stem(path: Seq<char>) -> Seq<char> {
    let name = path.subrange(last_index_of(path, '/') + 1, path.len() as int);
    let d = last_index_of(name, '.');
    if d > 0 {
        name.subrange(0, d)
    } else {
        name
    }
}

proof fn lemma_last_index_bound(s: Seq<char>, c: char)
    ensures
        -1 <= last_index_of(s, c) < s.len(),
    decreases s.len(),
{
    if s.len() > 0 && s.last() != c {
        lemma_last_index_bound(s.drop_last(), c);
    }
}

/// The stem of a document path, by `document_stem`.
pub fn stem_of(path: &Vec<char>) -> (r: Vec<char>)
    requires
        path.len() < 0x7fff_ffff_ffff_ffff,
    ensures
        r@ == document_stem(path@),
{
    let slash = find_last(path, '/');
    proof {
        lemma_last_index_bound(path@, '/');
    }
    let name = slice_of(path, (slash + 1) as usize, path.len());
    let d = find_last(&name, '.');
    proof {
        lemma_last_index_bound(name@, '.');
    }
    if d > 0 {
        slice_of(&name, 0, d as usize)
    } else {
        name
    }
}


/// The number of non-overlapping occurrences of `pat` in `s`, found from the left
/// (as `str::matches` finds them).
pub open spec fn count_matches(s: Seq<char>, pat: Seq<char>) -> nat
    decreases s.len(),
{
    if pat.len() == 0 || s.len() < pat.len() {
        0
    } else if occurs_at(s, pat, 0) {
        1 + count_matches(s.subrange(pat.len() as int, s.len() as int), pat)
    } else {
        count_matches(s.drop_first(), pat)
    }
}

/// Counts the non-overlapping occurrences of the text `pat` in `s`.
pub fn count_of(s: &Vec<char>, pat: &str) -> (r: usize)
    ensures
        r == count_matches(s@, pat@),
{
    let p = chars_of(pat);
    if p.len() == 0 {
        return 0;
    }
    let mut i: usize = 0;
    let mut n: usize = 0;
    assert(s@.subrange(0, s.len() as int) =~= s@);
    while p.len() <= s.len() - i
        invariant
            i <= s.len(),
            p@ == pat@,
            p@.len() > 0,
            n <= i,
            n + count_matches(s@.subrange(i as int, s.len() as int), p@) == count_matches(s@, p@),
        decreases s.len() - i,
    {
        let ghost rest = s@.subrange(i as int, s.len() as int);
        let m = matches_at(s, &p, i);
        assert(occurs_at(s@, p@, i as int) == occurs_at(rest, p@, 0)) by {
            assert(s@.subrange(i as int, i + p@.len()) =~= rest.subrange(0, p@.len() as int));
        }
        if m {
            assert(rest.subrange(p@.len() as int, rest.len() as int) =~= s@.subrange(i + p@.len(), s.len() as int));
            n = n + 1;
            i = i + p.len();
        } else {
            assert(rest.drop_first() =~= s@.subrange(i + 1, s.len() as int));
            i = i + 1;
        }
    }
    n
}


/// The index of the first white-space character of `s`, or its length.
pub open spec fn first_ws(s: Seq<char>) -> nat
    decreases s.len(),
{
    if s.len() == 0 || is_ws(s[0]) {
        0
    } else {
        1 + first_ws(s.drop_first())
    }
}

proof fn lemma_first_ws_is(s: Seq<char>, m: int)
    requires
        0 <= m <= s.len(),
        forall|j: int| 0 <= j < m ==> !is_ws(s[j]),
        m == s.len() || is_ws(s[m]),
    ensures
        first_ws(s) == m,
    decreases m,
{
    if m > 0 {
        lemma_first_ws_is(s.drop_first(), m - 1);
    }
}

/// The first white-space-separated word of `s`, as `split_whitespace().next()` gives it.
pub open spec fn first_word(s: Seq<char>) -> Option<Seq<char>> {
    let t = trim_start(s);
    if t.len() == 0 {
        None
    } else {
        Some(t.subrange(0, first_ws(t) as int))
    }
}

/// The first word of `s`, by `first_word`.
pub fn first_word_of(s: &Vec<char>) -> (r: Option<Vec<char>>)
    ensures
        match r {
            Some(w) => first_word(s@) == Some(w@),
            None => first_word(s@) is None,
        },
{
    let mut a: usize = 0;
    while a < s.len() && is_ws_exec(s[a])
        invariant
            a <= s.len(),
            forall|j: int| 0 <= j < a ==> is_ws(s@[j]),
        decreases s.len() - a,
    {
        a = a + 1;
    }
    proof {
        lemma_lead_ws_is(s@, a as int);
    }
    if a == s.len() {
        return None;
    }
    let ghost t = s@.subrange(a as int, s.len() as int);
    let mut b = a;
    while b < s.len() && !is_ws_exec(s[b])
        invariant
            a <= b <= s.len(),
            forall|j: int| a <= j < b ==> !is_ws(s@[j]),
        decreases s.len() - b,
    {
        b = b + 1;
    }
    proof {
        lemma_first_ws_is(t, b - a);
        assert(t.subrange(0, b - a) =~= s@.subrange(a as int, b as int));
    }
    let w = slice_of(s, a, b);
    Some(w)
}

/// `s` without the `c` characters that end it.
pub open spec fn trim_end_char(s: Seq<char>, c: char) -> Seq<char>
    decreases s.len(),
{
    if s.len() > 0 && s.last() == c {
        trim_end_char(s.drop_last(), c)
    } else {
        s
    }
}

/// `s` without the `c` characters that end it.
pub fn trim_end_of(s: &Vec<char>, c: char) -> (r: Vec<char>)
    ensures
        r@ == trim_end_char(s@, c),
{
    let mut b: usize = s.len();
    assert(s@.subrange(0, s.len() as int) =~= s@);
    while b > 0 && s[b - 1] == c
        invariant
            b <= s.len(),
            trim_end_char(s@, c) == trim_end_char(s@.subrange(0, b as int), c),
        decreases b,
    {
        assert(s@.subrange(0, b as int).drop_last() =~= s@.subrange(0, b - 1));
        b = b - 1;
    }
    slice_of(s, 0, b)
}

/// The index where `pat` first occurs in `s`, or the length of `s`.
pub open spec fn first_occurrence(s: Seq<char>, pat: Seq<char>) -> int
    decreases s.len(),
{
    if s.len() < pat.len() {
        s.len() as int
    } else if occurs_at(s, pat, 0) {
        0
    } else if s.len() == 0 {
        0
    } else {
        1 + first_occurrence(s.drop_first(), pat)
    }
}

/// `s` up to the first occurrence of the text `pat`, or all of it.
pub fn before_first(s: &Vec<char>, pat: &str) -> (r: Vec<char>)
    ensures
        0 <= first_occurrence(s@, pat@) <= s@.len(),
        r@ == s@.subrange(0, first_occurrence(s@, pat@)),
{
    let p = chars_of(pat);
    let mut i: usize = 0;
    assert(s@.subrange(0, s.len() as int) =~= s@);
    while i < s.len() && p.len() <= s.len() - i && !matches_at(s, &p, i)
        invariant
            i <= s.len(),
            p@ == pat@,
            first_occurrence(s@, p@) == i + first_occurrence(s@.subrange(i as int, s.len() as int), p@),
        decreases s.len() - i,
    {
        let ghost rest = s@.subrange(i as int, s.len() as int);
        assert(s@.subrange(i as int, i + p@.len()) =~= rest.subrange(0, p@.len() as int));
        assert(rest.drop_first() =~= s@.subrange(i + 1, s.len() as int));
        i = i + 1;
    }
    let ghost rest = s@.subrange(i as int, s.len() as int);
    proof {
        if i < s.len() && p.len() <= s.len() - i {
            assert(s@.subrange(i as int, i + p@.len()) =~= rest.subrange(0, p@.len() as int));
        }
    }
    if p.len() > s.len() - i {
        assert(first_occurrence(rest, p@) == rest.len());
        return slice_of(s, 0, s.len());
    }
    slice_of(s, 0, i)
}

/// `s` with every `_` replaced by `-`.
pub open spec fn hyphenated(s: Seq<char>) -> Seq<char> {
    s.map_values(|c: char| if c == '_' { '-' } else { c })
}

/// `s` with every `_` replaced by `-`.
pub fn hyphenate(s: &Vec<char>) -> (r: Vec<char>)
    ensures
        r@ == hyphenated(s@),
{
    let mut out: Vec<char> = Vec::new();
    let mut i: usize = 0;
    while i < s.len()
        invariant
            i <= s.len(),
            out@ == hyphenated(s@.subrange(0, i as int)),
        decreases s.len() - i,
    {
        let c = s[i];
        out.push(if c == '_' { '-' } else { c });
        i = i + 1;
        assert(out@ =~= hyphenated(s@.subrange(0, i as int)));
    }
    assert(s@.subrange(0, s.len() as int) =~= s@);
    out
}

} // verus!
