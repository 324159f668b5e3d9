//! Character-level text model: occurrences of a pattern and the split into lines.
use vstd::prelude::*;

verus! {

/// `p` occurs in `s` starting at position `i`.
pub open spec fn matches_at(s: Seq<char>, p: Seq<char>, i: int) -> bool {
    0 <= i && i + p.len() <= s.len() && s.subrange(i, i + p.len()) == p
}

/// The first position at or after `i` where `p` occurs in `s`.
pub open spec fn index_of_from(s: Seq<char>, p: Seq<char>, i: int) -> Option<int>
    decreases s.len() + 1 - i,
{
    if i < 0 || i + p.len() > s.len() {
        None
    } else if matches_at(s, p, i) {
        Some(i)
    } else {
        index_of_from(s, p, i + 1)
    }
}

/// The first position where `p` occurs in `s`.
pub open spec fn index_of(s: Seq<char>, p: Seq<char>) -> Option<int> {
    index_of_from(s, p, 0)
}

pub open spec fn contains(s: Seq<char>, p: Seq<char>) -> bool {
    index_of(s, p) is Some
}

pub open spec fn starts_with(s: Seq<char>, p: Seq<char>) -> bool {
    matches_at(s, p, 0)
}

/// `index_of_from` finds an occurrence, and the first one from `i` on.
pub proof fn lemma_index_of_from(s: Seq<char>, p: Seq<char>, i: int)
    requires
        0 <= i,
    ensures
        index_of_from(s, p, i) matches Some(k) ==> i <= k && matches_at(s, p, k),
        index_of_from(s, p, i) matches Some(k) ==> forall|j: int|
            i <= j < k ==> !matches_at(s, p, j),
        index_of_from(s, p, i) is None ==> forall|j: int| i <= j ==> !matches_at(s, p, j),
    decreases s.len() + 1 - i,
{
    if i + p.len() > s.len() {
    } else if matches_at(s, p, i) {
    } else {
        lemma_index_of_from(s, p, i + 1);
    }
}

/// `contains` holds exactly when some position matches.
pub proof fn lemma_contains(s: Seq<char>, p: Seq<char>)
    ensures
        contains(s, p) <==> exists|i: int| matches_at(s, p, i),
{
    lemma_index_of_from(s, p, 0);
}

/// A line without the carriage return that may stand before its newline.
pub open spec fn strip_cr(l: Seq<char>) -> Seq<char> {
    if l.len() > 0 && l.last() == '\r' {
        l.drop_last()
    } else {
        l
    }
}

/// After reading `s`: the lines completed by a newline, and the partial line after them.
pub open spec fn line_scan(s: Seq<char>) -> (Seq<Seq<char>>, Seq<char>)
    decreases s.len(),
{
    if s.len() == 0 {
        (Seq::empty(), Seq::empty())
    } else {
        let (done, cur) = line_scan(s.drop_last());
        if s.last() == '\n' {
            (done.push(strip_cr(cur)), Seq::empty())
        } else {
            (done, cur.push(s.last()))
        }
    }
}

/// The lines of `s`: split at each newline, with a carriage return before it dropped; the
/// text after the last newline is a line when it is not empty.
pub open spec fn lines(s: Seq<char>) -> Seq<Seq<char>> {
    let (done, cur) = line_scan(s);
    if cur.len() == 0 {
        done
    } else {
        done.push(cur)
    }
}

/// The text that each span `(start, end)` covers in `s`.
pub open spec fn span_texts(s: Seq<char>, spans: Seq<(usize, usize)>) -> Seq<Seq<char>> {
    Seq::new(spans.len(), |k: int| s.subrange(spans[k].0 as int, spans[k].1 as int))
}

pub open spec fn spans_within(s: Seq<char>, spans: Seq<(usize, usize)>) -> bool {
    forall|k: int| 0 <= k < spans.len() ==> #[trigger] spans[k].0 <= spans[k].1 <= s.len()
}

/// A stretch of `s` holds no occurrence of a pattern that `s` lacks.
pub proof fn lemma_part_lacks(s: Seq<char>, a: int, b: int, m: Seq<char>)
    requires
        !contains(s, m),
        0 <= a <= b <= s.len(),
    ensures
        !contains(s.subrange(a, b), m),
{
    let t = s.subrange(a, b);
    lemma_contains(s, m);
    lemma_contains(t, m);
    if contains(t, m) {
        let i = choose|i: int| matches_at(t, m, i);
        assert(s.subrange(a + i, a + i + m.len()) =~= t.subrange(i, i + m.len()));
        assert(matches_at(s, m, a + i));
    }
}

/// The lines that the scan of `s` completed lack a pattern that `s` lacks, and the partial
/// line is the end of `s`.
proof fn lemma_line_scan_lacks(s: Seq<char>, m: Seq<char>)
    requires
        !contains(s, m),
    ensures
        forall|k: int|
            0 <= k < line_scan(s).0.len() ==> !contains(#[trigger] line_scan(s).0[k], m),
        line_scan(s).1.len() <= s.len(),
        line_scan(s).1 == s.subrange(s.len() - line_scan(s).1.len(), s.len() as int),
    decreases s.len(),
{
    if s.len() > 0 {
        let p = s.drop_last();
        lemma_part_lacks(s, 0, s.len() - 1, m);
        assert(s.subrange(0, s.len() - 1) =~= p);
        lemma_line_scan_lacks(p, m);
        let (done, cur) = line_scan(p);
        let start = p.len() - cur.len();
        assert(cur =~= s.subrange(start, p.len() as int));
        if s.last() == '\n' {
            let l = strip_cr(cur);
            assert(l =~= s.subrange(start, start + l.len()));
            lemma_part_lacks(s, start, start + l.len(), m);
            assert(line_scan(s).1 =~= s.subrange(s.len() as int, s.len() as int));
        } else {
            assert(cur.push(s.last()) =~= s.subrange(start, s.len() as int));
        }
    }
}

/// No line of `s` holds a pattern that `s` lacks.
pub proof fn lemma_lines_lack(s: Seq<char>, m: Seq<char>)
    requires
        !contains(s, m),
    ensures
        forall|k: int| 0 <= k < lines(s).len() ==> !contains(#[trigger] lines(s)[k], m),
{
    lemma_line_scan_lacks(s, m);
    let cur = line_scan(s).1;
    lemma_part_lacks(s, s.len() - cur.len(), s.len() as int, m);
}

/// The spans of the lines of `s`, in order.
pub fn line_spans(s: &Vec<char>) -> (r: Vec<(usize, usize)>)
    ensures
        spans_within(s@, r@),
        span_texts(s@, r@) == lines(s@),
{
    let mut r: Vec<(usize, usize)> = Vec::new();
    let mut start: usize = 0;
    let mut i: usize = 0;
    while i < s.len()
        invariant
            start <= i <= s.len(),
            spans_within(s@, r@),
            line_scan(s@.subrange(0, i as int)) == (span_texts(s@, r@), s@.subrange(
                start as int,
                i as int,
            )),
        decreases s.len() - i,
    {
        let ghost prev = s@.subrange(0, i as int);
        assert(s@.subrange(0, i + 1).drop_last() =~= prev);
        if s[i] == '\n' {
            let end: usize = if i > start && s[i - 1] == '\r' {
                i - 1
            } else {
                i
            };
            assert(strip_cr(s@.subrange(start as int, i as int)) =~= s@.subrange(
                start as int,
                end as int,
            ));
            let ghost old_r = r@;
            r.push((start, end));
            assert(span_texts(s@, r@) =~= span_texts(s@, old_r).push(
                s@.subrange(start as int, end as int),
            ));
            start = i + 1;
            assert(s@.subrange(start as int, start as int) =~= Seq::<char>::empty());
        } else {
            assert(s@.subrange(start as int, i + 1) =~= s@.subrange(start as int, i as int).push(
                s@[i as int],
            ));
        }
        i = i + 1;
    }
    assert(s@.subrange(0, s.len() as int) =~= s@);
    if start < s.len() {
        let ghost old_r = r@;
        r.push((start, s.len()));
        assert(span_texts(s@, r@) =~= span_texts(s@, old_r).push(
            s@.subrange(start as int, s.len() as int),
        ));
    }
    r
}

/// A copy of the characters of `s` from `start` up to `end`.
pub fn slice(s: &Vec<char>, start: usize, end: usize) -> (r: Vec<char>)
    requires
        start <= end <= s.len(),
    ensures
        r@ == s@.subrange(start as int, end as int),
{
    let mut r: Vec<char> = Vec::new();
    let mut i: usize = start;
    while i < end
        invariant
            start <= i <= end <= s.len(),
            r@ == s@.subrange(start as int, i as int),
        decreases end - i,
    {
        r.push(s[i]);
        assert(s@.subrange(start as int, i + 1) =~= r@);
        i = i + 1;
    }
    r
}

/// The characters of `s`, in order.
pub fn to_chars(s: &str) -> (r: Vec<char>)
    ensures
        r@ == s@,
{
    let mut r: Vec<char> = Vec::new();
    for c in it: s.chars()
        invariant
            r@ == it.seq().subrange(0, it.index() as int),
    {
        r.push(c);
    }
    r
}

/// Whether `p` occurs in `s` at position `i`.
pub fn match_at(s: &Vec<char>, p: &Vec<char>, i: usize) -> (r: bool)
    ensures
        r == matches_at(s@, p@, i as int),
{
    if i > s.len() || p.len() > s.len() - i {
        return false;
    }
    let mut k: usize = 0;
    while k < p.len()
        invariant
            i + p.len() <= s.len(),
            k <= p.len(),
            forall|j: int| 0 <= j < k ==> s@[i + j] == p@[j],
        decreases p.len() - k,
    {
        if s[i + k] != p[k] {
            assert(s@.subrange(i as int, i + p.len())[k as int] != p@[k as int]);
            return false;
        }
        k = k + 1;
    }
    assert(s@.subrange(i as int, i + p.len()) =~= p@);
    true
}

/// The first position at or after `from` where `p` occurs in `s`.
pub fn find_from(s: &Vec<char>, p: &Vec<char>, from: usize) -> (r: Option<usize>)
    ensures
        r matches Some(k) ==> index_of_from(s@, p@, from as int) == Some(k as int),
        r is None ==> index_of_from(s@, p@, from as int) is None,
{
    let mut i: usize = from;
    while i <= s.len() && p.len() <= s.len() - i
        invariant
            from <= i,
            index_of_from(s@, p@, from as int) == index_of_from(s@, p@, i as int),
        decreases s.len() + 1 - i,
    {
        if match_at(s, p, i) {
            return Some(i);
        }
        if p.len() == 0 {
            assert(s@.subrange(i as int, i as int) =~= p@);
        }
        i = i + 1;
    }
    None
}

/// The first position where `p` occurs in `s`.
pub fn find(s: &Vec<char>, p: &Vec<char>) -> (r: Option<usize>)
    ensures
        r matches Some(k) ==> index_of(s@, p@) == Some(k as int),
        r is None ==> index_of(s@, p@) is None,
{
    find_from(s, p, 0)
}

pub fn has(s: &Vec<char>, p: &Vec<char>) -> (r: bool)
    ensures
        r == contains(s@, p@),
{
    find(s, p).is_some()
}

pub fn equal_chars(a: &Vec<char>, b: &Vec<char>) -> (r: bool)
    ensures
        r == (a@ == b@),
{
    if a.len() != b.len() {
        return false;
    }
    let mut k: usize = 0;
    while k < a.len()
        invariant
            a.len() == b.len(),
            k <= a.len(),
            forall|j: int| 0 <= j < k ==> a@[j] == b@[j],
        decreases a.len() - k,
    {
        if a[k] != b[k] {
            return false;
        }
        k = k + 1;
    }
    assert(a@ =~= b@);
    true
}

pub fn begins_with(s: &Vec<char>, p: &Vec<char>) -> (r: bool)
    ensures
        r == starts_with(s@, p@),
{
    match_at(s, p, 0)
}

} // verus!
