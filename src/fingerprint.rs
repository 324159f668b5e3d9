//! The fingerprint of a diagnostic: where the compiler failed, its message, and its query
//! stack with program-specific names taken out.
use vstd::prelude::*;

use crate::text::{
    begins_with, contains, equal_chars, find, has, index_of, index_of_from, line_spans, lines, slice,
    span_texts, starts_with, to_chars,
};

verus! {

pub open spec fn thread_marker() -> Seq<char> {
    "thread 'rustc'"@
}

pub open spec fn panicked_marker() -> Seq<char> {
    "panicked at "@
}

pub open spec fn delayed_marker() -> Seq<char> {
    "note: delayed at "@
}

pub open spec fn ice_prefix() -> Seq<char> {
    "error: internal compiler error: "@
}

pub open spec fn trace_start() -> Seq<char> {
    "query stack during panic:"@
}

pub open spec fn trace_end() -> Seq<char> {
    "end of query stack"@
}

pub open spec fn opt_view(o: Option<String>) -> Option<Seq<char>> {
    match o {
        Some(x) => Some(x@),
        None => None,
    }
}

/// The text of `line` from position `from` on, without the line's final character.
pub open spec fn rest_but_last(line: Seq<char>, from: int) -> Seq<char> {
    if from < line.len() - 1 {
        line.subrange(from, line.len() - 1)
    } else {
        Seq::empty()
    }
}

/// What follows the first occurrence of `m` in `line`, without the final character.
pub open spec fn location_after(line: Seq<char>, m: Seq<char>) -> Option<Seq<char>> {
    match index_of(line, m) {
        Some(i) => Some(rest_but_last(line, i + m.len())),
        None => None,
    }
}

/// A line that announces the panic of the compiler's thread, with where it happened.
pub open spec fn is_panic_header(line: Seq<char>) -> bool {
    starts_with(line, thread_marker()) && contains(line, panicked_marker())
}

pub open spec fn panic_location(line: Seq<char>) -> Option<Seq<char>> {
    if starts_with(line, thread_marker()) {
        location_after(line, panicked_marker())
    } else {
        None
    }
}

/// The location that the first panic header from line `i` on names.
pub open spec fn first_panic_location(ls: Seq<Seq<char>>, i: int) -> Option<Seq<char>>
    decreases ls.len() - i,
{
    if i < 0 || i >= ls.len() {
        None
    } else if panic_location(ls[i]) is Some {
        panic_location(ls[i])
    } else {
        first_panic_location(ls, i + 1)
    }
}

/// The location that the first delayed-bug note from line `i` on names.
pub open spec fn first_delayed_location(ls: Seq<Seq<char>>, i: int) -> Option<Seq<char>>
    decreases ls.len() - i,
{
    if i < 0 || i >= ls.len() {
        None
    } else if location_after(ls[i], delayed_marker()) is Some {
        location_after(ls[i], delayed_marker())
    } else {
        first_delayed_location(ls, i + 1)
    }
}

/// Where the failure happened: named by the first panic header, else by the first
/// delayed-bug note.
pub open spec fn location(s: Seq<char>) -> Option<Seq<char>> {
    match first_panic_location(lines(s), 0) {
        Some(x) => Some(x),
        None => first_delayed_location(lines(s), 0),
    }
}

/// The text after the internal-error prefix, without a leading `path:line` stamp.
pub open spec fn ice_message(rest: Seq<char>) -> Seq<char> {
    let first = match index_of(rest, seq![' ']) {
        Some(j) => rest.subrange(0, j),
        None => rest,
    };
    if contains(first, seq!['/']) && contains(first, seq![':']) {
        if first.len() < rest.len() {
            rest.subrange(first.len() + 1 as int, rest.len() as int)
        } else {
            Seq::empty()
        }
    } else {
        rest
    }
}

/// The message found from line `i` on; `after_header` tells that line `i` follows a panic
/// header.
pub open spec fn message_from(ls: Seq<Seq<char>>, i: int, after_header: bool) -> Option<
    Seq<char>,
>
    decreases ls.len() - i,
{
    if i < 0 || i >= ls.len() {
        None
    } else if after_header {
        Some(ls[i])
    } else if starts_with(ls[i], ice_prefix()) {
        Some(ice_message(ls[i].subrange(ice_prefix().len() as int, ls[i].len() as int)))
    } else {
        message_from(ls, i + 1, is_panic_header(ls[i]))
    }
}

/// The failure message: the rest of the first internal-error line, or the line that follows
/// a panic header, whichever comes first.
pub open spec fn message(s: Seq<char>) -> Option<Seq<char>> {
    message_from(lines(s), 0, false)
}

/// Unicode white space, as `char::is_whitespace` defines it.
pub open spec fn is_white(c: char) -> bool {
    let u = c as u32;
    (0x9 <= u <= 0xD) || u == 0x20 || u == 0x85 || u == 0xA0 || u == 0x1680 || (0x2000 <= u
        <= 0x200A) || u == 0x2028 || u == 0x2029 || u == 0x202F || u == 0x205F || u == 0x3000
}

pub open spec fn trim_start(l: Seq<char>) -> Seq<char>
    decreases l.len(),
{
    if l.len() > 0 && is_white(l[0]) {
        trim_start(l.drop_first())
    } else {
        l
    }
}

pub open spec fn trim_end(l: Seq<char>) -> Seq<char>
    decreases l.len(),
{
    if l.len() > 0 && is_white(l.last()) {
        trim_end(l.drop_last())
    } else {
        l
    }
}

/// `l` without white space at either end.
pub open spec fn trim(l: Seq<char>) -> Seq<char> {
    trim_end(trim_start(l))
}

/// The first line from `i` on that, trimmed, is `m`.
pub open spec fn line_trimmed_to(ls: Seq<Seq<char>>, m: Seq<char>, i: int) -> Option<int>
    decreases ls.len() - i,
{
    if i < 0 || i >= ls.len() {
        None
    } else if trim(ls[i]) == m {
        Some(i)
    } else {
        line_trimmed_to(ls, m, i + 1)
    }
}

/// The last position before `i` that holds `c`.
pub open spec fn last_index_before(l: Seq<char>, c: char, i: int) -> Option<int>
    decreases i,
{
    if i <= 0 || i > l.len() {
        None
    } else if l[i - 1] == c {
        Some(i - 1)
    } else {
        last_index_before(l, c, i - 1)
    }
}

/// A line with what stands between its first and its last backtick taken out; a line with
/// fewer than two backticks is kept as it is.
pub open spec fn redact(l: Seq<char>) -> Seq<char> {
    match index_of(l, seq!['`']) {
        Some(f) => match last_index_before(l, '`', l.len() as int) {
            Some(b) => if f < b {
                l.subrange(0, f + 1) + l.subrange(b, l.len() as int)
            } else {
                l
            },
            None => l,
        },
        None => l,
    }
}

/// Each line redacted and ended by a newline.
pub open spec fn redacted_block(ls: Seq<Seq<char>>) -> Seq<char>
    decreases ls.len(),
{
    if ls.len() == 0 {
        Seq::empty()
    } else {
        redacted_block(ls.drop_last()) + redact(ls.last()) + seq!['\n']
    }
}

/// The query stack: the lines from its start marker to the first end marker after it, both
/// included, each redacted.
pub open spec fn trace(s: Seq<char>) -> Option<Seq<char>> {
    match line_trimmed_to(lines(s), trace_start(), 0) {
        None => None,
        Some(a) => match line_trimmed_to(lines(s), trace_end(), a) {
            None => None,
            Some(b) => Some(redacted_block(lines(s).subrange(a, b + 1))),
        },
    }
}

/// `s` split into characters and lines, with the facts that tie them to `s`.
pub(crate) struct Split {
    pub(crate) chars: Vec<char>,
    pub(crate) spans: Vec<(usize, usize)>,
}

pub(crate) open spec fn split_of(sp: Split, s: Seq<char>) -> bool {
    &&& sp.chars@ == s
    &&& forall|k: int|
        0 <= k < sp.spans.len() ==> #[trigger] sp.spans@[k].0 <= sp.spans@[k].1 <= s.len()
    &&& span_texts(s, sp.spans@) == lines(s)
}

pub(crate) fn split(s: &str) -> (r: Split)
    ensures
        split_of(r, s@),
{
    let chars = to_chars(s);
    let spans = line_spans(&chars);
    Split { chars, spans }
}

/// Line `k` of a split text.
pub(crate) fn line_of(sp: &Split, k: usize, Ghost(s): Ghost<Seq<char>>) -> (r: Vec<char>)
    requires
        split_of(*sp, s),
        k < sp.spans.len(),
    ensures
        r@ == lines(s)[k as int],
        r@ == s.subrange(sp.spans@[k as int].0 as int, sp.spans@[k as int].1 as int),
        sp.spans@[k as int].0 + r@.len() == sp.spans@[k as int].1 <= s.len() <= usize::MAX,
{
    assert(sp.spans@[k as int].0 <= sp.spans@[k as int].1 <= s.len());
    assert(s.len() == sp.chars.len());
    let (a, b) = sp.spans[k];
    assert(span_texts(s, sp.spans@)[k as int] == lines(s)[k as int]);
    slice(&sp.chars, a, b)
}

/// The text of `s` from `from` up to `to`, counted in characters from `start`.
pub(crate) fn piece(s: &str, start: usize, from: usize, to: usize) -> (r: String)
    requires
        from <= to,
        start + to <= s@.len() <= usize::MAX,
    ensures
        r@ == s@.subrange(start + from, start + to),
{
    s.substring_char(start + from, start + to).to_owned()
}

/// The location that `line`, which starts at `start` in `s`, names after the marker `m`.
fn location_in_line(s: &str, start: usize, line: &Vec<char>, m: &Vec<char>) -> (r: Option<String>)
    requires
        start + line.len() <= s@.len() <= usize::MAX,
        line@ == s@.subrange(start as int, start + line.len()),
    ensures
        opt_view(r) == location_after(line@, m@),
{
    match find(line, m) {
        Some(i) => {
            proof {
                crate::text::lemma_index_of_from(line@, m@, 0);
            }
            let from = i + m.len();
            if line.len() >= 1 && from < line.len() - 1 {
                let r = piece(s, start, from, line.len() - 1);
                assert(r@ =~= line@.subrange(from as int, line.len() - 1));
                Some(r)
            } else {
                Some(String::new())
            }
        },
        None => None,
    }
}

/// Where the failure that `s` reports happened: a `path:line:col` text.
pub fn extract_file_path(s: &str) -> (r: Option<String>)
    ensures
        opt_view(r) == location(s@),
{
    let ghost ls = lines(s@);
    let sp = split(s);
    let thread = to_chars("thread 'rustc'");
    let panicked = to_chars("panicked at ");
    let delayed = to_chars("note: delayed at ");
    let mut k: usize = 0;
    while k < sp.spans.len()
        invariant
            split_of(sp, s@),
            ls == lines(s@),
            thread@ == thread_marker(),
            panicked@ == panicked_marker(),
            k <= sp.spans.len(),
            first_panic_location(ls, 0) == first_panic_location(ls, k as int),
        decreases sp.spans.len() - k,
    {
        let line = line_of(&sp, k, Ghost(s@));
        if begins_with(&line, &thread) {
            let found = location_in_line(s, sp.spans[k].0, &line, &panicked);
            if found.is_some() {
                return found;
            }
        }
        k = k + 1;
    }
    assert(sp.spans.len() == ls.len()) by {
        assert(span_texts(s@, sp.spans@).len() == ls.len());
    }
    let mut k: usize = 0;
    while k < sp.spans.len()
        invariant
            split_of(sp, s@),
            ls == lines(s@),
            sp.spans.len() == ls.len(),
            delayed@ == delayed_marker(),
            k <= sp.spans.len(),
            first_panic_location(ls, 0) is None,
            first_delayed_location(ls, 0) == first_delayed_location(ls, k as int),
        decreases sp.spans.len() - k,
    {
        let line = line_of(&sp, k, Ghost(s@));
        let found = location_in_line(s, sp.spans[k].0, &line, &delayed);
        if found.is_some() {
            return found;
        }
        k = k + 1;
    }
    None
}

/// The message that an internal-error line carries after its prefix; `rest` starts at
/// `start` in `s`.
fn ice_message_in(s: &str, start: usize, rest: &Vec<char>) -> (r: String)
    requires
        start + rest.len() <= s@.len() <= usize::MAX,
        rest@ == s@.subrange(start as int, start + rest.len()),
    ensures
        r@ == ice_message(rest@),
{
    let space = vec![' '];
    let slash = vec!['/'];
    let colon = vec![':'];
    assert(space@ =~= seq![' ']);
    assert(slash@ =~= seq!['/']);
    assert(colon@ =~= seq![':']);
    let first_len = match find(rest, &space) {
        Some(j) => {
            proof {
                crate::text::lemma_index_of_from(rest@, space@, 0);
            }
            j
        },
        None => rest.len(),
    };
    let first = slice(rest, 0, first_len);
    assert(first_len == rest.len() ==> first@ =~= rest@);
    if has(&first, &slash) && has(&first, &colon) {
        if first_len < rest.len() {
            let r = piece(s, start, first_len + 1, rest.len());
            assert(r@ =~= rest@.subrange(first_len + 1, rest.len() as int));
            r
        } else {
            String::new()
        }
    } else {
        let r = piece(s, start, 0, rest.len());
        assert(r@ =~= rest@);
        r
    }
}

/// The failure message that `s` reports.
pub fn extract_message(s: &str) -> (r: Option<String>)
    ensures
        opt_view(r) == message(s@),
{
    let ghost ls = lines(s@);
    let sp = split(s);
    assert(sp.spans.len() == ls.len()) by {
        assert(span_texts(s@, sp.spans@).len() == ls.len());
    }
    let thread = to_chars("thread 'rustc'");
    let panicked = to_chars("panicked at ");
    let prefix = to_chars("error: internal compiler error: ");
    let mut after_header = false;
    let mut k: usize = 0;
    while k < sp.spans.len()
        invariant
            split_of(sp, s@),
            ls == lines(s@),
            sp.spans.len() == ls.len(),
            thread@ == thread_marker(),
            panicked@ == panicked_marker(),
            prefix@ == ice_prefix(),
            k <= sp.spans.len(),
            message(s@) == message_from(ls, k as int, after_header),
        decreases sp.spans.len() - k,
    {
        let line = line_of(&sp, k, Ghost(s@));
        let start = sp.spans[k].0;
        if after_header {
            let r = piece(s, start, 0, line.len());
            assert(r@ =~= line@);
            return Some(r);
        }
        if begins_with(&line, &prefix) {
            let rest = slice(&line, prefix.len(), line.len());
            assert(rest@ =~= s@.subrange(start + prefix.len(), start + prefix.len() + rest.len()));
            return Some(ice_message_in(s, start + prefix.len(), &rest));
        }
        after_header = begins_with(&line, &thread) && has(&line, &panicked);
        k = k + 1;
    }
    None
}

/// The bounds of `line` without white space at either end.
pub(crate) fn trim_bounds(line: &Vec<char>) -> (r: (usize, usize))
    ensures
        r.0 <= r.1 <= line.len(),
        trim(line@) == line@.subrange(r.0 as int, r.1 as int),
{
    let n = line.len();
    assert(line@.subrange(0, n as int) =~= line@);
    let mut lo: usize = 0;
    while lo < n && is_whitespace(line[lo])
        invariant
            lo <= n == line.len(),
            trim_start(line@) == trim_start(line@.subrange(lo as int, n as int)),
        decreases n - lo,
    {
        assert(line@.subrange(lo as int, n as int).drop_first() =~= line@.subrange(
            lo + 1,
            n as int,
        ));
        lo = lo + 1;
    }
    let mut hi: usize = n;
    while hi > lo && is_whitespace(line[hi - 1])
        invariant
            lo <= hi <= n == line.len(),
            trim_start(line@) == line@.subrange(lo as int, n as int),
            trim(line@) == trim_end(line@.subrange(lo as int, hi as int)),
        decreases hi - lo,
    {
        assert(line@.subrange(lo as int, hi as int).drop_last() =~= line@.subrange(
            lo as int,
            hi - 1,
        ));
        hi = hi - 1;
    }
    (lo, hi)
}

/// Whether `line`, trimmed, is `m`.
fn trimmed_is(line: &Vec<char>, m: &Vec<char>) -> (r: bool)
    ensures
        r == (trim(line@) == m@),
{
    let (lo, hi) = trim_bounds(line);
    let core = slice(line, lo, hi);
    equal_chars(&core, m)
}

/// Whether `c` is Unicode white space.
pub fn is_whitespace(c: char) -> (r: bool)
    ensures
        r == is_white(c),
{
    let u = c as u32;
    (0x9 <= u && u <= 0xD) || u == 0x20 || u == 0x85 || u == 0xA0 || u == 0x1680 || (0x2000 <= u
        && u <= 0x200A) || u == 0x2028 || u == 0x2029 || u == 0x202F || u == 0x205F || u == 0x3000
}

/// The first line from `from` on that, trimmed, is `m`.
fn find_trimmed_line(sp: &Split, m: &Vec<char>, from: usize, Ghost(s): Ghost<Seq<char>>) -> (r:
    Option<usize>)
    requires
        split_of(*sp, s),
        sp.spans.len() == lines(s).len(),
    ensures
        r matches Some(k) ==> line_trimmed_to(lines(s), m@, from as int) == Some(k as int) && k
            < sp.spans.len(),
        r is None ==> line_trimmed_to(lines(s), m@, from as int) is None,
{
    let mut k: usize = from;
    while k < sp.spans.len()
        invariant
            split_of(*sp, s),
            sp.spans.len() == lines(s).len(),
            from <= k,
            line_trimmed_to(lines(s), m@, from as int) == line_trimmed_to(lines(s), m@, k as int),
        decreases sp.spans.len() - k,
    {
        let line = line_of(sp, k, Ghost(s));
        if trimmed_is(&line, m) {
            return Some(k);
        }
        k = k + 1;
    }
    None
}

/// The last position of `c` in `l`.
fn last_index(l: &Vec<char>, c: char) -> (r: Option<usize>)
    ensures
        r matches Some(k) ==> last_index_before(l@, c, l.len() as int) == Some(k as int),
        r is None ==> last_index_before(l@, c, l.len() as int) is None,
{
    let mut i: usize = l.len();
    while i > 0
        invariant
            i <= l.len(),
            last_index_before(l@, c, l.len() as int) == last_index_before(l@, c, i as int),
        decreases i,
    {
        if l[i - 1] == c {
            return Some(i - 1);
        }
        i = i - 1;
    }
    None
}

/// `line`, which starts at `start` in `s`, redacted.
fn redact_line(s: &str, start: usize, line: &Vec<char>) -> (r: String)
    requires
        start + line.len() <= s@.len() <= usize::MAX,
        line@ == s@.subrange(start as int, start + line.len()),
    ensures
        r@ == redact(line@),
{
    let tick = vec!['`'];
    assert(tick@ =~= seq!['`']);
    let whole = piece(s, start, 0, line.len());
    assert(whole@ =~= line@);
    match find(line, &tick) {
        Some(f) => {
            proof {
                crate::text::lemma_index_of_from(line@, tick@, 0);
            }
            match last_index(line, '`') {
                Some(b) => {
                    proof {
                        lemma_last_index_before(line@, '`', line.len() as int);
                    }
                    if f < b {
                        let mut r = piece(s, start, 0, f + 1);
                        let tail = piece(s, start, b, line.len());
                        r.append(tail.as_str());
                        assert(r@ =~= line@.subrange(0, f + 1) + line@.subrange(
                            b as int,
                            line.len() as int,
                        ));
                        r
                    } else {
                        whole
                    }
                },
                None => whole,
            }
        },
        None => whole,
    }
}

/// `last_index_before` finds a position before `i` that holds `c`.
pub proof fn lemma_last_index_before(l: Seq<char>, c: char, i: int)
    ensures
        last_index_before(l, c, i) matches Some(k) ==> 0 <= k < i && k < l.len() && l[k] == c,
    decreases i,
{
    if i <= 0 || i > l.len() {
    } else if l[i - 1] == c {
    } else {
        lemma_last_index_before(l, c, i - 1);
    }
}

/// The redacted query stack that `s` holds.
pub fn extract_query_stack(s: &str) -> (r: Option<String>)
    ensures
        opt_view(r) == trace(s@),
{
    let ghost ls = lines(s@);
    let sp = split(s);
    assert(sp.spans.len() == ls.len()) by {
        assert(span_texts(s@, sp.spans@).len() == ls.len());
    }
    let start_marker = to_chars("query stack during panic:");
    let end_marker = to_chars("end of query stack");
    let a = match find_trimmed_line(&sp, &start_marker, 0, Ghost(s@)) {
        Some(a) => a,
        None => return None,
    };
    let b = match find_trimmed_line(&sp, &end_marker, a, Ghost(s@)) {
        Some(b) => b,
        None => return None,
    };
    proof {
        lemma_line_trimmed_to(ls, end_marker@, a as int);
    }
    let newline = "\n";
    proof {
        reveal_strlit("\n");
    }
    let mut out = String::new();
    let mut k: usize = a;
    while k <= b
        invariant
            split_of(sp, s@),
            ls == lines(s@),
            sp.spans.len() == ls.len(),
            a <= k <= b + 1,
            b < sp.spans.len(),
            newline@ == seq!['\n'],
            out@ == redacted_block(ls.subrange(a as int, k as int)),
        decreases b + 1 - k,
    {
        let line = line_of(&sp, k, Ghost(s@));
        let red = redact_line(s, sp.spans[k].0, &line);
        out.append(red.as_str());
        out.append(newline);
        assert(ls.subrange(a as int, k + 1).drop_last() =~= ls.subrange(a as int, k as int));
        k = k + 1;
    }
    Some(out)
}

/// `line_trimmed_to` finds a line at or after `i`.
pub proof fn lemma_line_trimmed_to(ls: Seq<Seq<char>>, m: Seq<char>, i: int)
    ensures
        line_trimmed_to(ls, m, i) matches Some(k) ==> i <= k < ls.len(),
    decreases ls.len() - i,
{
    if i < 0 || i >= ls.len() {
    } else if trim(ls[i]) == m {
    } else {
        lemma_line_trimmed_to(ls, m, i + 1);
    }
}

proof fn lemma_no_panic_location(ls: Seq<Seq<char>>, i: int)
    requires
        forall|k: int| 0 <= k < ls.len() ==> !contains(#[trigger] ls[k], panicked_marker()),
    ensures
        first_panic_location(ls, i) is None,
    decreases ls.len() - i,
{
    if 0 <= i < ls.len() {
        assert(!contains(ls[i], panicked_marker()));
        lemma_no_panic_location(ls, i + 1);
    }
}

proof fn lemma_no_delayed_location(ls: Seq<Seq<char>>, i: int)
    requires
        forall|k: int| 0 <= k < ls.len() ==> !contains(#[trigger] ls[k], delayed_marker()),
    ensures
        first_delayed_location(ls, i) is None,
    decreases ls.len() - i,
{
    if 0 <= i < ls.len() {
        assert(!contains(ls[i], delayed_marker()));
        lemma_no_delayed_location(ls, i + 1);
    }
}

/// A text that holds neither a panic marker nor a delayed-bug marker has no location.
pub proof fn lemma_no_marker_no_location(s: Seq<char>)
    requires
        !contains(s, panicked_marker()),
        !contains(s, delayed_marker()),
    ensures
        location(s) is None,
{
    crate::text::lemma_lines_lack(s, panicked_marker());
    crate::text::lemma_lines_lack(s, delayed_marker());
    lemma_no_panic_location(lines(s), 0);
    lemma_no_delayed_location(lines(s), 0);
}

proof fn lemma_first_tick(l: Seq<char>, f: int, i: int)
    requires
        0 <= i <= f < l.len(),
        l[f] == '`',
        forall|j: int| 0 <= j < f ==> l[j] != '`',
    ensures
        index_of_from(l, seq!['`'], i) == Some(f),
    decreases f - i,
{
    if i == f {
        assert(l.subrange(f, f + 1) =~= seq!['`']);
    } else {
        assert(l.subrange(i, i + 1)[0] == l[i]);
        lemma_first_tick(l, f, i + 1);
    }
}

proof fn lemma_last_tick(l: Seq<char>, b: int, j: int)
    requires
        0 <= b < j <= l.len(),
        l[b] == '`',
        forall|k: int| b < k < l.len() ==> l[k] != '`',
    ensures
        last_index_before(l, '`', j) == Some(b),
    decreases j - b,
{
    if j - 1 > b {
        lemma_last_tick(l, b, j - 1);
    }
}

/// Redacting a line that names something between two backticks keeps the text before and
/// after them and drops what they enclose, whatever it is.
pub proof fn lemma_redact_ignores_name(p: Seq<char>, x: Seq<char>, y: Seq<char>, q: Seq<char>)
    requires
        !p.contains('`'),
        !q.contains('`'),
    ensures
        redact(p + seq!['`'] + x + seq!['`'] + q) == p + seq!['`', '`'] + q,
        redact(p + seq!['`'] + x + seq!['`'] + q) == redact(p + seq!['`'] + y + seq!['`'] + q),
{
    lemma_redact_named(p, x, q);
    lemma_redact_named(p, y, q);
}

proof fn lemma_redact_named(p: Seq<char>, x: Seq<char>, q: Seq<char>)
    requires
        !p.contains('`'),
        !q.contains('`'),
    ensures
        redact(p + seq!['`'] + x + seq!['`'] + q) == p + seq!['`', '`'] + q,
{
    let l = p + seq!['`'] + x + seq!['`'] + q;
    let f = p.len() as int;
    let b = (p.len() + 1 + x.len()) as int;
    assert forall|j: int| 0 <= j < f implies l[j] != '`' by {
        assert(l[j] == p[j]);
    }
    assert forall|k: int| b < k < l.len() implies l[k] != '`' by {
        assert(l[k] == q[k - b - 1]);
    }
    lemma_first_tick(l, f, 0);
    lemma_last_tick(l, b, l.len() as int);
    assert(l.subrange(0, f + 1) + l.subrange(b, l.len() as int) =~= p + seq!['`', '`'] + q);
}

/// `field`, or `none` where it is absent.
pub open spec fn or_placeholder(field: Option<Seq<char>>, none: Seq<char>) -> Seq<char> {
    match field {
        Some(x) => x,
        None => none,
    }
}

/// The fingerprint of `s` as text: its location, its message and its query stack, each
/// ended by a newline, with a placeholder for a field that `s` lacks.
pub open spec fn glance_text(s: Seq<char>) -> Seq<char> {
    or_placeholder(location(s), "(no path)"@) + seq!['\n'] + or_placeholder(
        message(s),
        "(no message)"@,
    ) + seq!['\n'] + or_placeholder(trace(s), "(no query stack)"@) + seq!['\n']
}

/// The fingerprint of the diagnostic `s`, as lines for a reader.
pub fn glance_report(s: &str) -> (r: String)
    ensures
        r@ == glance_text(s@),
{
    let newline = "\n";
    proof {
        reveal_strlit("\n");
    }
    let mut out = String::new();
    match extract_file_path(s) {
        Some(x) => out.append(x.as_str()),
        None => out.append("(no path)"),
    }
    out.append(newline);
    match extract_message(s) {
        Some(x) => out.append(x.as_str()),
        None => out.append("(no message)"),
    }
    out.append(newline);
    match extract_query_stack(s) {
        Some(x) => out.append(x.as_str()),
        None => out.append("(no query stack)"),
    }
    out.append(newline);
    out
}

} // verus!
