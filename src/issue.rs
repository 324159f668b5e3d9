//! The program that a bug report carries in its first fenced Rust code block.
use vstd::prelude::*;

use crate::fingerprint::{line_of, piece, split, split_of, trim, trim_bounds};
use crate::text::{begins_with, equal_chars, lines, slice, span_texts, starts_with, to_chars};

verus! {

pub open spec fn fence() -> Seq<char> {
    seq!['`', '`', '`']
}

/// `l` with every leading fence taken off.
pub open spec fn strip_fences(l: Seq<char>) -> Seq<char>
    decreases l.len(),
{
    if l.len() >= 3 && starts_with(l, fence()) {
        strip_fences(l.subrange(3, l.len() as int))
    } else {
        l
    }
}

/// A line that opens or closes a code block.
pub open spec fn is_fence_line(l: Seq<char>) -> bool {
    starts_with(trim(l), fence())
}

/// The language that a fence line names.
pub open spec fn fence_lang(l: Seq<char>) -> Seq<char> {
    trim(strip_fences(trim(l)))
}

pub open spec fn is_rust_lang(lang: Seq<char>) -> bool {
    lang == "rust"@ || lang == "Rust"@
}

/// The lines joined with a newline between each two.
pub open spec fn join_lines(ls: Seq<Seq<char>>) -> Seq<char>
    decreases ls.len(),
{
    if ls.len() == 0 {
        Seq::empty()
    } else if ls.len() == 1 {
        ls[0]
    } else {
        join_lines(ls.drop_last()) + seq!['\n'] + ls.last()
    }
}

/// The code block found from line `i` on: `inside` tells that line `i` is within a Rust
/// block whose lines so far are `acc`.
pub open spec fn block_from(ls: Seq<Seq<char>>, i: int, inside: bool, acc: Seq<Seq<char>>) -> Option<
    Seq<char>,
>
    decreases ls.len() - i,
{
    if i < 0 || i >= ls.len() {
        None
    } else if is_fence_line(ls[i]) {
        if inside {
            Some(join_lines(acc))
        } else {
            block_from(ls, i + 1, is_rust_lang(fence_lang(ls[i])), acc)
        }
    } else if inside {
        block_from(ls, i + 1, true, acc.push(ls[i]))
    } else {
        block_from(ls, i + 1, false, acc)
    }
}

/// The text of the first closed code block of `md` whose fence names Rust.
pub open spec fn rust_code_block(md: Seq<char>) -> Option<Seq<char>> {
    block_from(lines(md), 0, false, Seq::empty())
}

/// The language that the fence line `line` names, as characters.
fn lang_of(line: &Vec<char>) -> (r: Vec<char>)
    ensures
        r@ == fence_lang(line@),
{
    let fence_chars = vec!['`', '`', '`'];
    assert(fence_chars@ =~= fence());
    let (lo, hi) = trim_bounds(line);
    let mut t = slice(line, lo, hi);
    while t.len() >= 3 && begins_with(&t, &fence_chars)
        invariant
            fence_chars@ == fence(),
            strip_fences(trim(line@)) == strip_fences(t@),
        decreases t.len(),
    {
        t = slice(&t, 3, t.len());
    }
    let (a, b) = trim_bounds(&t);
    slice(&t, a, b)
}

/// The first Rust code block of the markdown text `markdown`, without its fences.
pub fn extract_rust_code_block(markdown: &str) -> (r: Option<String>)
    ensures
        crate::fingerprint::opt_view(r) == rust_code_block(markdown@),
{
    let ghost ls = lines(markdown@);
    let sp = split(markdown);
    assert(sp.spans.len() == ls.len()) by {
        assert(span_texts(markdown@, sp.spans@).len() == ls.len());
    }
    let fence_chars = vec!['`', '`', '`'];
    assert(fence_chars@ =~= fence());
    let rust_lower = to_chars("rust");
    let rust_upper = to_chars("Rust");
    let newline = "\n";
    proof {
        reveal_strlit("\n");
    }
    let mut inside = false;
    let ghost mut acc: Seq<Seq<char>> = Seq::empty();
    let mut out = String::new();
    let mut started = false;
    let mut k: usize = 0;
    while k < sp.spans.len()
        invariant
            split_of(sp, markdown@),
            ls == lines(markdown@),
            sp.spans.len() == ls.len(),
            fence_chars@ == fence(),
            rust_lower@ == "rust"@,
            rust_upper@ == "Rust"@,
            newline@ == seq!['\n'],
            k <= sp.spans.len(),
            out@ == join_lines(acc),
            started == (acc.len() > 0),
            rust_code_block(markdown@) == block_from(ls, k as int, inside, acc),
        decreases sp.spans.len() - k,
    {
        let line = line_of(&sp, k, Ghost(markdown@));
        let (lo, hi) = trim_bounds(&line);
        let trimmed = slice(&line, lo, hi);
        if begins_with(&trimmed, &fence_chars) {
            if inside {
                return Some(out);
            }
            let lang = lang_of(&line);
            inside = equal_chars(&lang, &rust_lower) || equal_chars(&lang, &rust_upper);
        } else if inside {
            let text = piece(markdown, sp.spans[k].0, 0, line.len());
            assert(text@ =~= line@);
            let ghost next = acc.push(line@);
            if started {
                out.append(newline);
            }
            started = true;
            out.append(text.as_str());
            assert(next.drop_last() =~= acc);
            proof {
                acc = next;
            }
        }
        k = k + 1;
    }
    None
}

/// The name under which a report is filed: `name` without a trailing `.rs`.
pub open spec fn report_base(name: Seq<char>) -> Seq<char> {
    if name.len() >= 3 && name.subrange(name.len() - 3, name.len() as int) == ".rs"@ {
        name.subrange(0, name.len() - 3)
    } else {
        name
    }
}

/// `issue_or_path` without a trailing `.rs`.
pub fn report_name(issue_or_path: &str) -> (r: String)
    ensures
        r@ == report_base(issue_or_path@),
{
    let c = to_chars(issue_or_path);
    let ext = to_chars(".rs");
    proof {
        reveal_strlit(".rs");
    }
    let n = c.len();
    if n >= 3 {
        let tail = slice(&c, n - 3, n);
        if equal_chars(&tail, &ext) {
            return piece(issue_or_path, 0, 0, n - 3);
        }
    }
    piece(issue_or_path, 0, 0, n)
}

} // verus!
