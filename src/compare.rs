//! Whether two diagnostics report the same crash, and lookup of a diagnostic among the
//! confirmed crashes.
use vstd::prelude::*;

use crate::fingerprint::{
    extract_file_path, extract_message, extract_query_stack, location, message, opt_view, trace,
};
use crate::text::{equal_chars, to_chars};

verus! {

/// White space as `split_ascii_whitespace` knows it.
pub open spec fn is_ascii_white(c: char) -> bool {
    c == ' ' || c == '\t' || c == '\n' || c == '\x0C' || c == '\r'
}

/// The first position from `i` on that is not white space.
pub open spec fn token_start(m: Seq<char>, i: int) -> Option<int>
    decreases m.len() - i,
{
    if i < 0 || i >= m.len() {
        None
    } else if !is_ascii_white(m[i]) {
        Some(i)
    } else {
        token_start(m, i + 1)
    }
}

/// The first position from `i` on that is white space, or the end of `m`.
pub open spec fn token_end(m: Seq<char>, i: int) -> int
    decreases m.len() - i,
{
    if i < 0 || i >= m.len() {
        m.len() as int
    } else if is_ascii_white(m[i]) {
        i
    } else {
        token_end(m, i + 1)
    }
}

/// The first whitespace-delimited word of `m`.
pub open spec fn first_token(m: Seq<char>) -> Option<Seq<char>> {
    match token_start(m, 0) {
        Some(i) => Some(m.subrange(i, token_end(m, i))),
        None => None,
    }
}

/// A word that starts with a backtick or a bracket names a type or a value, which may vary
/// between reports of one crash.
pub open spec fn exempt(t: Seq<char>) -> bool {
    t.len() > 0 && (t[0] == '`' || t[0] == '[')
}

/// Two messages whose first words differ, neither of them exempt.
pub open spec fn tokens_differ(ma: Option<Seq<char>>, mb: Option<Seq<char>>) -> bool {
    match (ma, mb) {
        (Some(a), Some(b)) => match (first_token(a), first_token(b)) {
            (Some(x), Some(y)) => !exempt(x) && !exempt(y) && x != y,
            _ => false,
        },
        _ => false,
    }
}

/// `a` and `b` report the same crash: equal texts, or a location that both have, equal
/// query stacks and messages that the first word does not tell apart.
pub open spec fn same_crash(a: Seq<char>, b: Seq<char>) -> bool {
    a == b || (location(a) is Some && location(a) == location(b) && trace(a) == trace(b)
        && !tokens_differ(message(a), message(b)))
}

/// The identifier of the first entry from `i` on whose text reports the same crash as `s`.
pub open spec fn known_from(s: Seq<char>, registry: Seq<(String, String)>, i: int) -> Option<
    Seq<char>,
>
    decreases registry.len() - i,
{
    if i < 0 || i >= registry.len() {
        None
    } else if same_crash(s, registry[i].1@) {
        Some(registry[i].0@)
    } else {
        known_from(s, registry, i + 1)
    }
}

/// The identifier of the first registry entry that reports the same crash as `s`.
pub open spec fn known(s: Seq<char>, registry: Seq<(String, String)>) -> Option<Seq<char>> {
    known_from(s, registry, 0)
}

fn equal_opt(a: &Option<String>, b: &Option<String>) -> (r: bool)
    ensures
        r == (opt_view(*a) == opt_view(*b)),
{
    match (a, b) {
        (Some(x), Some(y)) => equal_chars(&to_chars(x.as_str()), &to_chars(y.as_str())),
        (None, None) => true,
        _ => false,
    }
}

/// The span of the first word of `m`.
fn first_token_span(m: &Vec<char>) -> (r: Option<(usize, usize)>)
    ensures
        r matches Some(p) ==> first_token(m@) == Some(m@.subrange(p.0 as int, p.1 as int)) && p.0
            < p.1 <= m.len(),
        r is None ==> first_token(m@) is None,
{
    let mut i: usize = 0;
    while i < m.len() && is_space(m[i])
        invariant
            i <= m.len(),
            token_start(m@, 0) == token_start(m@, i as int),
        decreases m.len() - i,
    {
        i = i + 1;
    }
    if i == m.len() {
        return None;
    }
    let mut j: usize = i;
    while j < m.len() && !is_space(m[j])
        invariant
            i <= j <= m.len(),
            i < m.len(),
            !is_ascii_white(m@[i as int]),
            token_end(m@, i as int) == token_end(m@, j as int),
        decreases m.len() - j,
    {
        j = j + 1;
    }
    Some((i, j))
}

fn is_space(c: char) -> (r: bool)
    ensures
        r == is_ascii_white(c),
{
    c == ' ' || c == '\t' || c == '\n' || c == '\x0C' || c == '\r'
}

/// Whether the first words of two messages tell two crashes apart.
fn messages_differ(ma: &Option<String>, mb: &Option<String>) -> (r: bool)
    ensures
        r == tokens_differ(opt_view(*ma), opt_view(*mb)),
{
    match (ma, mb) {
        (Some(a), Some(b)) => {
            let ca = to_chars(a.as_str());
            let cb = to_chars(b.as_str());
            match (first_token_span(&ca), first_token_span(&cb)) {
                (Some((x0, x1)), Some((y0, y1))) => {
                    let x = crate::text::slice(&ca, x0, x1);
                    let y = crate::text::slice(&cb, y0, y1);
                    let ex = x[0] == '`' || x[0] == '[';
                    let ey = y[0] == '`' || y[0] == '[';
                    !ex && !ey && !equal_chars(&x, &y)
                },
                _ => false,
            }
        },
        _ => false,
    }
}

/// Whether the diagnostics `l` and `r` report the same crash.
pub fn same(l: &str, r: &str) -> (res: bool)
    ensures
        res == same_crash(l@, r@),
{
    if equal_chars(&to_chars(l), &to_chars(r)) {
        return true;
    }
    let l_path = extract_file_path(l);
    let r_path = extract_file_path(r);
    let l_msg = extract_message(l);
    let r_msg = extract_message(r);
    let l_stack = extract_query_stack(l);
    let r_stack = extract_query_stack(r);
    l_path.is_some() && equal_opt(&l_path, &r_path) && equal_opt(&l_stack, &r_stack)
        && !messages_differ(&l_msg, &r_msg)
}

/// The identifier of the first entry of `registry` whose text reports the same crash as
/// `s`.
pub fn lookup_known(s: &str, registry: &[(String, String)]) -> (r: Option<String>)
    ensures
        opt_view(r) == known(s@, registry@),
{
    let mut k: usize = 0;
    while k < registry.len()
        invariant
            k <= registry@.len(),
            known(s@, registry@) == known_from(s@, registry@, k as int),
        decreases registry@.len() - k,
    {
        if same(s, registry[k].1.as_str()) {
            return Some(registry[k].0.clone());
        }
        k = k + 1;
    }
    None
}

/// Every diagnostic reports the same crash as itself.
pub proof fn lemma_same_reflexive(x: Seq<char>)
    ensures
        same_crash(x, x),
{
}

} // verus!
