//! The order in which a corpus run visits its candidates: names compared character by
//! character.
use vstd::prelude::*;

use crate::text::to_chars;

verus! {

/// `a` is not after `b` when both are compared from position `i` on, character by character
/// by code point, a proper prefix coming first.
pub open spec fn lex_le_from(a: Seq<char>, b: Seq<char>, i: int) -> bool
    decreases a.len() - i,
{
    if i < 0 || i >= a.len() {
        true
    } else if i >= b.len() {
        false
    } else if a[i] != b[i] {
        a[i] < b[i]
    } else {
        lex_le_from(a, b, i + 1)
    }
}

/// `a` is not after `b` in lexicographic order.
pub open spec fn lex_le(a: Seq<char>, b: Seq<char>) -> bool {
    lex_le_from(a, b, 0)
}

pub open spec fn names_of(v: Seq<String>) -> Seq<Seq<char>> {
    v.map_values(|s: String| s@)
}

pub open spec fn sorted(ns: Seq<Seq<char>>) -> bool {
    forall|i: int, j: int| 0 <= i < j < ns.len() ==> lex_le(#[trigger] ns[i], #[trigger] ns[j])
}

proof fn lemma_lex_total(a: Seq<char>, b: Seq<char>, i: int)
    requires
        0 <= i,
    ensures
        lex_le_from(a, b, i) || lex_le_from(b, a, i),
    decreases a.len() - i,
{
    if i < a.len() && i < b.len() && a[i] == b[i] {
        lemma_lex_total(a, b, i + 1);
    }
}

proof fn lemma_lex_trans(a: Seq<char>, b: Seq<char>, c: Seq<char>, i: int)
    requires
        0 <= i,
        lex_le_from(a, b, i),
        lex_le_from(b, c, i),
    ensures
        lex_le_from(a, c, i),
    decreases a.len() - i,
{
    if i < a.len() && a[i] == b[i] && b[i] == c[i] {
        lemma_lex_trans(a, b, c, i + 1);
    }
}

/// Whether `a` is not after `b`.
fn lex_le_chars(a: &Vec<char>, b: &Vec<char>) -> (r: bool)
    ensures
        r == lex_le(a@, b@),
{
    let mut i: usize = 0;
    while i < a.len()
        invariant
            i <= a.len(),
            lex_le(a@, b@) == lex_le_from(a@, b@, i as int),
        decreases a.len() - i,
    {
        if i >= b.len() {
            return false;
        }
        if a[i] != b[i] {
            return a[i] < b[i];
        }
        i = i + 1;
    }
    true
}

/// `names` in lexicographic order.
pub fn sort_names(names: &Vec<String>) -> (r: Vec<String>)
    ensures
        sorted(names_of(r@)),
        names_of(r@).to_multiset() == names_of(names@).to_multiset(),
{
    broadcast use vstd::seq_lib::group_to_multiset_ensures;

    let mut out: Vec<String> = Vec::new();
    let mut i: usize = 0;
    while i < names.len()
        invariant
            i <= names.len(),
            sorted(names_of(out@)),
            names_of(out@).to_multiset() == names_of(names@.subrange(0, i as int)).to_multiset(),
        decreases names.len() - i,
    {
        let name = names[i].clone();
        let key = to_chars(name.as_str());
        let mut pos: usize = 0;
        while pos < out.len() && lex_le_chars(&to_chars(out[pos].as_str()), &key)
            invariant
                pos <= out.len(),
                key@ == name@,
                forall|j: int| 0 <= j < pos ==> lex_le(#[trigger] names_of(out@)[j], key@),
            decreases out.len() - pos,
        {
            pos = pos + 1;
        }
        let ghost old_names = names_of(out@);
        proof {
            if pos < out.len() {
                lemma_lex_total(old_names[pos as int], key@, 0);
            }
        }
        out.insert(pos, name);
        let ghost new_names = names_of(out@);
        assert(new_names =~= old_names.insert(pos as int, key@));
        proof {
            vstd::seq_lib::to_multiset_insert(old_names, pos as int, key@);
            let prev = names_of(names@.subrange(0, i as int));
            assert(names_of(names@.subrange(0, i + 1)) =~= prev.push(key@));
            vstd::seq_lib::to_multiset_build(prev, key@);
            assert(new_names.to_multiset() == old_names.to_multiset().insert(key@));
            assert forall|a: int, b: int| 0 <= a < b < new_names.len() implies lex_le(
                #[trigger] new_names[a],
                #[trigger] new_names[b],
            ) by {
                if b < pos {
                } else if b == pos {
                } else if a < pos {
                    assert(new_names[b] == old_names[b - 1]);
                } else if a == pos {
                    assert(new_names[b] == old_names[b - 1]);
                    if b - 1 > pos {
                        assert(lex_le(old_names[pos as int], old_names[b - 1]));
                        lemma_lex_trans(key@, old_names[pos as int], old_names[b - 1], 0);
                    }
                } else {
                    assert(new_names[a] == old_names[a - 1]);
                    assert(new_names[b] == old_names[b - 1]);
                }
            }
        }
        i = i + 1;
    }
    assert(names@.subrange(0, names.len() as int) =~= names@);
    out
}

} // verus!
