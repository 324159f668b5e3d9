//! The decisions of a corpus run: each candidate, in order, is judged against the registry
//! and against the crashes first seen earlier in the same run.
use vstd::prelude::*;

use crate::classify::{
    contains_any, ice_markers, internal_code_markers, internal_output_markers, is_ice,
    uses_internal_features,
};
use crate::compare::{known, lookup_known, same, same_crash};
use crate::fingerprint::opt_view;

verus! {

/// What a corpus run decides for one candidate.
pub enum ClassificationOutcome {
    /// The program or its diagnostic involves compiler-internal features; it stays where it
    /// is.
    ExcludedInternal,
    /// The compiler did not crash.
    NotAFailure,
    /// A crash of the registry, with that entry's identifier.
    DuplicateOfKnown(String),
    /// A crash first seen earlier in this run, with the path of that candidate.
    DuplicateOfSeen(String),
    /// A crash not seen before; the candidate stays as its example.
    Unique,
}

/// The mathematical value of a `ClassificationOutcome`.
pub enum Verdict {
    ExcludedInternal,
    NotAFailure,
    DuplicateOfKnown(Seq<char>),
    DuplicateOfSeen(Seq<char>),
    Unique,
}

impl View for ClassificationOutcome {
    type V = Verdict;

    open spec fn view(&self) -> Verdict {
        match self {
            ClassificationOutcome::ExcludedInternal => Verdict::ExcludedInternal,
            ClassificationOutcome::NotAFailure => Verdict::NotAFailure,
            ClassificationOutcome::DuplicateOfKnown(id) => Verdict::DuplicateOfKnown(id@),
            ClassificationOutcome::DuplicateOfSeen(p) => Verdict::DuplicateOfSeen(p@),
            ClassificationOutcome::Unique => Verdict::Unique,
        }
    }
}

/// A candidate whose verdict leaves it in place.
pub open spec fn stays(v: Verdict) -> bool {
    v is ExcludedInternal || v is Unique
}

/// The path of the first crash from position `i` of `uniques` that `diag` duplicates.
pub open spec fn seen_from(uniques: Seq<(Seq<char>, Seq<char>)>, diag: Seq<char>, i: int) -> Option<
    Seq<char>,
>
    decreases uniques.len() - i,
{
    if i < 0 || i >= uniques.len() {
        None
    } else if same_crash(diag, uniques[i].1) {
        Some(uniques[i].0)
    } else {
        seen_from(uniques, diag, i + 1)
    }
}

/// The verdict on a compiled candidate with diagnostic `diag`.
pub open spec fn decide(
    uniques: Seq<(Seq<char>, Seq<char>)>,
    diag: Seq<char>,
    registry: Seq<(String, String)>,
) -> Verdict {
    if !contains_any(diag, ice_markers()) {
        Verdict::NotAFailure
    } else if contains_any(diag, internal_output_markers()) {
        Verdict::ExcludedInternal
    } else {
        match known(diag, registry) {
            Some(id) => Verdict::DuplicateOfKnown(id),
            None => match seen_from(uniques, diag, 0) {
                Some(p) => Verdict::DuplicateOfSeen(p),
                None => Verdict::Unique,
            },
        }
    }
}

/// The first-seen crashes after a candidate `path` with diagnostic `diag` got verdict `v`.
pub open spec fn next_uniques(
    uniques: Seq<(Seq<char>, Seq<char>)>,
    path: Seq<char>,
    diag: Seq<char>,
    v: Verdict,
) -> Seq<(Seq<char>, Seq<char>)> {
    if v is Unique {
        uniques.push((path, diag))
    } else {
        uniques
    }
}

/// A candidate of a corpus: its path, its source text, and the diagnostic that compiling it
/// gives.
pub struct Candidate {
    pub path: Seq<char>,
    pub source: Seq<char>,
    pub diagnostic: Seq<char>,
}

/// The verdict on a candidate; a source that uses internal features is not compiled.
pub open spec fn verdict(
    uniques: Seq<(Seq<char>, Seq<char>)>,
    c: Candidate,
    registry: Seq<(String, String)>,
) -> Verdict {
    if contains_any(c.source, internal_code_markers()) {
        Verdict::ExcludedInternal
    } else {
        decide(uniques, c.diagnostic, registry)
    }
}

/// The verdicts of a run over `cands`, in order, starting from the first-seen crashes
/// `uniques`.
pub open spec fn run_from(
    cands: Seq<Candidate>,
    registry: Seq<(String, String)>,
    uniques: Seq<(Seq<char>, Seq<char>)>,
) -> Seq<Verdict>
    decreases cands.len(),
{
    if cands.len() == 0 {
        Seq::empty()
    } else {
        let c = cands[0];
        let v = verdict(uniques, c, registry);
        seq![v] + run_from(
            cands.drop_first(),
            registry,
            next_uniques(uniques, c.path, c.diagnostic, v),
        )
    }
}

/// The verdicts of a whole corpus run.
pub open spec fn run(cands: Seq<Candidate>, registry: Seq<(String, String)>) -> Seq<Verdict> {
    run_from(cands, registry, Seq::empty())
}

/// The candidates that a run with verdicts `vs` leaves in place, in order.
pub open spec fn kept(cands: Seq<Candidate>, vs: Seq<Verdict>) -> Seq<Candidate>
    decreases cands.len(),
{
    if cands.len() == 0 || vs.len() == 0 {
        Seq::empty()
    } else if stays(vs[0]) {
        seq![cands[0]] + kept(cands.drop_first(), vs.drop_first())
    } else {
        kept(cands.drop_first(), vs.drop_first())
    }
}

/// A run gives each candidate exactly one verdict, in the candidates' order.
pub proof fn lemma_run_total(
    cands: Seq<Candidate>,
    registry: Seq<(String, String)>,
    uniques: Seq<(Seq<char>, Seq<char>)>,
)
    ensures
        run_from(cands, registry, uniques).len() == cands.len(),
        cands.len() > 0 ==> run_from(cands, registry, uniques)[0] == verdict(
            uniques,
            cands[0],
            registry,
        ),
    decreases cands.len(),
{
    if cands.len() > 0 {
        let c = cands[0];
        let v = verdict(uniques, c, registry);
        lemma_run_total(
            cands.drop_first(),
            registry,
            next_uniques(uniques, c.path, c.diagnostic, v),
        );
    }
}

/// Running again over what a run left in place, from the same first-seen crashes, moves
/// nothing: every candidate stays.
pub proof fn lemma_rerun_from_moves_nothing(
    cands: Seq<Candidate>,
    registry: Seq<(String, String)>,
    uniques: Seq<(Seq<char>, Seq<char>)>,
)
    ensures
        forall|k: int|
            0 <= k < run_from(kept(cands, run_from(cands, registry, uniques)), registry, uniques).len()
                ==> stays(
                #[trigger] run_from(kept(cands, run_from(cands, registry, uniques)), registry, uniques)[k],
            ),
    decreases cands.len(),
{
    if cands.len() > 0 {
        let c = cands[0];
        let v = verdict(uniques, c, registry);
        let u2 = next_uniques(uniques, c.path, c.diagnostic, v);
        let rest = cands.drop_first();
        let vs = run_from(cands, registry, uniques);
        lemma_run_total(cands, registry, uniques);
        lemma_run_total(rest, registry, u2);
        assert(vs.drop_first() =~= run_from(rest, registry, u2));
        lemma_rerun_from_moves_nothing(rest, registry, u2);
        let tail = kept(rest, run_from(rest, registry, u2));
        if stays(v) {
            let ks = seq![c] + tail;
            assert(kept(cands, vs) == ks);
            assert(ks[0] == c);
            assert(ks.drop_first() =~= tail);
            let second = run_from(ks, registry, uniques);
            assert(second =~= seq![v] + run_from(tail, registry, u2));
        } else {
            assert(u2 == uniques);
            assert(kept(cands, vs) == tail);
        }
    }
}

/// Running the deduplication again over the candidates that a first run left in place moves
/// none of them.
pub proof fn lemma_rerun_moves_nothing(cands: Seq<Candidate>, registry: Seq<(String, String)>)
    ensures
        forall|k: int|
            0 <= k < run(kept(cands, run(cands, registry)), registry).len() ==> stays(
                #[trigger] run(kept(cands, run(cands, registry)), registry)[k],
            ),
{
    lemma_rerun_from_moves_nothing(cands, registry, Seq::empty());
}

/// The first-seen crashes after the first `k` candidates of `cands`, starting from
/// `uniques`.
pub open spec fn uniques_after(
    cands: Seq<Candidate>,
    registry: Seq<(String, String)>,
    uniques: Seq<(Seq<char>, Seq<char>)>,
    k: nat,
) -> Seq<(Seq<char>, Seq<char>)>
    decreases k,
{
    if k == 0 || cands.len() == 0 {
        uniques
    } else {
        let c = cands[0];
        let v = verdict(uniques, c, registry);
        uniques_after(
            cands.drop_first(),
            registry,
            next_uniques(uniques, c.path, c.diagnostic, v),
            (k - 1) as nat,
        )
    }
}

proof fn lemma_run_from_each(
    cands: Seq<Candidate>,
    registry: Seq<(String, String)>,
    uniques: Seq<(Seq<char>, Seq<char>)>,
    k: int,
)
    requires
        0 <= k < cands.len(),
    ensures
        run_from(cands, registry, uniques)[k] == verdict(
            uniques_after(cands, registry, uniques, k as nat),
            cands[k],
            registry,
        ),
    decreases k,
{
    lemma_run_total(cands, registry, uniques);
    if k > 0 {
        let c = cands[0];
        let v = verdict(uniques, c, registry);
        let u2 = next_uniques(uniques, c.path, c.diagnostic, v);
        lemma_run_total(cands.drop_first(), registry, u2);
        lemma_run_from_each(cands.drop_first(), registry, u2, k - 1);
    }
}

/// A run visits the candidates once each, in order: it gives each exactly one verdict, the
/// one its own source and diagnostic get against the crashes first seen before it, and so
/// exactly one place.
pub proof fn lemma_every_candidate_placed(cands: Seq<Candidate>, registry: Seq<(String, String)>)
    ensures
        run(cands, registry).len() == cands.len(),
        forall|k: int|
            0 <= k < cands.len() ==> #[trigger] run(cands, registry)[k] == verdict(
                uniques_after(cands, registry, Seq::empty(), k as nat),
                cands[k],
                registry,
            ),
{
    lemma_run_total(cands, registry, Seq::empty());
    assert forall|k: int| 0 <= k < cands.len() implies #[trigger] run(cands, registry)[k]
        == verdict(uniques_after(cands, registry, Seq::empty(), k as nat), cands[k], registry) by {
        lemma_run_from_each(cands, registry, Seq::empty(), k);
    }
}

/// The crashes first seen in the current run, in the order they were seen: the path of each
/// and its diagnostic.
pub struct RunState {
    uniques: Vec<(String, String)>,
}

impl View for RunState {
    type V = Seq<(Seq<char>, Seq<char>)>;

    closed spec fn view(&self) -> Seq<(Seq<char>, Seq<char>)> {
        self.uniques@.map_values(|e: (String, String)| (e.0@, e.1@))
    }
}

impl RunState {
    /// The state at the start of a run: nothing seen yet.
    pub fn new() -> (r: Self)
        ensures
            r@ == Seq::<(Seq<char>, Seq<char>)>::empty(),
    {
        let r = RunState { uniques: Vec::new() };
        assert(r@ =~= Seq::<(Seq<char>, Seq<char>)>::empty());
        r
    }

    /// The number of crashes first seen so far.
    pub fn len(&self) -> (r: usize)
        ensures
            r == self@.len(),
    {
        self.uniques.len()
    }

    /// The path of the first crash seen so far that `diagnostic` duplicates.
    pub fn first_seen(&self, diagnostic: &str) -> (r: Option<String>)
        ensures
            opt_view(r) == seen_from(self@, diagnostic@, 0),
    {
        let mut k: usize = 0;
        while k < self.uniques.len()
            invariant
                k <= self.uniques.len(),
                self@.len() == self.uniques.len(),
                seen_from(self@, diagnostic@, 0) == seen_from(self@, diagnostic@, k as int),
            decreases self.uniques.len() - k,
        {
            assert(self@[k as int] == (self.uniques@[k as int].0@, self.uniques@[k as int].1@));
            if same(diagnostic, self.uniques[k].1.as_str()) {
                return Some(self.uniques[k].0.clone());
            }
            k = k + 1;
        }
        None
    }

    /// Judges the compiled candidate `path`, whose compilation printed `diagnostic`, and
    /// records it when its crash is new.
    pub fn classify(&mut self, path: &str, diagnostic: &str, registry: &[(String, String)]) -> (r:
        ClassificationOutcome)
        ensures
            r@ == decide(old(self)@, diagnostic@, registry@),
            final(self)@ == next_uniques(old(self)@, path@, diagnostic@, r@),
    {
        if !is_ice(diagnostic) {
            return ClassificationOutcome::NotAFailure;
        }
        if uses_internal_features(diagnostic) {
            return ClassificationOutcome::ExcludedInternal;
        }
        if let Some(id) = lookup_known(diagnostic, registry) {
            return ClassificationOutcome::DuplicateOfKnown(id);
        }
        if let Some(p) = self.first_seen(diagnostic) {
            return ClassificationOutcome::DuplicateOfSeen(p);
        }
        let ghost before = self@;
        self.uniques.push((path.to_owned(), diagnostic.to_owned()));
        assert(self@ =~= before.push((path@, diagnostic@)));
        ClassificationOutcome::Unique
    }
}

/// The subdirectory that a candidate with outcome `o` moves to; `None` where it stays.
pub fn destination_dir(o: &ClassificationOutcome) -> (r: Option<&'static str>)
    ensures
        r is None <==> stays(o@),
        o@ is NotAFailure ==> r == Some("ok"),
        o@ is DuplicateOfKnown ==> r == Some("known"),
        o@ is DuplicateOfSeen ==> r == Some("dups"),
{
    match o {
        ClassificationOutcome::NotAFailure => Some("ok"),
        ClassificationOutcome::DuplicateOfKnown(_) => Some("known"),
        ClassificationOutcome::DuplicateOfSeen(_) => Some("dups"),
        _ => None,
    }
}

} // verus!
