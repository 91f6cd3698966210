//! Mathematical model of fossil collection: the collector's two sets, and
//! what a pass over a sequence of chunks (each one an ID or an error) does.
use crate::FossilDeletionError;
use vstd::prelude::*;

verus! {

/// The chunks that a collector has seen referenced, and those it has seen
/// only in pruned archives.
#[verifier::reject_recursive_types(C)]
pub struct CollectorState<C> {
    pub referenced: Set<C>,
    pub unreferenced: Set<C>,
}

impl<C> CollectorState<C> {
    pub open spec fn empty() -> CollectorState<C> {
        CollectorState { referenced: Set::empty(), unreferenced: Set::empty() }
    }

    /// No chunk is both referenced and unreferenced.
    pub open spec fn wf(self) -> bool {
        self.referenced.disjoint(self.unreferenced)
    }

    /// The chunk becomes referenced, and leaves the unreferenced set.
    pub open spec fn retain(self, c: C) -> CollectorState<C> {
        CollectorState { referenced: self.referenced.insert(c), unreferenced: self.unreferenced.remove(c) }
    }

    /// The chunk becomes unreferenced, unless it is referenced.
    pub open spec fn prune(self, c: C) -> CollectorState<C> {
        if self.referenced.contains(c) {
            self
        } else {
            CollectorState { referenced: self.referenced, unreferenced: self.unreferenced.insert(c) }
        }
    }

    /// One chunk of a kept (`keep`) or a pruned archive.
    pub open spec fn step(self, c: C, keep: bool) -> CollectorState<C> {
        if keep {
            self.retain(c)
        } else {
            self.prune(c)
        }
    }
}

/// What a pass over a sequence of chunks yields: the chunks are taken in order
/// until the first error, which ends the pass.
pub open spec fn run_outcome<T, E>(s: Seq<Result<T, E>>) -> Result<(), E>
    decreases s.len(),
{
    if s.len() == 0 {
        Ok(())
    } else {
        match s[0] {
            Ok(_) => run_outcome(s.drop_first()),
            Err(e) => Err(e),
        }
    }
}

/// The collector's state after a pass over the chunks of a kept (`keep`) or a
/// pruned archive; the chunks after the first error are not seen.
pub open spec fn collect_run<C, E>(st: CollectorState<C>, s: Seq<Result<C, E>>, keep: bool) -> CollectorState<C>
    decreases s.len(),
{
    if s.len() == 0 {
        st
    } else {
        match s[0] {
            Ok(c) => collect_run(st.step(c, keep), s.drop_first(), keep),
            Err(_) => st,
        }
    }
}

/// A set of chunks after a pass that adds each chunk up to the first error.
pub open spec fn gather_run<C, E>(acc: Set<C>, s: Seq<Result<C, E>>) -> Set<C>
    decreases s.len(),
{
    if s.len() == 0 {
        acc
    } else {
        match s[0] {
            Ok(c) => gather_run(acc.insert(c), s.drop_first()),
            Err(_) => acc,
        }
    }
}

/// The verdict of the quiescence check over a listing of clients: the
/// clients are taken in order; a listing error ends the check with that error,
/// and a client outside `valid` ends it as uncollectible.
pub open spec fn quiescence<C, E, A>(valid: Set<C>, s: Seq<Result<C, E>>) -> Result<(), FossilDeletionError<E, A>>
    decreases s.len(),
{
    if s.len() == 0 {
        Ok(())
    } else {
        match s[0] {
            Ok(c) => if valid.contains(c) {
                quiescence(valid, s.drop_first())
            } else {
                Err(FossilDeletionError::Uncollectible)
            },
            Err(e) => Err(FossilDeletionError::Repository(e)),
        }
    }
}

/// Unfolds the quiescence check one client at position `i`.
pub(crate) proof fn lemma_quiescence_unfold<C, E, A>(valid: Set<C>, s: Seq<Result<C, E>>, i: int)
    requires
        0 <= i < s.len(),
    ensures
        quiescence::<C, E, A>(valid, s.skip(i)) == match s[i] {
            Ok(c) => if valid.contains(c) {
                quiescence::<C, E, A>(valid, s.skip(i + 1))
            } else {
                Err(FossilDeletionError::Uncollectible)
            },
            Err(e) => Err(FossilDeletionError::Repository(e)),
        },
{
    assert(s.skip(i).drop_first() =~= s.skip(i + 1));
}

/// Unfolds the three passes one element at position `i`.
pub(crate) proof fn lemma_run_unfold<C, E>(st: CollectorState<C>, acc: Set<C>, s: Seq<Result<C, E>>, i: int, keep: bool)
    requires
        0 <= i < s.len(),
    ensures
        s.skip(i).drop_first() == s.skip(i + 1),
        s.skip(i)[0] == s[i],
        run_outcome(s.skip(i)) == match s[i] {
            Ok(_) => run_outcome(s.skip(i + 1)),
            Err(e) => Err(e),
        },
        collect_run(st, s.skip(i), keep) == match s[i] {
            Ok(c) => collect_run(st.step(c, keep), s.skip(i + 1), keep),
            Err(_) => st,
        },
        gather_run(acc, s.skip(i)) == match s[i] {
            Ok(c) => gather_run(acc.insert(c), s.skip(i + 1)),
            Err(_) => acc,
        },
{
    assert(s.skip(i).drop_first() =~= s.skip(i + 1));
}

/// A listing whose set of chunks is empty is itself empty.
pub proof fn lemma_empty_listing<C>(s: Seq<C>)
    requires
        s.to_set() == Set::<C>::empty(),
    ensures
        s.len() == 0,
{
    if s.len() > 0 {
        assert(s.to_set().contains(s[0]));
    }
}

/// The chunks that a pass takes in: those listed before the first error.
pub open spec fn listed_chunks<C, E>(s: Seq<Result<C, E>>) -> Set<C>
    decreases s.len(),
{
    if s.len() == 0 {
        Set::empty()
    } else {
        match s[0] {
            Ok(c) => listed_chunks(s.drop_first()).insert(c),
            Err(_) => Set::empty(),
        }
    }
}

/// A pass over a kept archive adds its listed chunks to the referenced ones
/// and takes them out of the unreferenced ones.
pub proof fn lemma_retain_run<C, E>(st: CollectorState<C>, s: Seq<Result<C, E>>)
    ensures
        collect_run(st, s, true) == (CollectorState {
            referenced: st.referenced.union(listed_chunks(s)),
            unreferenced: st.unreferenced.difference(listed_chunks(s)),
        }),
    decreases s.len(),
{
    if s.len() > 0 {
        if let Ok(c) = s[0] {
            lemma_retain_run(st.retain(c), s.drop_first());
        }
        assert(st.referenced.union(listed_chunks(s)) =~= collect_run(st, s, true).referenced);
        assert(st.unreferenced.difference(listed_chunks(s)) =~= collect_run(st, s, true).unreferenced);
    } else {
        assert(st.referenced.union(listed_chunks(s)) =~= st.referenced);
        assert(st.unreferenced.difference(listed_chunks(s)) =~= st.unreferenced);
    }
}

/// A pass over a pruned archive leaves the referenced chunks as they are and
/// adds to the unreferenced ones only listed chunks; it changes nothing when
/// every listed chunk is referenced already.
pub proof fn lemma_prune_run<C, E>(st: CollectorState<C>, s: Seq<Result<C, E>>)
    ensures
        collect_run(st, s, false).referenced == st.referenced,
        collect_run(st, s, false).unreferenced.subset_of(st.unreferenced.union(listed_chunks(s))),
        st.unreferenced.subset_of(collect_run(st, s, false).unreferenced),
        listed_chunks(s).subset_of(st.referenced) ==> collect_run(st, s, false) == st,
    decreases s.len(),
{
    if s.len() > 0 {
        if let Ok(c) = s[0] {
            lemma_prune_run(st.prune(c), s.drop_first());
        }
    }
}

/// The collector's invariant: any pass keeps the referenced and the
/// unreferenced chunks disjoint, and a chunk once referenced stays
/// referenced.
pub proof fn lemma_run_keeps_invariant<C, E>(st: CollectorState<C>, s: Seq<Result<C, E>>, keep: bool)
    requires
        st.wf(),
    ensures
        collect_run(st, s, keep).wf(),
        st.referenced.subset_of(collect_run(st, s, keep).referenced),
    decreases s.len(),
{
    if s.len() > 0 {
        if let Ok(c) = s[0] {
            lemma_run_keeps_invariant(st.step(c, keep), s.drop_first(), keep);
        }
    }
}

/// A collection pass that only keeps an archive leaves no fossil candidate.
pub proof fn lemma_kept_only_leaves_no_candidates<C, E>(s: Seq<Result<C, E>>)
    ensures
        collect_run(CollectorState::empty(), s, true).unreferenced == Set::<C>::empty(),
{
    lemma_retain_run(CollectorState::<C>::empty(), s);
    assert(collect_run(CollectorState::empty(), s, true).unreferenced =~= Set::<C>::empty());
}

/// An archive both kept and pruned leaves no fossil candidate, whichever of
/// the two passes comes first: kept dominates pruned.
pub proof fn lemma_kept_dominates_pruned<C, E>(s: Seq<Result<C, E>>)
    ensures
        collect_run(collect_run(CollectorState::empty(), s, true), s, false).unreferenced
            == Set::<C>::empty(),
        collect_run(collect_run(CollectorState::empty(), s, false), s, true).unreferenced
            == Set::<C>::empty(),
{
    let e = CollectorState::<C>::empty();
    lemma_retain_run(e, s);
    let kept = collect_run(e, s, true);
    assert(listed_chunks(s).subset_of(kept.referenced));
    lemma_prune_run(kept, s);
    assert(kept.unreferenced =~= Set::<C>::empty());
    lemma_prune_run(e, s);
    let pruned = collect_run(e, s, false);
    lemma_retain_run(pruned, s);
    assert(collect_run(pruned, s, true).unreferenced =~= Set::<C>::empty());
}

/// A pass over the listings of several archives, all kept (`keep`) or all
/// pruned, in order: the first listing that holds an error ends the pass with
/// that error, after taking the chunks listed before it.
pub open spec fn pass_run<C, E>(st: CollectorState<C>, ls: Seq<Seq<Result<C, E>>>, keep: bool) -> (
    CollectorState<C>,
    Result<(), E>,
)
    decreases ls.len(),
{
    if ls.len() == 0 {
        (st, Ok(()))
    } else {
        match run_outcome(ls[0]) {
            Ok(_) => pass_run(collect_run(st, ls[0], keep), ls.drop_first(), keep),
            Err(e) => (collect_run(st, ls[0], keep), Err(e)),
        }
    }
}

/// A collection pass: the kept listings, then, unless they failed, the
/// pruned ones, from an empty collector. The fossil candidates are the
/// unreferenced chunks of the resulting state.
pub open spec fn collection_outcome<C, E>(kept: Seq<Seq<Result<C, E>>>, pruned: Seq<Seq<Result<C, E>>>) -> (
    CollectorState<C>,
    Result<(), E>,
) {
    let k = pass_run(CollectorState::empty(), kept, true);
    if k.1 is Ok {
        pass_run(k.0, pruned, false)
    } else {
        k
    }
}

/// Unfolds a pass over several listings at position `i`.
pub(crate) proof fn lemma_pass_unfold<C, E>(st: CollectorState<C>, ls: Seq<Seq<Result<C, E>>>, i: int, keep: bool)
    requires
        0 <= i < ls.len(),
    ensures
        pass_run(st, ls.skip(i), keep) == match run_outcome(ls[i]) {
            Ok(_) => pass_run(collect_run(st, ls[i], keep), ls.skip(i + 1), keep),
            Err(e) => (collect_run(st, ls[i], keep), Err(e)),
        },
{
    assert(ls.skip(i).drop_first() =~= ls.skip(i + 1));
}

/// Collecting with one kept archive and nothing pruned leaves no fossil
/// candidate.
pub proof fn lemma_collect_kept_only<C, E>(s: Seq<Result<C, E>>)
    ensures
        collection_outcome(seq![s], Seq::empty()).0.unreferenced == Set::<C>::empty(),
{
    let ls = seq![s];
    assert(ls.drop_first() =~= Seq::<Seq<Result<C, E>>>::empty());
    reveal_with_fuel(pass_run, 2);
    lemma_kept_only_leaves_no_candidates(s);
}

/// Collecting with one archive both kept and pruned leaves no fossil
/// candidate: kept dominates pruned.
pub proof fn lemma_collect_kept_and_pruned<C, E>(s: Seq<Result<C, E>>)
    ensures
        collection_outcome(seq![s], seq![s]).0.unreferenced == Set::<C>::empty(),
{
    let ls = seq![s];
    assert(ls.drop_first() =~= Seq::<Seq<Result<C, E>>>::empty());
    reveal_with_fuel(pass_run, 2);
    lemma_kept_only_leaves_no_candidates(s);
    lemma_kept_dominates_pruned(s);
}

/// A pass over several listings keeps the collector's invariant and never
/// drops a referenced chunk.
pub proof fn lemma_pass_keeps_invariant<C, E>(st: CollectorState<C>, ls: Seq<Seq<Result<C, E>>>, keep: bool)
    requires
        st.wf(),
    ensures
        pass_run(st, ls, keep).0.wf(),
        st.referenced.subset_of(pass_run(st, ls, keep).0.referenced),
    decreases ls.len(),
{
    if ls.len() > 0 {
        lemma_run_keeps_invariant(st, ls[0], keep);
        lemma_pass_keeps_invariant(collect_run(st, ls[0], keep), ls.drop_first(), keep);
    }
}

/// A successful pass over kept listings references every chunk they list.
pub proof fn lemma_kept_pass_references<C, E>(st: CollectorState<C>, ls: Seq<Seq<Result<C, E>>>)
    requires
        st.wf(),
        pass_run(st, ls, true).1 is Ok,
    ensures
        forall|i: int| 0 <= i < ls.len() ==> #[trigger] listed_chunks(ls[i]).subset_of(
            pass_run(st, ls, true).0.referenced,
        ),
    decreases ls.len(),
{
    if ls.len() > 0 {
        let next = collect_run(st, ls[0], true);
        lemma_retain_run(st, ls[0]);
        lemma_run_keeps_invariant(st, ls[0], true);
        lemma_pass_keeps_invariant(next, ls.drop_first(), true);
        lemma_kept_pass_references(next, ls.drop_first());
        assert forall|i: int| 0 <= i < ls.len() implies #[trigger] listed_chunks(ls[i]).subset_of(
            pass_run(st, ls, true).0.referenced,
        ) by {
            if i > 0 {
                assert(ls[i] == ls.drop_first()[i - 1]);
            }
        }
    }
}

/// Kept dominates pruned: after a successful collection pass, no chunk that a
/// kept archive lists is a fossil candidate, whatever the pruned archives
/// list.
pub proof fn lemma_kept_chunks_never_candidates<C, E>(kept: Seq<Seq<Result<C, E>>>, pruned: Seq<Seq<Result<C, E>>>)
    requires
        collection_outcome(kept, pruned).1 is Ok,
    ensures
        forall|i: int, c: C|
            0 <= i < kept.len() && #[trigger] listed_chunks(kept[i]).contains(c)
                ==> !collection_outcome(kept, pruned).0.unreferenced.contains(c),
{
    let e = CollectorState::<C>::empty();
    assert(e.wf());
    let k = pass_run(e, kept, true);
    lemma_pass_keeps_invariant(e, kept, true);
    lemma_kept_pass_references(e, kept);
    lemma_pass_keeps_invariant(k.0, pruned, false);
    assert forall|i: int, c: C|
        0 <= i < kept.len() && #[trigger] listed_chunks(kept[i]).contains(c)
            implies !collection_outcome(kept, pruned).0.unreferenced.contains(c) by {
        assert(listed_chunks(kept[i]).subset_of(k.0.referenced));
    }
}

/// Membership in a growing prefix of a sequence.
pub proof fn lemma_take_push_contains<T>(s: Seq<T>, i: int)
    requires
        0 <= i < s.len(),
    ensures
        forall|x: T| #[trigger] s.take(i + 1).contains(x) <==> (s.take(i).contains(x) || x == s[i]),
{
    assert forall|x: T| #[trigger] s.take(i + 1).contains(x) <==> (s.take(i).contains(x) || x == s[i]) by {
        if s.take(i).contains(x) {
            let j = choose|j: int| 0 <= j < s.take(i).len() && #[trigger] s.take(i)[j] == x;
            assert(s.take(i + 1)[j] == x);
        }
        if x == s[i] {
            assert(s.take(i + 1)[i] == x);
        }
        if s.take(i + 1).contains(x) {
            let j = choose|j: int| 0 <= j < s.take(i + 1).len() && #[trigger] s.take(i + 1)[j] == x;
            if j < i {
                assert(s.take(i)[j] == x);
            }
        }
    }
}

} // verus!
