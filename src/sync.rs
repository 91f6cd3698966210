//! The two-phase protocol over synchronous capabilities: fossil collection
//! and fossil deletion.
use crate::model::{
    collect_run, collection_outcome, gather_run, lemma_empty_listing, lemma_pass_unfold,
    lemma_quiescence_unfold, lemma_run_unfold, lemma_take_push_contains, pass_run, quiescence,
    run_outcome, CollectorState,
};
use crate::{Archive, Fossil, FossilCollection, FossilCollectionError, FossilCollector, FossilDeletionError, ValidClients};
use std::collections::HashSet;
use std::hash::Hash;
use vstd::prelude::*;
use vstd::std_specs::hash::obeys_key_model;

verus! {

/// An archive whose chunks can be listed synchronously.
pub trait SyncArchive: Archive {
    /// The ID each chunk receives from its content.
    type ChunkID;

    /// Error which can happen while listing chunks.
    type Error;

    /// What `chunks` lists.
    spec fn chunks_spec(&self) -> Vec<Result<Self::ChunkID, Self::Error>>;

    /// The chunks this archive is made of, in order; an error ends the
    /// listing where it stands.
    fn chunks(&self) -> (r: Vec<Result<Self::ChunkID, Self::Error>>)
        ensures
            r@ == self.chunks_spec()@,
    ;
}

/// Repository holding archives and their chunks.
///
/// A repository can be used concurrently by several clients, but each client
/// performs one operation at a time (archive creation, fossil collection or
/// fossil deletion).
pub trait SyncRepository: Sized {
    /// Type of archive stored in this repository.
    type Archive: SyncArchive;

    /// A unique ID for each archive.
    type ArchiveID;

    /// The ID of a fossil, derived from the chunk it was made from.
    type FossilID: Fossil<ChunkID = <Self::Archive as SyncArchive>::ChunkID>;

    /// Error which can happen while accessing the repository.
    type Error;

    /// What `clients` lists.
    spec fn clients_spec(&self) -> Vec<Result<<Self::Archive as Archive>::ClientID, Self::Error>>;

    /// What `archives` lists.
    spec fn archives_spec(&self) -> Vec<Result<Self::ArchiveID, Self::Error>>;

    /// What `archive` fetches for an ID.
    spec fn archive_spec(&self, id: Self::ArchiveID) -> Result<Self::Archive, Self::Error>;

    /// Every client which may write to the repository.
    fn clients(&self) -> (r: Vec<Result<<Self::Archive as Archive>::ClientID, Self::Error>>)
        ensures
            r@ == self.clients_spec()@,
    ;

    /// Every archive in the repository.
    fn archives(&self) -> (r: Vec<Result<Self::ArchiveID, Self::Error>>)
        ensures
            r@ == self.archives_spec()@,
    ;

    /// Fetch the archive with the given ID.
    fn archive(&self, id: &Self::ArchiveID) -> (r: Result<Self::Archive, Self::Error>)
        ensures
            r == self.archive_spec(*id),
    ;

    /// Whether the chunk is stored as a chunk.
    spec fn has_chunk(&self, c: <Self::Archive as SyncArchive>::ChunkID) -> bool;

    /// Whether a fossil made from the chunk is stored.
    spec fn has_fossil(&self, c: <Self::Archive as SyncArchive>::ChunkID) -> bool;

    /// Turn a chunk into a fossil. A missing chunk is no error: the fossil is
    /// taken as made and its ID returned. Only that chunk is touched, and the
    /// listings stay as they are.
    fn make_fossil(&mut self, chunk: &<Self::Archive as SyncArchive>::ChunkID) -> (r: Result<
        Self::FossilID,
        Self::Error,
    >)
        ensures
            final(self).clients_spec()@ == old(self).clients_spec()@,
            final(self).archives_spec()@ == old(self).archives_spec()@,
            forall|id: Self::ArchiveID| #[trigger] final(self).archive_spec(id) == old(self).archive_spec(id),
            forall|d: <Self::Archive as SyncArchive>::ChunkID|
                d != *chunk ==> #[trigger] final(self).has_chunk(d) == old(self).has_chunk(d)
                    && final(self).has_fossil(d) == old(self).has_fossil(d),
            r matches Ok(f) ==> {
                &&& f.original_spec() == *chunk
                &&& !final(self).has_chunk(*chunk)
                &&& final(self).has_fossil(*chunk) == (old(self).has_chunk(*chunk) || old(self).has_fossil(
                    *chunk,
                ))
            },
    ;

    /// Turn a fossil back into a chunk. A missing fossil is no error. Only the
    /// fossil's chunk is touched, and the listings stay as they are.
    fn recover_fossil(&mut self, fossil: &Self::FossilID) -> (r: Result<(), Self::Error>)
        ensures
            final(self).clients_spec()@ == old(self).clients_spec()@,
            final(self).archives_spec()@ == old(self).archives_spec()@,
            forall|id: Self::ArchiveID| #[trigger] final(self).archive_spec(id) == old(self).archive_spec(id),
            forall|d: <Self::Archive as SyncArchive>::ChunkID|
                d != fossil.original_spec() ==> #[trigger] final(self).has_chunk(d) == old(self).has_chunk(d)
                    && final(self).has_fossil(d) == old(self).has_fossil(d),
            r is Ok ==> {
                &&& !final(self).has_fossil(fossil.original_spec())
                &&& final(self).has_chunk(fossil.original_spec()) == (old(self).has_chunk(
                    fossil.original_spec(),
                ) || old(self).has_fossil(fossil.original_spec()))
            },
    ;

    /// Delete a fossil for good. A missing fossil is no error. Only the
    /// fossil's chunk is touched, and the listings stay as they are.
    fn delete_fossil(&mut self, fossil: &Self::FossilID) -> (r: Result<(), Self::Error>)
        ensures
            final(self).clients_spec()@ == old(self).clients_spec()@,
            final(self).archives_spec()@ == old(self).archives_spec()@,
            forall|id: Self::ArchiveID| #[trigger] final(self).archive_spec(id) == old(self).archive_spec(id),
            forall|d: <Self::Archive as SyncArchive>::ChunkID|
                d != fossil.original_spec() ==> #[trigger] final(self).has_chunk(d) == old(self).has_chunk(d)
                    && final(self).has_fossil(d) == old(self).has_fossil(d),
            r is Ok ==> {
                &&& !final(self).has_fossil(fossil.original_spec())
                &&& final(self).has_chunk(fossil.original_spec()) == old(self).has_chunk(fossil.original_spec())
            },
    ;
}

/// The two repositories list the same clients and archives.
pub open spec fn same_listings<R: SyncRepository>(o: R, n: R) -> bool {
    &&& n.clients_spec()@ == o.clients_spec()@
    &&& n.archives_spec()@ == o.archives_spec()@
    &&& forall|id: R::ArchiveID| #[trigger] n.archive_spec(id) == o.archive_spec(id)
}

/// The chunk is stored the same way in both repositories.
pub open spec fn untouched<R: SyncRepository>(o: R, n: R, c: <R::Archive as SyncArchive>::ChunkID) -> bool {
    n.has_chunk(c) == o.has_chunk(c) && n.has_fossil(c) == o.has_fossil(c)
}

/// The chunk, if stored in `o` as a chunk or a fossil, is a fossil in `n`.
pub open spec fn fossilised<R: SyncRepository>(o: R, n: R, c: <R::Archive as SyncArchive>::ChunkID) -> bool {
    !n.has_chunk(c) && n.has_fossil(c) == (o.has_chunk(c) || o.has_fossil(c))
}

/// The chunk, if stored in `o` as a chunk or a fossil, is a chunk in `n`.
pub open spec fn recovered<R: SyncRepository>(o: R, n: R, c: <R::Archive as SyncArchive>::ChunkID) -> bool {
    !n.has_fossil(c) && n.has_chunk(c) == (o.has_chunk(c) || o.has_fossil(c))
}

/// The chunk is recovered if `referenced` holds it, and deleted otherwise.
pub open spec fn resolved<R: SyncRepository>(
    o: R,
    n: R,
    referenced: Set<<R::Archive as SyncArchive>::ChunkID>,
    c: <R::Archive as SyncArchive>::ChunkID,
) -> bool {
    if referenced.contains(c) {
        recovered(o, n, c)
    } else {
        deleted(o, n, c)
    }
}

/// The chunk's fossil, if any, is gone for good in `n`.
pub open spec fn deleted<R: SyncRepository>(o: R, n: R, c: <R::Archive as SyncArchive>::ChunkID) -> bool {
    !n.has_fossil(c) && n.has_chunk(c) == o.has_chunk(c)
}

/// Fossilising a chunk that is already fossilised changes nothing: two
/// passes leave the repository as one does.
pub proof fn lemma_fossilise_idempotent<R: SyncRepository>(o: R, m: R, n: R, c: <R::Archive as SyncArchive>::ChunkID)
    requires
        fossilised(o, m, c),
        fossilised(m, n, c),
    ensures
        fossilised(o, n, c),
{
}

/// Recovering or deleting a fossil a second time, the same way, changes
/// nothing: a re-run after a success or a partial failure ends as one
/// uninterrupted run does.
pub proof fn lemma_resolve_idempotent<R: SyncRepository>(
    o: R,
    m: R,
    n: R,
    referenced: Set<<R::Archive as SyncArchive>::ChunkID>,
    c: <R::Archive as SyncArchive>::ChunkID,
)
    requires
        resolved(o, m, referenced, c),
        resolved(m, n, referenced, c),
    ensures
        resolved(o, n, referenced, c),
{
}

/// The listings of the kept archives, in order.
pub open spec fn kept_listings<'a, 'b, R: SyncRepository>(kept: Seq<(&'a R::ArchiveID, &'b R::Archive)>) -> Seq<
    Seq<Result<<R::Archive as SyncArchive>::ChunkID, <R::Archive as SyncArchive>::Error>>,
> {
    kept.map_values(|p: (&'a R::ArchiveID, &'b R::Archive)| p.1.chunks_spec()@)
}

/// The listings of the pruned archives, in order.
pub open spec fn pruned_listings<'b, R: SyncRepository>(pruned: Seq<&'b R::Archive>) -> Seq<
    Seq<Result<<R::Archive as SyncArchive>::ChunkID, <R::Archive as SyncArchive>::Error>>,
> {
    pruned.map_values(|a: &'b R::Archive| a.chunks_spec()@)
}

/// What the scan of the listed archives yields during fossil deletion: the
/// clients witnessed by archives outside `seen` created strictly after
/// `timestamp`, the chunks those archives list, and whether the scan
/// completed. The archive IDs are taken in order; the first failing listing,
/// fetch or chunk listing ends the scan with its error.
pub open spec fn scan_archives<R: SyncRepository>(
    repo: R,
    seen: Seq<&R::ArchiveID>,
    timestamp: u64,
    ids: Seq<Result<R::ArchiveID, R::Error>>,
    valid: Set<<R::Archive as Archive>::ClientID>,
    refs: Set<<R::Archive as SyncArchive>::ChunkID>,
) -> (
    Set<<R::Archive as Archive>::ClientID>,
    Set<<R::Archive as SyncArchive>::ChunkID>,
    Result<(), FossilDeletionError<R::Error, <R::Archive as SyncArchive>::Error>>,
)
    decreases ids.len(),
{
    if ids.len() == 0 {
        (valid, refs, Ok(()))
    } else {
        match ids[0] {
            Err(e) => (valid, refs, Err(FossilDeletionError::Repository(e))),
            Ok(id) => if seen.contains(&id) {
                scan_archives(repo, seen, timestamp, ids.drop_first(), valid, refs)
            } else {
                match repo.archive_spec(id) {
                    Err(e) => (valid, refs, Err(FossilDeletionError::Repository(e))),
                    Ok(a) => {
                        let l = a.chunks_spec()@;
                        match run_outcome(l) {
                            Err(e) => (valid, gather_run(refs, l), Err(FossilDeletionError::Archive(e))),
                            Ok(_) => scan_archives(
                                repo,
                                seen,
                                timestamp,
                                ids.drop_first(),
                                if a.created_spec() > timestamp {
                                    valid.insert(a.creator_spec())
                                } else {
                                    valid
                                },
                                gather_run(refs, l),
                            ),
                        }
                    },
                }
            },
        }
    }
}

proof fn lemma_scan_unfold<R: SyncRepository>(
    repo: R,
    seen: Seq<&R::ArchiveID>,
    timestamp: u64,
    ids: Seq<Result<R::ArchiveID, R::Error>>,
    i: int,
    valid: Set<<R::Archive as Archive>::ClientID>,
    refs: Set<<R::Archive as SyncArchive>::ChunkID>,
)
    requires
        0 <= i < ids.len(),
    ensures
        scan_archives(repo, seen, timestamp, ids.skip(i), valid, refs) == match ids[i] {
            Err(e) => (valid, refs, Err(FossilDeletionError::Repository(e))),
            Ok(id) => if seen.contains(&id) {
                scan_archives(repo, seen, timestamp, ids.skip(i + 1), valid, refs)
            } else {
                match repo.archive_spec(id) {
                    Err(e) => (valid, refs, Err(FossilDeletionError::Repository(e))),
                    Ok(a) => {
                        let l = a.chunks_spec()@;
                        match run_outcome(l) {
                            Err(e) => (valid, gather_run(refs, l), Err(FossilDeletionError::Archive(e))),
                            Ok(_) => scan_archives(
                                repo,
                                seen,
                                timestamp,
                                ids.skip(i + 1),
                                if a.created_spec() > timestamp {
                                    valid.insert(a.creator_spec())
                                } else {
                                    valid
                                },
                                gather_run(refs, l),
                            ),
                        }
                    },
                }
            },
        },
{
    assert(ids.skip(i).drop_first() =~= ids.skip(i + 1));
}

impl<C: Eq + Hash> FossilCollector<C> {
    fn take_chunks<E>(&mut self, chunks: Vec<Result<C, E>>, keep: bool) -> (r: Result<(), E>)
        requires
            obeys_key_model::<C>(),
            old(self).wf(),
        ensures
            final(self).wf(),
            final(self)@ == collect_run(old(self)@, chunks@, keep),
            r == run_outcome(chunks@),
    {
        let ghost s = chunks@;
        let ghost st0 = self@;
        proof {
            assert(s.skip(0) =~= s);
        }
        for item in it: chunks.into_iter()
            invariant
                it.seq() == s,
                st0 == old(self)@,
                self.wf(),
                obeys_key_model::<C>(),
                collect_run(st0, s, keep) == collect_run(self@, s.skip(it.index()), keep),
                run_outcome(s) == run_outcome(s.skip(it.index())),
        {
            proof {
                lemma_run_unfold(self@, Set::empty(), s, it.index(), keep);
            }
            match item {
                Ok(c) => {
                    if keep {
                        self.add_reference(c);
                    } else {
                        self.add_chunk(c);
                    }
                },
                Err(e) => {
                    assert(collect_run(self@, s.skip(it.index()), keep) == self@);
                    return Err(e);
                },
            }
        }
        proof {
            assert(s.skip(s.len() as int) =~= Seq::<Result<C, E>>::empty());
        }
        Ok(())
    }

    /// Mark the listed chunks of a kept archive referenced, in order, up to
    /// the first error, which is returned.
    pub fn retain_chunks<E>(&mut self, chunks: Vec<Result<C, E>>) -> (r: Result<(), E>)
        requires
            obeys_key_model::<C>(),
            old(self).wf(),
        ensures
            final(self).wf(),
            final(self)@ == collect_run(old(self)@, chunks@, true),
            r == run_outcome(chunks@),
    {
        self.take_chunks(chunks, true)
    }

    /// Mark the listed chunks of a pruned archive unreferenced (unless they
    /// are referenced), in order, up to the first error, which is returned.
    pub fn prune_chunks<E>(&mut self, chunks: Vec<Result<C, E>>) -> (r: Result<(), E>)
        requires
            obeys_key_model::<C>(),
            old(self).wf(),
        ensures
            final(self).wf(),
            final(self)@ == collect_run(old(self)@, chunks@, false),
            r == run_outcome(chunks@),
    {
        self.take_chunks(chunks, false)
    }

    /// Add an archive to be retained. On failure some of its chunks may
    /// already be marked referenced.
    pub fn retain_archive<A: SyncArchive<ChunkID = C>>(&mut self, archive: &A) -> (r: Result<(), A::Error>)
        requires
            obeys_key_model::<C>(),
            old(self).wf(),
        ensures
            final(self).wf(),
            final(self)@ == collect_run(old(self)@, archive.chunks_spec()@, true),
            r == run_outcome(archive.chunks_spec()@),
    {
        self.retain_chunks(archive.chunks())
    }

    /// Add an archive to be pruned. On failure some of its chunks may already
    /// be marked unreferenced.
    pub fn prune_archive<A: SyncArchive<ChunkID = C>>(&mut self, archive: &A) -> (r: Result<(), A::Error>)
        requires
            obeys_key_model::<C>(),
            old(self).wf(),
        ensures
            final(self).wf(),
            final(self)@ == collect_run(old(self)@, archive.chunks_spec()@, false),
            r == run_outcome(archive.chunks_spec()@),
    {
        self.prune_chunks(archive.chunks())
    }
}

/// Add to `acc` the listed chunks, in order, up to the first error, which is
/// returned.
pub fn gather_chunks<C: Eq + Hash, E>(acc: &mut HashSet<C>, chunks: Vec<Result<C, E>>) -> (r: Result<(), E>)
    requires
        obeys_key_model::<C>(),
    ensures
        final(acc)@ == gather_run(old(acc)@, chunks@),
        r == run_outcome(chunks@),
{
    let ghost s = chunks@;
    let ghost acc0 = acc@;
    proof {
        assert(s.skip(0) =~= s);
    }
    for item in it: chunks.into_iter()
        invariant
            it.seq() == s,
            acc0 == old(acc)@,
            obeys_key_model::<C>(),
            gather_run(acc0, s) == gather_run(acc@, s.skip(it.index())),
            run_outcome(s) == run_outcome(s.skip(it.index())),
    {
        proof {
            lemma_run_unfold(crate::model::CollectorState::empty(), acc@, s, it.index(), true);
        }
        match item {
            Ok(c) => {
                acc.insert(c);
            },
            Err(e) => {
                return Err(e);
            },
        }
    }
    proof {
        assert(s.skip(s.len() as int) =~= Seq::<Result<C, E>>::empty());
    }
    Ok(())
}

/// The quiescence check: every listed client must be in `valid`. Clients are
/// taken in order; a listing error is returned as a repository error, and the
/// first client outside `valid` makes the collection uncollectible.
pub fn check_clients<C: Eq + Hash, E, A>(valid: &ValidClients<C>, clients: Vec<Result<C, E>>) -> (r:
    Result<(), FossilDeletionError<E, A>>)
    requires
        obeys_key_model::<C>(),
    ensures
        r == quiescence::<C, E, A>(valid@, clients@),
{
    let ghost s = clients@;
    proof {
        assert(s.skip(0) =~= s);
    }
    for item in it: clients.into_iter()
        invariant
            it.seq() == s,
            obeys_key_model::<C>(),
            quiescence::<C, E, A>(valid@, s) == quiescence::<C, E, A>(valid@, s.skip(it.index())),
    {
        proof {
            lemma_quiescence_unfold::<C, E, A>(valid@, s, it.index());
        }
        match item {
            Ok(c) => {
                if !valid.contains(&c) {
                    return Err(FossilDeletionError::Uncollectible);
                }
            },
            Err(e) => {
                return Err(FossilDeletionError::Repository(e));
            },
        }
    }
    proof {
        assert(s.skip(s.len() as int) =~= Seq::<Result<C, E>>::empty());
    }
    Ok(())
}

/// One recover flag per fossil, given the chunks the fossils were made
/// from: a fossil is recovered exactly when an archive outside the seen ones
/// references its chunk (`new_referenced`), and deleted otherwise.
pub fn recover_flags<C: Eq + Hash>(chunks: &Vec<C>, new_referenced: &HashSet<C>) -> (r: Vec<bool>)
    requires
        obeys_key_model::<C>(),
    ensures
        r@.len() == chunks@.len(),
        forall|i: int| 0 <= i < chunks@.len() ==> r@[i] == new_referenced@.contains(#[trigger] chunks@[i]),
{
    let mut flags: Vec<bool> = Vec::new();
    for i in 0..chunks.len()
        invariant
            obeys_key_model::<C>(),
            flags@.len() == i,
            forall|j: int| 0 <= j < i ==> flags@[j] == new_referenced@.contains(#[trigger] chunks@[j]),
    {
        flags.push(new_referenced.contains(&chunks[i]));
    }
    flags
}

/// Perform fossil collection: the chunks of the pruned archives that no kept
/// archive holds become fossils, and the kept archives are recorded as seen.
/// The pruned archives must be removed before the collection counts as done.
///
/// A listing error ends the collection before any chunk is fossilised; a
/// repository error ends it where it stands, and the fossils made so far stay.
pub fn collect_fossils<'a, 'b, R: SyncRepository>(
    kept_archives: Vec<(&'a R::ArchiveID, &'b R::Archive)>,
    pruned_archives: Vec<&'b R::Archive>,
    repository: &mut R,
) -> (r: Result<
    FossilCollection<R::FossilID, &'a R::ArchiveID>,
    FossilCollectionError<R::Error, <R::Archive as SyncArchive>::Error>,
>) where <R::Archive as SyncArchive>::ChunkID: Eq + Hash
    requires
        obeys_key_model::<<R::Archive as SyncArchive>::ChunkID>(),
    ensures
        ({
            let out = collection_outcome(
                kept_listings::<R>(kept_archives@),
                pruned_listings::<R>(pruned_archives@),
            );
            &&& out.1 matches Err(e) ==> (r matches Err(FossilCollectionError::Archive(x)) && x == e)
                && *final(repository) == *old(repository)
            &&& out.1 is Ok ==> (r is Err ==> r->Err_0 is Repository)
            &&& out.1 is Ok && out.0.unreferenced == Set::<
                <R::Archive as SyncArchive>::ChunkID,
            >::empty() ==> r is Ok && *final(repository)
                == *old(repository)
            &&& same_listings(*old(repository), *final(repository))
            &&& forall|c: <R::Archive as SyncArchive>::ChunkID|
                !out.0.unreferenced.contains(c) ==> #[trigger] untouched(*old(repository), *final(repository), c)
            &&& r is Ok ==> forall|c: <R::Archive as SyncArchive>::ChunkID|
                out.0.unreferenced.contains(c) ==> #[trigger] fossilised(*old(repository), *final(repository), c)
            &&& r matches Ok(c) ==> {
                &&& c.seen_seq() == kept_archives@.map_values(
                    |p: (&'a R::ArchiveID, &'b R::Archive)| p.0,
                )
                &&& c.fossil_seq().map_values(|f: R::FossilID| f.original_spec()).to_set()
                    == out.0.unreferenced
                &&& c.fossil_seq().map_values(|f: R::FossilID| f.original_spec()).no_duplicates()
            }
        }),
{
    let ghost kl = kept_listings::<R>(kept_archives@);
    let ghost pl = pruned_listings::<R>(pruned_archives@);
    let mut collector: FossilCollector<<R::Archive as SyncArchive>::ChunkID> = FossilCollector::new();
    let mut seen: Vec<&'a R::ArchiveID> = Vec::new();
    let mut i: usize = 0;
    proof {
        assert(kl.skip(0) =~= kl);
        assert(pl.skip(0) =~= pl);
    }
    while i < kept_archives.len()
        invariant
            i <= kept_archives.len(),
            kl == kept_listings::<R>(kept_archives@),
            *repository == *old(repository),
            collector.wf(),
            obeys_key_model::<<R::Archive as SyncArchive>::ChunkID>(),
            pass_run(CollectorState::empty(), kl, true) == pass_run(collector@, kl.skip(i as int), true),
            seen@ == kept_archives@.take(i as int).map_values(
                |p: (&'a R::ArchiveID, &'b R::Archive)| p.0,
            ),
        decreases kept_archives.len() - i,
    {
        let (id, archive) = kept_archives[i];
        seen.push(id);
        proof {
            lemma_pass_unfold(collector@, kl, i as int, true);
        }
        match collector.retain_archive(archive) {
            Ok(()) => {},
            Err(e) => {
                return Err(FossilCollectionError::Archive(e));
            },
        }
        i = i + 1;
        proof {
            assert(seen@ =~= kept_archives@.take(i as int).map_values(
                |p: (&'a R::ArchiveID, &'b R::Archive)| p.0,
            ));
        }
    }
    proof {
        assert(kept_archives@.take(i as int) =~= kept_archives@);
        assert(kl.skip(i as int) =~= Seq::empty());
    }
    let mut j: usize = 0;
    while j < pruned_archives.len()
        invariant
            j <= pruned_archives.len(),
            kl == kept_listings::<R>(kept_archives@),
            pl == pruned_listings::<R>(pruned_archives@),
            *repository == *old(repository),
            collector.wf(),
            obeys_key_model::<<R::Archive as SyncArchive>::ChunkID>(),
            collection_outcome(kl, pl) == pass_run(collector@, pl.skip(j as int), false),
        decreases pruned_archives.len() - j,
    {
        proof {
            lemma_pass_unfold(collector@, pl, j as int, false);
            assert(pl[j as int] == pruned_archives@[j as int].chunks_spec()@);
        }
        match collector.prune_archive(pruned_archives[j]) {
            Ok(()) => {},
            Err(e) => {
                return Err(FossilCollectionError::Archive(e));
            },
        }
        j = j + 1;
    }
    proof {
        assert(pl.skip(j as int) =~= Seq::empty());
    }
    let candidates = collector.fossil_candidates();
    proof {
        if collector@.unreferenced == Set::<<R::Archive as SyncArchive>::ChunkID>::empty() {
            lemma_empty_listing(candidates@.unref());
        }
    }
    let ghost orig = *old(repository);
    let ghost cs = candidates@.unref();
    proof {
        assert(cs.take(0) =~= Seq::empty());
    }
    let mut fossils: Vec<R::FossilID> = Vec::new();
    for k in 0..candidates.len()
        invariant
            fossils@.len() == k,
            kl == kept_listings::<R>(kept_archives@),
            pl == pruned_listings::<R>(pruned_archives@),
            collection_outcome(kl, pl) == (collector@, Ok::<(), <R::Archive as SyncArchive>::Error>(())),
            collector@.unreferenced == Set::<<R::Archive as SyncArchive>::ChunkID>::empty() ==> candidates@.len() == 0,
            cs == candidates@.unref(),
            cs.to_set() == collector@.unreferenced,
            orig == *old(repository),
            candidates@.len() == 0 ==> *repository == orig,
            same_listings(orig, *repository),
            forall|c: <R::Archive as SyncArchive>::ChunkID|
                !cs.take(k as int).contains(c) ==> #[trigger] untouched(orig, *repository, c),
            forall|c: <R::Archive as SyncArchive>::ChunkID|
                cs.take(k as int).contains(c) ==> #[trigger] fossilised(orig, *repository, c),
            forall|m: int| 0 <= m < k ==> (#[trigger] fossils@[m]).original_spec() == *candidates@[m],
    {
        let ghost before = *repository;
        let ghost x = cs[k as int];
        proof {
            lemma_take_push_contains(cs, k as int);
        }
        match repository.make_fossil(candidates[k]) {
            Ok(fossil) => {
                proof {
                    assert forall|c: <R::Archive as SyncArchive>::ChunkID|
                        !cs.take(k + 1).contains(c) implies #[trigger] untouched(orig, *repository, c) by {
                        assert(c != x);
                        assert(untouched(orig, before, c));
                        assert(repository.has_chunk(c) == before.has_chunk(c));
                    }
                    assert forall|c: <R::Archive as SyncArchive>::ChunkID|
                        cs.take(k + 1).contains(c) implies #[trigger] fossilised(orig, *repository, c) by {
                        if c != x {
                            assert(cs.take(k as int).contains(c));
                            assert(fossilised(orig, before, c));
                            assert(repository.has_chunk(c) == before.has_chunk(c));
                        } else if cs.take(k as int).contains(c) {
                            assert(fossilised(orig, before, c));
                        } else {
                            assert(untouched(orig, before, c));
                        }
                    }
                }
                fossils.push(fossil);
            },
            Err(e) => {
                proof {
                    lemma_untouched_outside(orig, before, *repository, cs, k as int);
                }
                return Err(FossilCollectionError::Repository(e));
            },
        }
    }
    proof {
        assert(fossils@.map_values(|f: R::FossilID| f.original_spec()) =~= candidates@.unref());
        assert(cs.take(cs.len() as int) =~= cs);
    }
    Ok(FossilCollection::new(fossils, seen))
}

proof fn lemma_untouched_outside<R: SyncRepository>(
    o: R,
    b: R,
    n: R,
    fc: Seq<<R::Archive as SyncArchive>::ChunkID>,
    k: int,
)
    requires
        0 <= k < fc.len(),
        forall|c: <R::Archive as SyncArchive>::ChunkID|
            !fc.take(k).contains(c) ==> #[trigger] untouched(o, b, c),
        forall|d: <R::Archive as SyncArchive>::ChunkID|
            d != fc[k] ==> #[trigger] n.has_chunk(d) == b.has_chunk(d) && n.has_fossil(d) == b.has_fossil(d),
    ensures
        forall|c: <R::Archive as SyncArchive>::ChunkID| !fc.contains(c) ==> #[trigger] untouched(o, n, c),
{
    assert forall|c: <R::Archive as SyncArchive>::ChunkID| !fc.contains(c) implies #[trigger] untouched(o, n, c) by {
        if fc.take(k).contains(c) {
            let j = choose|j: int| 0 <= j < k && #[trigger] fc.take(k)[j] == c;
            assert(fc[j] == c);
        }
        if c == fc[k] {
            assert(fc[k] == c);
        }
        assert(untouched(o, b, c));
        assert(n.has_chunk(c) == b.has_chunk(c));
    }
}

/// Perform fossil deletion: once every client has made an archive, outside
/// the seen ones, after the collection, the fossils whose chunks an archive
/// outside the seen ones lists are recovered, and the rest deleted for good.
/// Otherwise nothing is recovered or deleted, the repository is left as it
/// was, and the collection is uncollectible.
pub fn delete_fossils<R: SyncRepository>(
    collection: &FossilCollection<R::FossilID, &R::ArchiveID>,
    repository: &mut R,
) -> (r: Result<(), FossilDeletionError<R::Error, <R::Archive as SyncArchive>::Error>>) where
    <R::Archive as Archive>::ClientID: Hash + Eq,
    <R::Archive as SyncArchive>::ChunkID: Hash + Eq,
    R::ArchiveID: Hash + Eq,

    requires
        obeys_key_model::<<R::Archive as Archive>::ClientID>(),
        obeys_key_model::<<R::Archive as SyncArchive>::ChunkID>(),
        obeys_key_model::<&R::ArchiveID>(),
    ensures
        ({
            let sc = scan_archives(
                *old(repository),
                collection.seen_seq(),
                collection.timestamp_spec(),
                old(repository).archives_spec()@,
                Set::empty(),
                Set::empty(),
            );
            let q = quiescence::<
                <R::Archive as Archive>::ClientID,
                R::Error,
                <R::Archive as SyncArchive>::Error,
            >(sc.0, old(repository).clients_spec()@);
            let fc = collection.fossil_seq().map_values(|f: R::FossilID| f.original_spec());
            &&& sc.2 is Err ==> r == sc.2 && *final(repository) == *old(repository)
            &&& sc.2 is Ok && q is Err ==> r == q && *final(repository) == *old(repository)
            &&& sc.2 is Ok && q is Ok && fc.len() == 0 ==> r is Ok && *final(repository)
                == *old(repository)
            &&& sc.2 is Ok && q is Ok ==> {
                &&& same_listings(*old(repository), *final(repository))
                &&& forall|c: <R::Archive as SyncArchive>::ChunkID|
                    !fc.contains(c) ==> #[trigger] untouched(*old(repository), *final(repository), c)
                &&& r is Err ==> r->Err_0 is Repository
                &&& r is Ok ==> forall|c: <R::Archive as SyncArchive>::ChunkID|
                    fc.contains(c) ==> #[trigger] resolved(*old(repository), *final(repository), sc.1, c)
            }
        }),
{
    let ghost ts = collection.timestamp_spec();
    let ghost seen_seq = collection.seen_seq();
    let seen_list = collection.seen_archives();
    let mut seen: HashSet<&R::ArchiveID> = HashSet::new();
    for i in 0..seen_list.len()
        invariant
            seen_list@ == seen_seq,
            obeys_key_model::<&R::ArchiveID>(),
            forall|x: &R::ArchiveID| #[trigger] seen@.contains(x) <==> seen_list@.take(i as int).contains(x),
    {
        proof {
            lemma_take_push_contains(seen_list@, i as int);
        }
        seen.insert(seen_list[i]);
    }
    proof {
        assert(seen_list@.take(seen_list@.len() as int) =~= seen_list@);
    }
    let mut new_referenced: HashSet<<R::Archive as SyncArchive>::ChunkID> = HashSet::new();
    let mut valid = ValidClients::new(collection.collection_timestamp());
    let ids = repository.archives();
    let ghost listed = ids@;
    proof {
        assert(listed.skip(0) =~= listed);
    }
    for request in it: ids.into_iter()
        invariant
            it.seq() == listed,
            listed == old(repository).archives_spec()@,
            *repository == *old(repository),
            valid.timestamp_spec() == ts,
            ts == collection.timestamp_spec(),
            seen_seq == collection.seen_seq(),
            forall|x: &R::ArchiveID| #[trigger] seen@.contains(x) <==> seen_seq.contains(x),
            obeys_key_model::<<R::Archive as Archive>::ClientID>(),
            obeys_key_model::<<R::Archive as SyncArchive>::ChunkID>(),
            obeys_key_model::<&R::ArchiveID>(),
            scan_archives(*old(repository), seen_seq, ts, listed, Set::empty(), Set::empty())
                == scan_archives(*old(repository), seen_seq, ts, listed.skip(it.index()), valid@, new_referenced@),
    {
        proof {
            lemma_scan_unfold(*old(repository), seen_seq, ts, listed, it.index(), valid@, new_referenced@);
        }
        let id = match request {
            Ok(id) => id,
            Err(e) => {
                return Err(FossilDeletionError::Repository(e));
            },
        };
        if !seen.contains(&&id) {
            let archive = match repository.archive(&id) {
                Ok(archive) => archive,
                Err(e) => {
                    return Err(FossilDeletionError::Repository(e));
                },
            };
            match gather_chunks(&mut new_referenced, archive.chunks()) {
                Ok(()) => {},
                Err(e) => {
                    return Err(FossilDeletionError::Archive(e));
                },
            }
            valid.add_owned_archive(archive);
        }
    }
    proof {
        assert(listed.skip(listed.len() as int) =~= Seq::empty());
    }
    let clients = repository.clients();
    match check_clients(&valid, clients) {
        Ok(()) => {},
        Err(e) => {
            return Err(e);
        },
    }
    let ghost nr = new_referenced@;
    let ghost fc = collection.fossil_seq().map_values(|f: R::FossilID| f.original_spec());
    let fossils = collection.fossils();
    let mut originals: Vec<<R::Archive as SyncArchive>::ChunkID> = Vec::new();
    for k in 0..fossils.len()
        invariant
            originals@.len() == k,
            forall|m: int| 0 <= m < k ==> originals@[m] == (#[trigger] fossils@[m]).original_spec(),
    {
        originals.push(fossils[k].original_chunk());
    }
    proof {
        assert(originals@ =~= fc);
    }
    let ghost orig = *old(repository);
    let flags = recover_flags(&originals, &new_referenced);
    proof {
        assert(fc.take(0) =~= Seq::empty());
    }
    for k in 0..fossils.len()
        invariant
            fossils@ == collection.fossil_seq(),
            fc == collection.fossil_seq().map_values(|f: R::FossilID| f.original_spec()),
            flags@.len() == fc.len(),
            forall|i: int| 0 <= i < fc.len() ==> flags@[i] == nr.contains(#[trigger] fc[i]),
            orig == *old(repository),
            k == 0 ==> *repository == orig,
            scan_archives(
                orig,
                collection.seen_seq(),
                collection.timestamp_spec(),
                orig.archives_spec()@,
                Set::empty(),
                Set::empty(),
            ).2 is Ok,
            scan_archives(
                orig,
                collection.seen_seq(),
                collection.timestamp_spec(),
                orig.archives_spec()@,
                Set::empty(),
                Set::empty(),
            ).1 == nr,
            quiescence::<
                <R::Archive as Archive>::ClientID,
                R::Error,
                <R::Archive as SyncArchive>::Error,
            >(
                scan_archives(
                    orig,
                    collection.seen_seq(),
                    collection.timestamp_spec(),
                    orig.archives_spec()@,
                    Set::empty(),
                    Set::empty(),
                ).0,
                orig.clients_spec()@,
            ) is Ok,
            same_listings(orig, *repository),
            forall|c: <R::Archive as SyncArchive>::ChunkID|
                !fc.take(k as int).contains(c) ==> #[trigger] untouched(orig, *repository, c),
            forall|c: <R::Archive as SyncArchive>::ChunkID|
                fc.take(k as int).contains(c) ==> #[trigger] resolved(orig, *repository, nr, c),
    {
        let fossil = &fossils[k];
        let ghost x = fc[k as int];
        let ghost before = *repository;
        proof {
            lemma_take_push_contains(fc, k as int);
            assert(fossil.original_spec() == x);
        }
        if flags[k] {
            match repository.recover_fossil(fossil) {
                Ok(()) => {},
                Err(e) => {
                    proof {
                        lemma_untouched_outside(orig, before, *repository, fc, k as int);
                    }
                    return Err(FossilDeletionError::Repository(e));
                },
            }
        } else {
            match repository.delete_fossil(fossil) {
                Ok(()) => {},
                Err(e) => {
                    proof {
                        lemma_untouched_outside(orig, before, *repository, fc, k as int);
                    }
                    return Err(FossilDeletionError::Repository(e));
                },
            }
        }
        proof {
            assert forall|c: <R::Archive as SyncArchive>::ChunkID|
                !fc.take(k + 1).contains(c) implies #[trigger] untouched(orig, *repository, c) by {
                assert(c != x);
                assert(untouched(orig, before, c));
                assert(repository.has_chunk(c) == before.has_chunk(c));
            }
            assert forall|c: <R::Archive as SyncArchive>::ChunkID|
                fc.take(k + 1).contains(c) implies #[trigger] resolved(orig, *repository, nr, c) by {
                if c != x {
                    assert(fc.take(k as int).contains(c));
                    assert(repository.has_chunk(c) == before.has_chunk(c));
                    assert(repository.has_fossil(c) == before.has_fossil(c));
                    assert(resolved(orig, before, nr, c));
                } else {
                    assert(flags@[k as int] == nr.contains(x));
                    if !fc.take(k as int).contains(c) {
                        assert(untouched(orig, before, c));
                    } else {
                        assert(resolved(orig, before, nr, c));
                    }
                    if flags@[k as int] {
                        assert(!repository.has_fossil(x));
                        assert(repository.has_chunk(x) == (before.has_chunk(x) || before.has_fossil(x)));
                    } else {
                        assert(!repository.has_fossil(x));
                        assert(repository.has_chunk(x) == before.has_chunk(x));
                    }
                }
            }
        }
    }
    proof {
        assert(fc.take(fc.len() as int) =~= fc);
    }
    Ok(())
}

} // verus!
