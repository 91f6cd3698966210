//! Lock-free deduplication: the two-step fossil collection and fossil
//! deletion protocol for content-addressed backup repositories.
//!
//! Instants are `u64` nanoseconds since the Unix epoch, read from the system
//! clock; the repository is expected to keep them in order across clients.
use std::collections::HashSet;
use std::hash::Hash;
use vstd::prelude::*;
use vstd::std_specs::hash::obeys_key_model;
use vstd::std_specs::iter::IteratorSpec;

pub mod model;
pub mod sync;

verus! {

use crate::model::CollectorState;

/// Relies on `std::time::SystemTime::elapsed`, taken of the Unix epoch: the
/// time now, in whole nanoseconds since the epoch (a clock set before the
/// epoch reads as zero). Nothing is promised of the value.
#[verifier::external_body]
fn clock_now() -> (r: u64) {
    match std::time::UNIX_EPOCH.elapsed() {
        Ok(d) => d.as_nanos() as u64,
        Err(_) => 0,
    }
}

/// A type which denotes an archive.
///
/// Archives (manifests) are stored in a repository as an ordered sequence of
/// content-addressed chunks; archives sharing a chunk are deduplicated.
pub trait Archive {
    /// A unique ID for each client using the repository.
    type ClientID;

    /// The client which created this archive.
    spec fn creator_spec(&self) -> Self::ClientID;

    /// The instant of creation.
    spec fn created_spec(&self) -> u64;

    /// Client which created this archive.
    fn creator(&self) -> (r: &Self::ClientID)
        ensures
            *r == self.creator_spec(),
    ;

    /// Instant of creation, in nanoseconds since the Unix epoch (the scale of
    /// `FossilCollection::new`).
    fn creation_timestamp(&self) -> (r: u64)
        ensures
            r == self.created_spec(),
    ;

    /// Transform an owned archive into its creator ID.
    fn into_creator(self) -> (r: Self::ClientID)
        ensures
            r == self.creator_spec(),
    ;
}

/// A fossil is a chunk which has been renamed in preparation for deletion; it
/// tells which chunk it stands for.
pub trait Fossil {
    /// The type of the original chunk.
    type ChunkID;

    /// The chunk this fossil was made from.
    spec fn original_spec(&self) -> Self::ChunkID;

    /// The original chunk from which this fossil was created.
    fn original_chunk(&self) -> (r: Self::ChunkID)
        ensures
            r == self.original_spec(),
    ;
}

/// Collection of fossils awaiting deletion.
///
/// Since fossil collection may run in parallel with other clients creating
/// archives, fossils cannot be deleted at once: deletion waits until they can
/// no longer be referenced by new archives. Fossils referenced again are
/// recovered, the rest deleted.
#[derive(Clone, Debug)]
pub struct FossilCollection<F, A> {
    collection_timestamp: u64,
    fossils: Vec<F>,
    seen_archives: Vec<A>,
}

impl<F, A> FossilCollection<F, A> {
    /// Instant at which the fossil collection finished.
    pub closed spec fn timestamp_spec(&self) -> u64 {
        self.collection_timestamp
    }

    /// The collected fossils.
    pub closed spec fn fossil_seq(&self) -> Seq<F> {
        self.fossils@
    }

    /// The archives considered ("kept") during collection.
    pub closed spec fn seen_seq(&self) -> Seq<A> {
        self.seen_archives@
    }

    /// Create a collection stamped with the clock read now, in nanoseconds
    /// since the Unix epoch; the fossils must all have been made before this
    /// call.
    pub fn new(fossils: Vec<F>, seen_archives: Vec<A>) -> (r: FossilCollection<F, A>)
        ensures
            r.fossil_seq() == fossils@,
            r.seen_seq() == seen_archives@,
    {
        FossilCollection::with_timestamp(clock_now(), fossils, seen_archives)
    }

    /// Create a collection with a timestamp chosen by the caller, which must
    /// lie after the fossil collection finished.
    pub fn with_timestamp(collection_timestamp: u64, fossils: Vec<F>, seen_archives: Vec<A>) -> (r:
        FossilCollection<F, A>)
        ensures
            r.timestamp_spec() == collection_timestamp,
            r.fossil_seq() == fossils@,
            r.seen_seq() == seen_archives@,
    {
        FossilCollection { collection_timestamp, fossils, seen_archives }
    }

    /// Instant at which the fossil collection finished.
    pub fn collection_timestamp(&self) -> (r: u64)
        ensures
            r == self.timestamp_spec(),
    {
        self.collection_timestamp
    }

    /// The collected fossils.
    pub fn fossils(&self) -> (r: &[F])
        ensures
            r@ == self.fossil_seq(),
    {
        self.fossils.as_slice()
    }

    /// The archives considered during fossil collection.
    pub fn seen_archives(&self) -> (r: &[A])
        ensures
            r@ == self.seen_seq(),
    {
        self.seen_archives.as_slice()
    }

    /// Take the collection apart into its fossils and its seen archives.
    pub fn into_inner(self) -> (r: (Vec<F>, Vec<A>))
        ensures
            r.0@ == self.fossil_seq(),
            r.1@ == self.seen_seq(),
    {
        (self.fossils, self.seen_archives)
    }
}

/// Set of clients which cannot produce archives referencing chunks renamed
/// during a fossil collection: each created an archive strictly after the
/// collection's timestamp. Before fossil deletion every client must be in it.
#[derive(Debug)]
pub struct ValidClients<C> {
    collection_timestamp: u64,
    clients: HashSet<C>,
}

impl<C> ValidClients<C> {
    /// The clients in the set.
    pub closed spec fn view(&self) -> Set<C> {
        self.clients@
    }

    /// The timestamp that the set witnesses.
    pub closed spec fn timestamp_spec(&self) -> u64 {
        self.collection_timestamp
    }

    /// An empty set bound to the timestamp of a finished fossil collection.
    pub fn new(collection_timestamp: u64) -> (r: ValidClients<C>)
        ensures
            r@ == Set::<C>::empty(),
            r.timestamp_spec() == collection_timestamp,
    {
        ValidClients { collection_timestamp, clients: HashSet::new() }
    }

    /// As `new`, with room reserved for `capacity` clients.
    pub fn with_capacity(capacity: usize, collection_timestamp: u64) -> (r: ValidClients<C>)
        ensures
            r@ == Set::<C>::empty(),
            r.timestamp_spec() == collection_timestamp,
    {
        ValidClients { collection_timestamp, clients: HashSet::with_capacity(capacity) }
    }

    /// The timestamp supplied on creation.
    pub fn collection_timestamp(&self) -> (r: u64)
        ensures
            r == self.timestamp_spec(),
    {
        self.collection_timestamp
    }

    /// The clients currently in the set, each once, in no particular order.
    pub fn iter(&self) -> (r: Vec<&C>)
        requires
            obeys_key_model::<C>(),
        ensures
            r@.unref().to_set() == self@,
            r@.unref().no_duplicates(),
    {
        let mut out: Vec<&C> = Vec::new();
        for c in it: self.clients.iter()
            invariant
                out@ == it.seq().take(it.index()),
                it.seq() == vstd::std_specs::hash::spec_hash_keys_iter(&self.clients).remaining(),
        {
            out.push(c);
        }
        proof {
            broadcast use vstd::std_specs::hash::axiom_spec_hash_keys_iter;

            assert(out@ =~= vstd::std_specs::hash::spec_hash_keys_iter(&self.clients).remaining());
        }
        out
    }
}

impl<C: Eq + Hash> ValidClients<C> {
    /// Whether a client is in the set.
    pub fn contains(&self, value: &C) -> (r: bool)
        requires
            obeys_key_model::<C>(),
        ensures
            r == self@.contains(*value),
    {
        self.clients.contains(value)
    }

    /// Consider a client whose archive was created at `created`: it enters
    /// the set exactly when `created` lies strictly after the timestamp.
    pub fn add_creator(&mut self, client: C, created: u64)
        requires
            obeys_key_model::<C>(),
        ensures
            final(self).timestamp_spec() == old(self).timestamp_spec(),
            final(self)@ == if created > old(self).timestamp_spec() {
                old(self)@.insert(client)
            } else {
                old(self)@
            },
    {
        if created > self.collection_timestamp {
            self.clients.insert(client);
        }
    }

    /// Consider the creator of an owned archive for inclusion in the set: it
    /// is included if the archive was created strictly after the timestamp.
    pub fn add_owned_archive<A: Archive<ClientID = C>>(&mut self, archive: A)
        requires
            obeys_key_model::<C>(),
        ensures
            final(self).timestamp_spec() == old(self).timestamp_spec(),
            final(self)@ == if archive.created_spec() > old(self).timestamp_spec() {
                old(self)@.insert(archive.creator_spec())
            } else {
                old(self)@
            },
    {
        let created = archive.creation_timestamp();
        self.add_creator(archive.into_creator(), created);
    }
}

impl<'a, C: Eq + Hash> ValidClients<&'a C> {
    /// As `add_owned_archive`, for a borrowed archive: the set then holds a
    /// reference to the creator.
    pub fn add_borrowed_archive<A: Archive<ClientID = C>>(&mut self, archive: &'a A)
        requires
            obeys_key_model::<&'a C>(),
        ensures
            final(self).timestamp_spec() == old(self).timestamp_spec(),
            final(self)@ == if archive.created_spec() > old(self).timestamp_spec() {
                old(self)@.insert(&archive.creator_spec())
            } else {
                old(self)@
            },
    {
        let created = archive.creation_timestamp();
        self.add_creator(archive.creator(), created);
    }
}

/// Determines the set of unreferenced chunks: a chunk is a candidate for
/// fossil collection when some pruned archive holds it and no kept archive
/// does. "Referenced" absorbs: once referenced, a chunk stays so.
#[derive(Debug)]
pub struct FossilCollector<C> {
    referenced_chunks: HashSet<C>,
    unreferenced_chunks: HashSet<C>,
}

impl<C> FossilCollector<C> {
    /// The referenced and the unreferenced chunks.
    pub closed spec fn view(&self) -> CollectorState<C> {
        CollectorState { referenced: self.referenced_chunks@, unreferenced: self.unreferenced_chunks@ }
    }

    /// The two sets are disjoint.
    pub open spec fn wf(&self) -> bool {
        self@.wf()
    }

    /// A new collector with no chunks.
    pub fn new() -> (r: FossilCollector<C>)
        ensures
            r@ == CollectorState::<C>::empty(),
            r.wf(),
    {
        FossilCollector { referenced_chunks: HashSet::new(), unreferenced_chunks: HashSet::new() }
    }

    /// As `new`, with room reserved for the given numbers of chunks.
    pub fn with_capacity(referenced: usize, unreferenced: usize) -> (r: FossilCollector<C>)
        ensures
            r@ == CollectorState::<C>::empty(),
            r.wf(),
    {
        FossilCollector {
            referenced_chunks: HashSet::with_capacity(referenced),
            unreferenced_chunks: HashSet::with_capacity(unreferenced),
        }
    }

    /// Candidates for fossil collection: the unreferenced chunks, each once,
    /// in no particular order.
    pub fn fossil_candidates(&self) -> (r: Vec<&C>)
        requires
            obeys_key_model::<C>(),
        ensures
            r@.unref().to_set() == self@.unreferenced,
            r@.unref().no_duplicates(),
    {
        let mut out: Vec<&C> = Vec::new();
        for c in it: self.unreferenced_chunks.iter()
            invariant
                out@ == it.seq().take(it.index()),
                it.seq() == vstd::std_specs::hash::spec_hash_keys_iter(
                    &self.unreferenced_chunks,
                ).remaining(),
        {
            out.push(c);
        }
        proof {
            broadcast use vstd::std_specs::hash::axiom_spec_hash_keys_iter;

            assert(out@ =~= vstd::std_specs::hash::spec_hash_keys_iter(
                &self.unreferenced_chunks,
            ).remaining());
        }
        out
    }
}

impl<C: Eq + Hash> FossilCollector<C> {
    /// Add a reference to a chunk, so that it is no fossil candidate; a chunk
    /// added as unreferenced before becomes referenced.
    pub fn add_reference(&mut self, chunk: C)
        requires
            obeys_key_model::<C>(),
            old(self).wf(),
        ensures
            final(self).wf(),
            final(self)@ == old(self)@.retain(chunk),
    {
        self.unreferenced_chunks.remove(&chunk);
        self.referenced_chunks.insert(chunk);
    }

    /// Add an unreferenced chunk, making it a fossil candidate unless it has
    /// been referenced.
    pub fn add_chunk(&mut self, chunk: C)
        requires
            obeys_key_model::<C>(),
            old(self).wf(),
        ensures
            final(self).wf(),
            final(self)@ == old(self)@.prune(chunk),
    {
        if !self.referenced_chunks.contains(&chunk) {
            self.unreferenced_chunks.insert(chunk);
        }
    }
}

impl<C> Default for FossilCollector<C> {
    fn default() -> (r: Self)
        ensures
            r@ == CollectorState::<C>::empty(),
            r.wf(),
    {
        Self::new()
    }
}

/// Error produced during fossil collection.
#[derive(Debug, Clone, PartialEq, Eq, Hash)]
pub enum FossilCollectionError<E, A> {
    /// An error occurred while accessing the repository.
    Repository(E),
    /// An error occurred while accessing an archive.
    Archive(A),
}

impl<E, A> FossilCollectionError<E, A> {
    /// A short description of the error.
    pub fn message(&self) -> (r: &'static str)
        ensures
            r@ == match self {
                FossilCollectionError::Repository(_) => "error while accessing repository"@,
                FossilCollectionError::Archive(_) => "error while accessing archive"@,
            },
    {
        match self {
            FossilCollectionError::Repository(_) => "error while accessing repository",
            FossilCollectionError::Archive(_) => "error while accessing archive",
        }
    }
}

/// Error produced during fossil deletion.
#[derive(Debug, Clone, PartialEq, Eq, Hash)]
pub enum FossilDeletionError<E, A> {
    /// The fossil collection cannot be deleted yet: a client has made no
    /// archive since it was collected.
    Uncollectible,
    /// An error occurred while accessing the repository.
    Repository(E),
    /// An error occurred while accessing an archive.
    Archive(A),
}

impl<E, A> FossilDeletionError<E, A> {
    /// A short description of the error.
    pub fn message(&self) -> (r: &'static str)
        ensures
            r@ == match self {
                FossilDeletionError::Uncollectible =>
                    "fossil deletion impossible: client without new backup exists"@,
                FossilDeletionError::Repository(_) => "error while accessing repository"@,
                FossilDeletionError::Archive(_) => "error while accessing archive"@,
            },
    {
        match self {
            FossilDeletionError::Uncollectible =>
                "fossil deletion impossible: client without new backup exists",
            FossilDeletionError::Repository(_) => "error while accessing repository",
            FossilDeletionError::Archive(_) => "error while accessing archive",
        }
    }
}

} // verus!
