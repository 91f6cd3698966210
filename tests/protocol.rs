use vinculum::sync::{collect_fossils, delete_fossils, recover_flags, SyncArchive, SyncRepository};
use vinculum::{Archive, Fossil, FossilCollection, FossilCollectionError, FossilCollector, FossilDeletionError, ValidClients};
use std::collections::{BTreeMap, BTreeSet, HashSet};

const X: u64 = 10;
const Y: u64 = 20;
const Z: u64 = 30;
const C1: u32 = 1;
const C2: u32 = 2;

#[derive(Clone, Debug, PartialEq)]
struct Arch {
    creator: u32,
    created: u64,
    chunks: Vec<Result<u64, String>>,
}

impl Arch {
    fn new(creator: u32, created: u64, chunks: &[u64]) -> Arch {
        Arch { creator, created, chunks: chunks.iter().map(|c| Ok(*c)).collect() }
    }
}

impl Archive for Arch {
    type ClientID = u32;

    fn creator_spec(&self) -> u32 {
        self.creator
    }

    fn created_spec(&self) -> u64 {
        self.created
    }

    fn creator(&self) -> &u32 {
        &self.creator
    }

    fn creation_timestamp(&self) -> u64 {
        self.created
    }

    fn into_creator(self) -> u32 {
        self.creator
    }
}

impl SyncArchive for Arch {
    type ChunkID = u64;
    type Error = String;

    fn chunks_spec(&self) -> Vec<Result<u64, String>> {
        self.chunks.clone()
    }

    fn chunks(&self) -> Vec<Result<u64, String>> {
        self.chunks.clone()
    }
}

#[derive(Clone, Debug, PartialEq)]
struct Fos(u64);

impl Fossil for Fos {
    type ChunkID = u64;

    fn original_spec(&self) -> u64 {
        self.0
    }

    fn original_chunk(&self) -> u64 {
        self.0
    }
}

#[derive(Clone, Debug, PartialEq, Default)]
struct Repo {
    clients: Vec<u32>,
    archives: BTreeMap<u32, Arch>,
    chunks: BTreeSet<u64>,
    fossils: BTreeSet<u64>,
    log: Vec<String>,
    fail_make_fossil: bool,
}

impl Repo {
    /// Store an archive the way a client does: a chunk that exists only as a
    /// fossil is uploaded again.
    fn create(&mut self, id: u32, archive: Arch) {
        for c in archive.chunks.iter().flatten() {
            self.chunks.insert(*c);
        }
        self.archives.insert(id, archive);
    }

    fn state(&self) -> (BTreeMap<u32, Arch>, BTreeSet<u64>, BTreeSet<u64>) {
        (self.archives.clone(), self.chunks.clone(), self.fossils.clone())
    }
}

impl SyncRepository for Repo {
    type Archive = Arch;
    type ArchiveID = u32;
    type FossilID = Fos;
    type Error = String;

    fn clients_spec(&self) -> Vec<Result<u32, String>> {
        self.clients()
    }

    fn archives_spec(&self) -> Vec<Result<u32, String>> {
        self.archives()
    }

    fn archive_spec(&self, id: u32) -> Result<Arch, String> {
        self.archive(&id)
    }

    fn has_chunk(&self, c: u64) -> bool {
        self.chunks.contains(&c)
    }

    fn has_fossil(&self, c: u64) -> bool {
        self.fossils.contains(&c)
    }

    fn clients(&self) -> Vec<Result<u32, String>> {
        self.clients.iter().map(|c| Ok(*c)).collect()
    }

    fn archives(&self) -> Vec<Result<u32, String>> {
        self.archives.keys().map(|k| Ok(*k)).collect()
    }

    fn archive(&self, id: &u32) -> Result<Arch, String> {
        self.archives.get(id).cloned().ok_or_else(|| format!("no archive {}", id))
    }

    fn make_fossil(&mut self, chunk: &u64) -> Result<Fos, String> {
        if self.fail_make_fossil {
            return Err("storage offline".to_string());
        }
        if self.chunks.remove(chunk) {
            self.fossils.insert(*chunk);
        }
        self.log.push(format!("fossil {}", chunk));
        Ok(Fos(*chunk))
    }

    fn recover_fossil(&mut self, fossil: &Fos) -> Result<(), String> {
        if self.fossils.remove(&fossil.0) {
            self.chunks.insert(fossil.0);
        }
        self.log.push(format!("recover {}", fossil.0));
        Ok(())
    }

    fn delete_fossil(&mut self, fossil: &Fos) -> Result<(), String> {
        self.fossils.remove(&fossil.0);
        self.log.push(format!("delete {}", fossil.0));
        Ok(())
    }
}

fn fossil_chunks(c: &FossilCollection<Fos, &u32>) -> BTreeSet<u64> {
    c.fossils().iter().map(|f| f.original_chunk()).collect()
}

/// Two clients; A1 by c1 at t0 with {x, y}, A2 by c2 at t1 with {y, z}.
fn two_archives() -> (Repo, Arch, Arch) {
    let mut repo = Repo { clients: vec![C1, C2], ..Repo::default() };
    let a1 = Arch::new(C1, 0, &[X, Y]);
    let a2 = Arch::new(C2, 1, &[Y, Z]);
    repo.create(1, a1.clone());
    repo.create(2, a2.clone());
    (repo, a1, a2)
}

#[test]
fn simple_reclamation() {
    let (mut repo, a1, a2) = two_archives();
    let id2 = 2u32;
    let collection = collect_fossils(vec![(&id2, &a2)], vec![&a1], &mut repo).unwrap();
    assert_eq!(fossil_chunks(&collection), BTreeSet::from([X]));
    assert_eq!(collection.seen_archives(), &[&2u32][..]);
    repo.archives.remove(&1);
    let t3 = collection.collection_timestamp() + 1;
    repo.create(3, Arch::new(C1, t3, &[Y]));
    repo.create(4, Arch::new(C2, t3, &[Z]));
    assert_eq!(delete_fossils(&collection, &mut repo), Ok(()));
    assert!(!repo.fossils.contains(&X));
    assert!(!repo.chunks.contains(&X));
    assert!(repo.log.contains(&format!("delete {}", X)));
}

#[test]
fn uncollectible_gate() {
    let (mut repo, a1, a2) = two_archives();
    let id2 = 2u32;
    let collection = collect_fossils(vec![(&id2, &a2)], vec![&a1], &mut repo).unwrap();
    repo.archives.remove(&1);
    let t3 = collection.collection_timestamp() + 1;
    repo.create(3, Arch::new(C1, t3, &[Y]));
    let before = repo.state();
    let log_len = repo.log.len();
    assert_eq!(delete_fossils(&collection, &mut repo), Err(FossilDeletionError::Uncollectible));
    assert_eq!(repo.state(), before);
    assert_eq!(repo.log.len(), log_len);
}

#[test]
fn archive_at_collection_instant_does_not_witness() {
    let (mut repo, a1, a2) = two_archives();
    let id2 = 2u32;
    let collection = collect_fossils(vec![(&id2, &a2)], vec![&a1], &mut repo).unwrap();
    repo.archives.remove(&1);
    let t = collection.collection_timestamp();
    repo.create(3, Arch::new(C1, t + 1, &[Y]));
    repo.create(4, Arch::new(C2, t, &[Z]));
    assert_eq!(delete_fossils(&collection, &mut repo), Err(FossilDeletionError::Uncollectible));
    assert!(repo.fossils.contains(&X));
}

#[test]
fn race_recovery() {
    let (mut repo, a1, a2) = two_archives();
    let id2 = 2u32;
    let collection = collect_fossils(vec![(&id2, &a2)], vec![&a1], &mut repo).unwrap();
    assert_eq!(fossil_chunks(&collection), BTreeSet::from([X]));
    repo.archives.remove(&1);
    let t3 = collection.collection_timestamp() + 1;
    // c2 saw the fossil and uploaded x again
    repo.create(3, Arch::new(C2, t3, &[X, Z]));
    repo.create(4, Arch::new(C1, t3, &[Y]));
    assert_eq!(delete_fossils(&collection, &mut repo), Ok(()));
    assert!(repo.log.contains(&format!("recover {}", X)));
    assert!(!repo.log.contains(&format!("delete {}", X)));
    assert!(repo.chunks.contains(&X));
}

#[test]
fn idempotent_retry() {
    let (mut repo, a1, a2) = two_archives();
    let id2 = 2u32;
    let first = collect_fossils(vec![(&id2, &a2)], vec![&a1], &mut repo).unwrap();
    let second = collect_fossils(vec![(&id2, &a2)], vec![&a1], &mut repo).unwrap();
    assert_eq!(fossil_chunks(&first), fossil_chunks(&second));
    assert_eq!(fossil_chunks(&second), BTreeSet::from([X]));
    assert!(repo.fossils.contains(&X));
}

#[test]
fn kept_dominates_regardless_of_order() {
    let a1 = Arch::new(C1, 0, &[X, Y]);
    let a2 = Arch::new(C2, 1, &[Y, Z]);
    let mut pruned_first = FossilCollector::new();
    pruned_first.prune_archive(&a2).unwrap();
    pruned_first.retain_archive(&a1).unwrap();
    let mut kept_first = FossilCollector::new();
    kept_first.retain_archive(&a1).unwrap();
    kept_first.prune_archive(&a2).unwrap();
    let p: HashSet<u64> = pruned_first.fossil_candidates().into_iter().copied().collect();
    let k: HashSet<u64> = kept_first.fossil_candidates().into_iter().copied().collect();
    assert_eq!(p, k);
    assert_eq!(p, HashSet::from([Z]));
    let mut repo = Repo { clients: vec![C1, C2], ..Repo::default() };
    repo.create(1, a1.clone());
    repo.create(2, a2.clone());
    let id1 = 1u32;
    let collection = collect_fossils(vec![(&id1, &a1)], vec![&a2], &mut repo).unwrap();
    assert_eq!(fossil_chunks(&collection), BTreeSet::from([Z]));
    assert!(!repo.fossils.contains(&Y));
}

#[test]
fn empty_repository() {
    let mut repo = Repo::default();
    let collection = collect_fossils(Vec::new(), Vec::new(), &mut repo).unwrap();
    assert!(collection.fossils().is_empty());
    assert!(collection.seen_archives().is_empty());
    assert_eq!(delete_fossils(&collection, &mut repo), Ok(()));
}

#[test]
fn kept_archive_alone_gives_no_fossils() {
    let (mut repo, a1, _) = two_archives();
    let id1 = 1u32;
    let collection = collect_fossils(vec![(&id1, &a1)], Vec::new(), &mut repo).unwrap();
    assert!(collection.fossils().is_empty());
}

#[test]
fn same_archive_kept_and_pruned_gives_no_fossils() {
    let (mut repo, a1, _) = two_archives();
    let id1 = 1u32;
    let collection = collect_fossils(vec![(&id1, &a1)], vec![&a1], &mut repo).unwrap();
    assert!(collection.fossils().is_empty());
    assert!(repo.log.is_empty());
}

#[test]
fn archive_error_aborts_collection() {
    let (mut repo, a1, a2) = two_archives();
    let broken = Arch {
        creator: C1,
        created: 5,
        chunks: vec![Ok(X), Err("bad chunk list".to_string())],
    };
    let id2 = 2u32;
    let r = collect_fossils(vec![(&id2, &a2)], vec![&a1, &broken], &mut repo);
    assert_eq!(r.err(), Some(FossilCollectionError::Archive("bad chunk list".to_string())));
    assert!(repo.log.is_empty());
}

#[test]
fn repository_error_aborts_collection() {
    let (mut repo, a1, a2) = two_archives();
    repo.fail_make_fossil = true;
    let id2 = 2u32;
    let r = collect_fossils(vec![(&id2, &a2)], vec![&a1], &mut repo);
    assert_eq!(r.err(), Some(FossilCollectionError::Repository("storage offline".to_string())));
}

#[test]
fn archive_error_aborts_deletion() {
    let (mut repo, a1, a2) = two_archives();
    let id2 = 2u32;
    let collection = collect_fossils(vec![(&id2, &a2)], vec![&a1], &mut repo).unwrap();
    repo.archives.remove(&1);
    let t3 = collection.collection_timestamp() + 1;
    repo.create(3, Arch { creator: C1, created: t3, chunks: vec![Err("unreadable".to_string())] });
    repo.create(4, Arch::new(C2, t3, &[Z]));
    assert_eq!(
        delete_fossils(&collection, &mut repo),
        Err(FossilDeletionError::Archive("unreadable".to_string()))
    );
    assert!(repo.fossils.contains(&X));
}

#[test]
fn fossil_operations_are_idempotent() {
    let mut repo = Repo::default();
    repo.create(1, Arch::new(C1, 0, &[X]));
    let f = repo.make_fossil(&X).unwrap();
    let again = repo.make_fossil(&X).unwrap();
    assert_eq!(f, again);
    assert!(repo.fossils.contains(&X));
    repo.recover_fossil(&f).unwrap();
    repo.recover_fossil(&f).unwrap();
    assert!(repo.chunks.contains(&X));
    repo.make_fossil(&X).unwrap();
    repo.delete_fossil(&f).unwrap();
    repo.delete_fossil(&f).unwrap();
    assert!(!repo.fossils.contains(&X));
    assert_eq!(repo.recover_fossil(&f), Ok(()));
}

#[test]
fn witness_from_owned_and_borrowed_archives() {
    let late = Arch::new(C2, 9, &[]);
    let early = Arch::new(C1, 3, &[]);
    let mut owned: ValidClients<u32> = ValidClients::new(5);
    owned.add_owned_archive(late.clone());
    owned.add_owned_archive(early.clone());
    assert!(owned.contains(&C2));
    assert!(!owned.contains(&C1));
    let mut borrowed: ValidClients<&u32> = ValidClients::new(5);
    borrowed.add_borrowed_archive(&late);
    borrowed.add_borrowed_archive(&early);
    assert!(borrowed.contains(&&C2));
    assert!(!borrowed.contains(&&C1));
    let at_instant = Arch::new(C1, 5, &[]);
    owned.add_owned_archive(at_instant);
    assert!(!owned.contains(&C1));
}

#[test]
fn recover_flags_follow_new_references() {
    let referenced: HashSet<u64> = HashSet::from([X, Z]);
    assert_eq!(recover_flags(&vec![X, Y, Z, Y], &referenced), vec![true, false, true, false]);
    assert!(recover_flags(&Vec::<u64>::new(), &referenced).is_empty());
}

#[test]
fn listing_error_leaves_repository_untouched() {
    let (mut repo, a1, _) = two_archives();
    let broken = Arch { creator: C2, created: 1, chunks: vec![Err("lost".to_string())] };
    let id = 7u32;
    let before = repo.clone();
    let r = collect_fossils(vec![(&id, &broken)], vec![&a1], &mut repo);
    assert_eq!(r.err(), Some(FossilCollectionError::Archive("lost".to_string())));
    assert_eq!(repo, before);
}

#[test]
fn deletion_rerun_after_success_changes_nothing() {
    let (mut repo, a1, a2) = two_archives();
    let id2 = 2u32;
    let collection = collect_fossils(vec![(&id2, &a2)], vec![&a1], &mut repo).unwrap();
    repo.archives.remove(&1);
    let t3 = collection.collection_timestamp() + 1;
    repo.create(3, Arch::new(C1, t3, &[Y]));
    repo.create(4, Arch::new(C2, t3, &[Z]));
    assert_eq!(delete_fossils(&collection, &mut repo), Ok(()));
    let after_first = repo.state();
    assert_eq!(delete_fossils(&collection, &mut repo), Ok(()));
    assert_eq!(repo.state(), after_first);
}

#[test]
fn collection_touches_only_candidate_chunks() {
    let (mut repo, a1, a2) = two_archives();
    let id2 = 2u32;
    collect_fossils(vec![(&id2, &a2)], vec![&a1], &mut repo).unwrap();
    assert_eq!(repo.chunks, BTreeSet::from([Y, Z]));
    assert_eq!(repo.fossils, BTreeSet::from([X]));
    assert_eq!(repo.log, vec![format!("fossil {}", X)]);
}
