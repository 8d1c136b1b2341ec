use holger::repository::rust::RustRepo;
use holger::repository::types::{
    fetch_many_with_upstreams, fetch_with_upstreams, FetchAnswer, ProtocolAnswer, RepositoryBackend,
    RepositoryError, Source,
};
use holger::types::{ArtifactFormat, ArtifactId};
use std::sync::atomic::{AtomicUsize, Ordering};
use std::sync::Arc;

/// A backend over a fixed set of artifacts that counts how often it is asked.
struct Memory {
    name: String,
    items: Vec<(ArtifactId, Vec<u8>)>,
    fails: bool,
    asked: Arc<AtomicUsize>,
}

impl Memory {
    fn upstream(name: &str, items: Vec<(ArtifactId, Vec<u8>)>) -> (Arc<dyn RepositoryBackend>, Arc<AtomicUsize>) {
        let asked = Arc::new(AtomicUsize::new(0));
        let backend: Arc<dyn RepositoryBackend> =
            Arc::new(Memory { name: name.to_string(), items, fails: false, asked: asked.clone() });
        (backend, asked)
    }
}

impl RepositoryBackend for Memory {
    fn name(&self) -> &str {
        &self.name
    }

    fn format(&self) -> ArtifactFormat {
        ArtifactFormat::Raw
    }

    fn is_writable(&self) -> bool {
        false
    }

    fn fetch(&self, id: &ArtifactId) -> FetchAnswer {
        self.asked.fetch_add(1, Ordering::SeqCst);
        if self.fails {
            return Err(RepositoryError::Failed { message: "store unavailable".to_string() });
        }
        Ok(self.items.iter().find(|(i, _)| i == id).map(|(_, d)| d.clone()))
    }

    fn put(&self, _id: &ArtifactId, _data: &[u8]) -> Result<(), RepositoryError> {
        Err(RepositoryError::ReadOnly { repository: self.name.clone() })
    }

    fn handle_http2_request(&self, _suburl: &str, _body: &[u8]) -> ProtocolAnswer {
        Ok((404, Vec::new(), Vec::new()))
    }
}

fn artifact(name: &str) -> ArtifactId {
    ArtifactId { namespace: None, name: name.to_string(), version: "1.0.0".to_string() }
}

#[test]
fn fallback_takes_the_first_upstream_that_has_the_artifact() {
    let x = artifact("x");
    let local = RustRepo::new("local".to_string());
    let (u1, asked1) = Memory::upstream("u1", vec![]);
    let (u2, asked2) = Memory::upstream("u2", vec![(x.clone(), vec![1, 2, 3])]);
    let (u3, asked3) = Memory::upstream("u3", vec![(x.clone(), vec![9, 9, 9])]);
    let found = fetch_many_with_upstreams(&local, &[u1, u2, u3], &[x.clone()]).unwrap();
    assert_eq!(found, vec![(x, vec![1, 2, 3])]);
    assert_eq!(asked1.load(Ordering::SeqCst), 1);
    assert_eq!(asked2.load(Ordering::SeqCst), 1);
    assert_eq!(asked3.load(Ordering::SeqCst), 0);
}

#[test]
fn local_copy_wins_over_upstreams() {
    let x = artifact("x");
    let asked_local = Arc::new(AtomicUsize::new(0));
    let local = Memory {
        name: "local".to_string(),
        items: vec![(x.clone(), vec![7])],
        fails: false,
        asked: asked_local.clone(),
    };
    let (u1, asked1) = Memory::upstream("u1", vec![(x.clone(), vec![1])]);
    let found = fetch_many_with_upstreams(&local, &[u1], &[x.clone()]).unwrap();
    assert_eq!(found, vec![(x, vec![7])]);
    assert_eq!(asked_local.load(Ordering::SeqCst), 1);
    assert_eq!(asked1.load(Ordering::SeqCst), 0);
}

#[test]
fn artifacts_that_miss_everywhere_are_absent() {
    let x = artifact("x");
    let y = artifact("y");
    let z = artifact("z");
    let local = RustRepo::new("local".to_string());
    let (u1, _) = Memory::upstream("u1", vec![(y.clone(), vec![2])]);
    let (u2, _) = Memory::upstream("u2", vec![(z.clone(), vec![3]), (y.clone(), vec![9])]);
    let found =
        fetch_many_with_upstreams(&local, &[u1, u2], &[x.clone(), y.clone(), z.clone()]).unwrap();
    assert_eq!(found, vec![(y, vec![2]), (z, vec![3])]);
    let none = fetch_many_with_upstreams(&local, &[], &[x]).unwrap();
    assert!(none.is_empty());
    let empty = fetch_many_with_upstreams(&local, &[], &[]).unwrap();
    assert!(empty.is_empty());
}

#[test]
fn upstream_failures_count_as_misses() {
    let x = artifact("x");
    let local = RustRepo::new("local".to_string());
    let asked = Arc::new(AtomicUsize::new(0));
    let broken: Arc<dyn RepositoryBackend> = Arc::new(Memory {
        name: "broken".to_string(),
        items: vec![(x.clone(), vec![1])],
        fails: true,
        asked: asked.clone(),
    });
    let (u2, _) = Memory::upstream("u2", vec![(x.clone(), vec![5])]);
    let found = fetch_many_with_upstreams(&local, &[broken.clone(), u2], &[x.clone()]).unwrap();
    assert_eq!(found, vec![(x.clone(), vec![5])]);
    assert_eq!(asked.load(Ordering::SeqCst), 1);
    let found = fetch_many_with_upstreams(&local, &[broken], &[x]).unwrap();
    assert!(found.is_empty());
}

#[test]
fn local_failure_ends_the_fetch() {
    let x = artifact("x");
    let local = Memory {
        name: "local".to_string(),
        items: vec![],
        fails: true,
        asked: Arc::new(AtomicUsize::new(0)),
    };
    let (u1, asked1) = Memory::upstream("u1", vec![(x.clone(), vec![1])]);
    let r = fetch_many_with_upstreams(&local, &[u1], &[x]);
    assert_eq!(r, Err(RepositoryError::Failed { message: "store unavailable".to_string() }));
    assert_eq!(asked1.load(Ordering::SeqCst), 0);
}

#[test]
fn an_artifact_asked_for_twice_has_one_entry() {
    let x = artifact("x");
    let y = artifact("y");
    let local = RustRepo::new("local".to_string());
    let (u1, asked1) = Memory::upstream("u1", vec![(x.clone(), vec![1]), (y.clone(), vec![2])]);
    let found =
        fetch_many_with_upstreams(&local, &[u1], &[x.clone(), y.clone(), x.clone()]).unwrap();
    assert_eq!(found, vec![(x, vec![1]), (y, vec![2])]);
    assert_eq!(asked1.load(Ordering::SeqCst), 3);
}

#[test]
fn artifact_ids_compare_by_all_three_fields() {
    let a = ArtifactId { namespace: None, name: "x".to_string(), version: "1".to_string() };
    let b = ArtifactId { namespace: Some("ns".to_string()), name: "x".to_string(), version: "1".to_string() };
    let c = ArtifactId { namespace: Some("ns".to_string()), name: "x".to_string(), version: "2".to_string() };
    let d = ArtifactId { namespace: Some("ns".to_string()), name: "y".to_string(), version: "1".to_string() };
    let e = ArtifactId { namespace: Some("other".to_string()), name: "x".to_string(), version: "1".to_string() };
    assert!(a.same_as(&a.duplicate()));
    assert!(b.same_as(&b.duplicate()));
    assert_eq!(b.duplicate(), b);
    assert!(!a.same_as(&b));
    assert!(!b.same_as(&a));
    assert!(!b.same_as(&c));
    assert!(!b.same_as(&d));
    assert!(!b.same_as(&e));
}

#[test]
fn a_fetch_names_its_source() {
    let x = artifact("x");
    let y = artifact("y");
    let z = artifact("z");
    let local = Memory {
        name: "local".to_string(),
        items: vec![(y.clone(), vec![7])],
        fails: false,
        asked: Arc::new(AtomicUsize::new(0)),
    };
    let (u1, _) = Memory::upstream("u1", vec![]);
    let (u2, asked2) = Memory::upstream("u2", vec![(x.clone(), vec![1, 2, 3]), (y.clone(), vec![9])]);
    let (u3, asked3) = Memory::upstream("u3", vec![(x.clone(), vec![4])]);
    let upstreams = [u1, u2, u3];
    assert_eq!(fetch_with_upstreams(&local, &upstreams, &x), Ok(Some((vec![1, 2, 3], Source::Upstream(1)))));
    assert_eq!(asked3.load(Ordering::SeqCst), 0);
    assert_eq!(fetch_with_upstreams(&local, &upstreams, &y), Ok(Some((vec![7], Source::Local))));
    assert_eq!(asked2.load(Ordering::SeqCst), 1);
    assert_eq!(fetch_with_upstreams(&local, &upstreams, &z), Ok(None));
    assert_eq!(asked3.load(Ordering::SeqCst), 1);
    assert_eq!(fetch_with_upstreams(&local, &[], &z), Ok(None));
    let broken = Memory { name: "b".to_string(), items: vec![], fails: true, asked: Arc::new(AtomicUsize::new(0)) };
    assert_eq!(
        fetch_with_upstreams(&broken, &upstreams, &x),
        Err(RepositoryError::Failed { message: "store unavailable".to_string() })
    );
}
