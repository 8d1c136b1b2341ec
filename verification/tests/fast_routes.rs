use holger::exposed::fast_routes::FastRoutes;
use holger::repository::rust::RustRepo;
use holger::repository::rust_znippy::RustRepoZnippy;
use holger::repository::types::RepositoryBackend;
use std::sync::Arc;

fn table(names: &[&str]) -> FastRoutes<usize> {
    let mut routes: Vec<(String, usize)> = Vec::new();
    for (i, n) in names.iter().enumerate() {
        routes.push((n.to_string(), i));
    }
    FastRoutes::new(routes)
}

#[test]
fn lookup_in_empty_table_finds_nothing() {
    let t = table(&[]);
    assert_eq!(t.lookup("crates1"), None);
    assert_eq!(t.lookup(""), None);
    assert_eq!(t.lookup("a"), None);
    assert_eq!(t.len(), 0);
}

#[test]
fn lookup_finds_each_registered_name() {
    let names = ["crates1", "pip-prod", "c", "raw", "crates", "maven", "p"];
    let t = table(&names);
    for (i, n) in names.iter().enumerate() {
        assert_eq!(t.lookup(n), Some(&i));
    }
    assert_eq!(t.lookup("crate"), None);
    assert_eq!(t.lookup("crates12"), None);
    assert_eq!(t.lookup("unknown"), None);
    assert_eq!(t.lookup(""), None);
}

#[test]
fn lookup_single_character_name() {
    let t = table(&["a"]);
    assert_eq!(t.lookup("a"), Some(&0));
    assert_eq!(t.lookup("b"), None);
    assert_eq!(t.lookup("aa"), None);
}

#[test]
fn lookup_empty_name_is_a_name_like_any_other() {
    let t = table(&["x", ""]);
    assert_eq!(t.lookup(""), Some(&1));
    assert_eq!(t.lookup("x"), Some(&0));
}

#[test]
fn routes_are_ordered_by_first_byte_then_length() {
    let t = table(&["bbb", "a", "ccc", "bb", "aaaa", "b", "ab"]);
    let order: Vec<&str> = t.routes().iter().map(|r| r.name.as_str()).collect();
    assert_eq!(order, vec!["a", "ab", "aaaa", "b", "bb", "bbb", "ccc"]);
}

#[test]
fn routes_with_equal_keys_keep_their_order() {
    let t = table(&["bz", "ba", "bm", "ab", "aa"]);
    let order: Vec<&str> = t.routes().iter().map(|r| r.name.as_str()).collect();
    assert_eq!(order, vec!["ab", "aa", "bz", "ba", "bm"]);
}

#[test]
fn lookup_of_a_name_given_twice_finds_the_first() {
    let t = table(&["dup", "other", "dup"]);
    assert_eq!(t.lookup("dup"), Some(&0));
}

#[test]
fn lookup_distinguishes_non_ascii_names() {
    let t = table(&["é", "è", "e"]);
    assert_eq!(t.lookup("é"), Some(&0));
    assert_eq!(t.lookup("è"), Some(&1));
    assert_eq!(t.lookup("e"), Some(&2));
    assert_eq!(t.lookup("ê"), None);
}

#[test]
fn a_table_can_hold_shared_backends() {
    let crates1: Arc<dyn RepositoryBackend> = Arc::new(RustRepo::new("crates1".to_string()));
    let archive: Arc<dyn RepositoryBackend> = Arc::new(RustRepoZnippy::new("archive".to_string()));
    let t = FastRoutes::new(vec![
        ("crates1".to_string(), crates1.clone()),
        ("archive".to_string(), archive),
        ("alias".to_string(), crates1),
    ]);
    assert_eq!(t.lookup("crates1").unwrap().name(), "crates1");
    assert_eq!(t.lookup("alias").unwrap().name(), "crates1");
    assert_eq!(t.lookup("archive").unwrap().name(), "archive");
    assert!(t.lookup("crates").is_none());
    let answer = t.lookup("archive").unwrap().handle_http2_request("index/config.json", b"").unwrap();
    assert_eq!(answer.0, 200);
}

#[test]
fn every_leading_byte_has_its_run() {
    let t = table(&["bbb", "a", "ccc", "bb", "aaaa", "b", "ab", ""]);
    assert_eq!(t.bucket(0), (0, 1));
    assert_eq!(t.bucket(b'a'), (1, 3));
    assert_eq!(t.bucket(b'b'), (4, 3));
    assert_eq!(t.bucket(b'c'), (7, 1));
    assert_eq!(t.bucket(b'd').1, 0);
    assert_eq!(t.bucket(255).1, 0);
    let empty = table(&[]);
    for b in 0..=255u8 {
        assert_eq!(empty.bucket(b), (0, 0));
    }
}
