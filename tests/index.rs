use wkd::db::{CertEntry, CertKey, KeyDb};
use wkd::hash::hash_file_name;
use wkd::loader::LoadError;

fn pair(local: &str, domain: &str, cert: &[u8], path: &str) -> (CertKey, CertEntry) {
    (
        CertKey {
            hashed_username: hash_file_name(local),
            domain: domain.to_string(),
        },
        CertEntry {
            username: local.to_string(),
            cert: cert.to_vec(),
            path: path.to_string(),
        },
    )
}

#[test]
fn empty_index_finds_nothing() {
    let db = KeyDb::new();
    assert_eq!(db.get(&hash_file_name("m"), "example.com", None), None);
}

#[test]
fn load_then_lookup() {
    let mut db = KeyDb::new();
    let r = db.cache_file("/k/m", Ok(vec![pair("m", "example.com", &[1, 2, 3], "/k/m")]));
    assert_eq!(r, Ok(()));
    assert_eq!(
        db.get(&hash_file_name("m"), "example.com", None),
        Some(vec![1, 2, 3])
    );
    assert_eq!(db.get(&hash_file_name("m"), "example.org", None), None);
    assert_eq!(db.get(&hash_file_name("n"), "example.com", None), None);
}

#[test]
fn local_part_confirmation() {
    let mut db = KeyDb::new();
    db.cache_file("/k/m", Ok(vec![pair("Mia", "x.com", &[7], "/k/m")]))
        .unwrap();
    let h = hash_file_name("Mia");
    assert_eq!(db.get(&h, "x.com", Some(&"Mia".to_string())), Some(vec![7]));
    assert_eq!(db.get(&h, "x.com", Some(&"mia".to_string())), None);
    assert_eq!(db.get(&h, "x.com", Some(&"other".to_string())), None);
    assert_eq!(db.get(&h, "x.com", None), Some(vec![7]));
}

#[test]
fn edit_drops_removed_identity() {
    let mut db = KeyDb::new();
    db.cache_file(
        "/k/f",
        Ok(vec![pair("a", "x.com", &[1], "/k/f"), pair("b", "x.com", &[2], "/k/f")]),
    )
    .unwrap();
    assert_eq!(db.get(&hash_file_name("a"), "x.com", None), Some(vec![1]));
    db.cache_file("/k/f", Ok(vec![pair("b", "x.com", &[3], "/k/f")]))
        .unwrap();
    assert_eq!(db.get(&hash_file_name("a"), "x.com", None), None);
    assert_eq!(db.get(&hash_file_name("b"), "x.com", None), Some(vec![3]));
}

#[test]
fn deletion_keeps_other_files() {
    let mut db = KeyDb::new();
    db.cache_file(
        "/k/one",
        Ok(vec![pair("a", "x.com", &[1], "/k/one"), pair("b", "x.com", &[2], "/k/one")]),
    )
    .unwrap();
    db.cache_file("/k/two", Ok(vec![pair("c", "y.org", &[3], "/k/two")]))
        .unwrap();
    db.remove_file_from_cache("/k/one");
    assert_eq!(db.get(&hash_file_name("a"), "x.com", None), None);
    assert_eq!(db.get(&hash_file_name("b"), "x.com", None), None);
    assert_eq!(db.get(&hash_file_name("c"), "y.org", None), Some(vec![3]));
}

#[test]
fn failed_reload_purges_path() {
    let mut db = KeyDb::new();
    db.cache_file("/k/f", Ok(vec![pair("a", "x.com", &[1], "/k/f")]))
        .unwrap();
    let r = db.cache_file("/k/f", Err(LoadError::InvalidCertificate));
    assert_eq!(r, Err(LoadError::InvalidCertificate));
    assert_eq!(db.get(&hash_file_name("a"), "x.com", None), None);
}

#[test]
fn last_writer_wins_on_equal_keys() {
    let mut db = KeyDb::new();
    db.cache_file("/k/one", Ok(vec![pair("a", "x.com", &[1], "/k/one")]))
        .unwrap();
    db.cache_file("/k/two", Ok(vec![pair("a", "x.com", &[2], "/k/two")]))
        .unwrap();
    assert_eq!(db.get(&hash_file_name("a"), "x.com", None), Some(vec![2]));
    db.remove_file_from_cache("/k/one");
    assert_eq!(db.get(&hash_file_name("a"), "x.com", None), Some(vec![2]));
    db.remove_file_from_cache("/k/two");
    assert_eq!(db.get(&hash_file_name("a"), "x.com", None), None);
}

#[test]
fn same_key_twice_in_one_file() {
    let mut db = KeyDb::new();
    db.cache_file(
        "/k/f",
        Ok(vec![pair("a", "x.com", &[1], "/k/f"), pair("a", "x.com", &[9], "/k/f")]),
    )
    .unwrap();
    assert_eq!(db.get(&hash_file_name("a"), "x.com", None), Some(vec![9]));
}

#[test]
fn empty_reload_contributes_nothing() {
    let mut db = KeyDb::new();
    db.cache_file("/k/f", Ok(vec![pair("a", "x.com", &[1], "/k/f")]))
        .unwrap();
    db.cache_file("/k/f", Ok(vec![])).unwrap();
    assert_eq!(db.get(&hash_file_name("a"), "x.com", None), None);
}
