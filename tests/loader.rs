use sequoia_openpgp::cert::{CertBuilder, CipherSuite};
use sequoia_openpgp::parse::Parse;
use sequoia_openpgp::serialize::SerializeInto;
use sequoia_openpgp::Cert;
use std::time::{Duration, SystemTime};
use wkd::db::KeyDb;
use wkd::hash::hash_file_name;
use wkd::db::CertKey;
use wkd::loader::{entries_from_plan, plan_identities, read_key_bytes, LoadError};

fn generate(userids: &[&str]) -> Cert {
    let mut builder = CertBuilder::new()
        .set_cipher_suite(CipherSuite::Cv25519)
        .set_creation_time(SystemTime::now() - Duration::from_secs(3600))
        .add_signing_subkey();
    for u in userids {
        builder = builder.add_userid(*u);
    }
    let (cert, _revocation) = builder.generate().unwrap();
    cert
}

fn emails_of(bytes: &[u8]) -> Vec<String> {
    let cert = Cert::from_bytes(bytes).unwrap();
    assert!(!cert.is_tsk());
    let mut out: Vec<String> = cert
        .userids()
        .map(|u| u.userid().email().unwrap().unwrap())
        .collect();
    out.sort();
    out
}

#[test]
fn round_trip_single_identity() {
    let cert = generate(&["M <m@example.com>"]);
    let armored = cert.armored().to_vec().unwrap();
    let entries = read_key_bytes(&armored, "/keys/m", false).unwrap();
    assert_eq!(entries.len(), 1);
    let mut db = KeyDb::new();
    db.cache_file("/keys/m", Ok(entries)).unwrap();
    let served = db.get(&hash_file_name("m"), "example.com", None).unwrap();
    assert_eq!(emails_of(&served), vec!["m@example.com".to_string()]);
}

#[test]
fn split_identities_serve_one_each() {
    let cert = generate(&["A <a@x.com>", "B <b@x.com>"]);
    let armored = cert.armored().to_vec().unwrap();
    let entries = read_key_bytes(&armored, "/keys/ab", true).unwrap();
    assert_eq!(entries.len(), 2);
    for (key, entry) in &entries {
        assert_eq!(key.domain, "x.com");
        assert_eq!(key.hashed_username, hash_file_name(&entry.username));
        assert_eq!(entry.path, "/keys/ab");
        assert_eq!(emails_of(&entry.cert), vec![format!("{}@x.com", entry.username)]);
    }
}

#[test]
fn unsplit_identities_serve_all() {
    let cert = generate(&["A <a@x.com>", "B <b@x.com>"]);
    let armored = cert.armored().to_vec().unwrap();
    let entries = read_key_bytes(&armored, "/keys/ab", false).unwrap();
    assert_eq!(entries.len(), 2);
    for (_, entry) in &entries {
        assert_eq!(
            emails_of(&entry.cert),
            vec!["a@x.com".to_string(), "b@x.com".to_string()]
        );
    }
}

#[test]
fn secret_key_file_gives_no_entries() {
    let cert = generate(&["M <m@example.com>"]);
    let armored = cert.as_tsk().armored().to_vec().unwrap();
    let entries = read_key_bytes(&armored, "/keys/secret", false).unwrap();
    assert!(entries.is_empty());
}

#[test]
fn garbage_gives_no_entries() {
    let entries = read_key_bytes(b"not a certificate", "/keys/junk", false).unwrap();
    assert!(entries.is_empty());
}

#[test]
fn identity_without_email_is_skipped() {
    let cert = generate(&["Just A Name", "M <m@example.com>"]);
    let armored = cert.armored().to_vec().unwrap();
    let entries = read_key_bytes(&armored, "/keys/m", false).unwrap();
    assert_eq!(entries.len(), 1);
    assert_eq!(entries[0].1.username, "m");
}

#[test]
fn plan_skips_identities_without_email() {
    let emails = vec![None, Some("a@x.com".to_string()), Some("b@y.org".to_string())];
    let plan = plan_identities(&emails).unwrap();
    assert_eq!(
        plan,
        vec![
            (
                1,
                "a".to_string(),
                CertKey {
                    hashed_username: hash_file_name("a"),
                    domain: "x.com".to_string()
                }
            ),
            (
                2,
                "b".to_string(),
                CertKey {
                    hashed_username: hash_file_name("b"),
                    domain: "y.org".to_string()
                }
            ),
        ]
    );
}

#[test]
fn plan_fails_on_unparsable_address() {
    let emails = vec![Some("a@x.com".to_string()), Some("a@b@c".to_string()), None];
    assert_eq!(
        plan_identities(&emails),
        Err(LoadError::UnparsableEmail("a@b@c".to_string()))
    );
    assert_eq!(plan_identities(&vec![]), Ok(vec![]));
}

#[test]
fn entries_follow_the_plan() {
    let emails = vec![Some("a@x.com".to_string()), None, Some("b@y.org".to_string())];
    let plan = plan_identities(&emails).unwrap();
    let entries = entries_from_plan(&plan, vec![vec![1], vec![2, 3]], "/keys/f");
    assert_eq!(entries.len(), 2);
    assert_eq!(entries[0].0, plan[0].2);
    assert_eq!(entries[0].1.username, "a");
    assert_eq!(entries[0].1.cert, vec![1]);
    assert_eq!(entries[0].1.path, "/keys/f");
    assert_eq!(entries[1].0.domain, "y.org");
    assert_eq!(entries[1].1.username, "b");
    assert_eq!(entries[1].1.cert, vec![2, 3]);
}

#[test]
fn two_identities_give_their_keys() {
    let cert = generate(&["A <a@x.com>", "B <b@x.com>"]);
    let armored = cert.armored().to_vec().unwrap();
    let entries = read_key_bytes(&armored, "/keys/ab", true).unwrap();
    let mut keys: Vec<(String, String)> = entries
        .iter()
        .map(|(k, e)| (k.hashed_username.clone(), e.username.clone()))
        .collect();
    keys.sort();
    let mut expected = vec![
        (hash_file_name("a"), "a".to_string()),
        (hash_file_name("b"), "b".to_string()),
    ];
    expected.sort();
    assert_eq!(keys, expected);
}
