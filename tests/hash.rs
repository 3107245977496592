use wkd::db::CertKey;
use wkd::hash::{hash_file_name, mail_to_key_entry, parse_address};

#[test]
fn file_to_entry() {
    assert_eq!(
        mail_to_key_entry("m@example.com").unwrap().unwrap(),
        (
            "m".to_string(),
            CertKey {
                hashed_username: "pcgudogicctdyjg4eiwtmbdr8mda3fze".to_string(),
                domain: "example.com".to_string()
            }
        )
    );
    assert_eq!(
        mail_to_key_entry("hello.world@domain").unwrap().unwrap(),
        (
            "hello.world".to_string(),
            CertKey {
                hashed_username: "nsaw3ax9dxhjee85afxziy7i79oxx6rh".to_string(),
                domain: "domain".to_string()
            }
        )
    );
    assert_eq!(
        mail_to_key_entry("hello.world@sub.domain-asdf.com")
            .unwrap()
            .unwrap(),
        (
            "hello.world".to_string(),
            CertKey {
                hashed_username: "nsaw3ax9dxhjee85afxziy7i79oxx6rh".to_string(),
                domain: "sub.domain-asdf.com".to_string()
            }
        )
    );
}

#[test]
fn file_path_absolute() {
    assert_eq!(
        mail_to_key_entry("hello.world@domain").unwrap().unwrap(),
        (
            "hello.world".to_string(),
            CertKey {
                hashed_username: "nsaw3ax9dxhjee85afxziy7i79oxx6rh".to_string(),
                domain: "domain".to_string()
            }
        )
    );
}

#[test]
fn file_path_empty() {
    assert!(mail_to_key_entry("/").unwrap().is_none());
}

#[test]
fn file_invalid_name() {
    assert!(mail_to_key_entry("hello@asd@ts@@@").unwrap().is_none());
}

#[test]
fn hash_vectors() {
    assert_eq!(hash_file_name("m"), "pcgudogicctdyjg4eiwtmbdr8mda3fze");
    assert_eq!(hash_file_name("hello.world"), "nsaw3ax9dxhjee85afxziy7i79oxx6rh");
    assert_eq!(hash_file_name("m").len(), 32);
}

#[test]
fn hash_is_case_sensitive() {
    assert_ne!(hash_file_name("M"), hash_file_name("m"));
}

#[test]
fn hash_of_empty_local_part() {
    assert_eq!(hash_file_name(""), "5eh48516ppfo4c1iz9z3kaya1nz7obaj");
}

#[test]
fn hash_uses_utf8_bytes() {
    assert_eq!(hash_file_name("jürgen"), "xotup5kjnwdgxj1qa4a6s1j1hx3q5196");
}

#[test]
fn parse_simple_addresses() {
    assert_eq!(
        parse_address("m@example.com"),
        Some(("m".to_string(), "example.com".to_string()))
    );
    assert_eq!(
        parse_address("hello.world@sub.domain-asdf.com"),
        Some(("hello.world".to_string(), "sub.domain-asdf.com".to_string()))
    );
}

#[test]
fn parse_rejects_bad_addresses() {
    assert_eq!(parse_address("hello@asd@@@@"), None);
    assert_eq!(parse_address("hello.txt"), None);
    assert_eq!(parse_address("@example.com"), None);
    assert_eq!(parse_address("user@"), None);
    assert_eq!(parse_address(""), None);
}

#[test]
fn parse_strips_asc_suffix() {
    assert_eq!(
        parse_address("user2@example.com.asc"),
        Some(("user2".to_string(), "example.com".to_string()))
    );
    assert_eq!(
        parse_address("u@x.asc.asc"),
        Some(("u".to_string(), "x.asc".to_string()))
    );
    assert_eq!(parse_address("u@.asc"), Some(("u".to_string(), ".asc".to_string())));
    assert_eq!(parse_address("my-public-key.asc"), None);
}

#[test]
fn parse_keeps_non_ascii() {
    assert_eq!(
        parse_address("jürgen@bücher.de"),
        Some(("jürgen".to_string(), "bücher.de".to_string()))
    );
}
