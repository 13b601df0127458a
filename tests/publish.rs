use crates_registry::checksum::{crate_cksum, to_hex};
use crates_registry::entry::{Dep, Entries, Entry};
use crates_registry::errors::{RegistryError, RegistryErrors};
use crates_registry::layout::{crate_file_name, crate_file_path, crate_path, download_redirect, index_entry_path};
use crates_registry::publish::{
    crate_write_needed, is_valid_name, is_valid_version, plan_publish, record_publish, PublishBody,
    PublishError, PublishMetadata, MAX_PUBLISH_BODY,
};

fn frame(meta: &[u8], krate: &[u8]) -> Vec<u8> {
    let mut body = Vec::new();
    body.extend_from_slice(&(meta.len() as u32).to_le_bytes());
    body.extend_from_slice(meta);
    body.extend_from_slice(&(krate.len() as u32).to_le_bytes());
    body.extend_from_slice(krate);
    body
}

fn meta(name: &str, vers: &str) -> PublishMetadata {
    PublishMetadata {
        name: name.to_string(),
        vers: vers.to_string(),
        deps: Vec::new(),
        features: Vec::new(),
        links: None,
    }
}

fn entry(name: &str, vers: &str, cksum: &str) -> Entry {
    Entry {
        name: name.to_string(),
        vers: vers.to_string(),
        deps: Vec::new(),
        cksum: cksum.to_string(),
        features: Vec::new(),
        yanked: false,
        links: None,
    }
}

#[test]
fn registry_error_encoding() {
    let expected = r#"{"errors":[{"detail":"error message text"}]}"#;
    let errors = RegistryErrors {
        errors: vec![RegistryError {
            detail: "error message text".to_string(),
        }],
    };
    assert_eq!(errors.to_json(), expected);
}

#[test]
fn error_body_lists_each_layer_and_escapes() {
    let errors = RegistryErrors::from_messages(vec![
        "failed to publish".to_string(),
        "say \"hi\"".to_string(),
    ]);
    assert_eq!(
        errors.to_json(),
        r#"{"errors":[{"detail":"failed to publish"},{"detail":"say \"hi\""}]}"#
    );
    assert_eq!(RegistryErrors::from_messages(Vec::new()).to_json(), r#"{"errors":[]}"#);
}

#[test]
fn duplicate_publish_error_body() {
    let mut entries = Entries::new();
    record_publish(&mut entries, entry("foo", "0.1.0", "aa")).unwrap();
    let err = record_publish(&mut entries, entry("foo", "0.1.0", "bb")).unwrap_err();
    let body = RegistryErrors::from_messages(vec![err.message()]).to_json();
    assert_eq!(body, r#"{"errors":[{"detail":"crate foo-0.1.0 is already published"}]}"#);
}

#[test]
fn download_redirect_for_serde() {
    assert_eq!(download_redirect("serde", "1.0.0"), "/crates/se/rd/serde-1.0.0.crate");
}

#[test]
fn shard_by_name_length() {
    assert_eq!(crate_path("a"), vec!["1"]);
    assert_eq!(crate_path("ab"), vec!["2"]);
    assert_eq!(crate_path("Foo"), vec!["3", "f"]);
    assert_eq!(crate_path("Serde_Json"), vec!["se", "rd"]);
    assert_eq!(crate_file_name("Foo", "1.2.3"), "Foo-1.2.3.crate");
    assert_eq!(crate_file_path("Foo", "1.2.3"), vec!["3", "f", "Foo-1.2.3.crate"]);
    assert_eq!(index_entry_path("Serde_Json"), vec!["se", "rd", "serde_json"]);
    assert_eq!(download_redirect("foo", "0.1.0"), "/crates/3/f/foo-0.1.0.crate");
    assert_eq!(download_redirect("a", "1.0.0"), "/crates/1/a-1.0.0.crate");
}

#[test]
fn sha256_of_crate_bytes() {
    assert_eq!(
        crate_cksum(b"hello"),
        "2cf24dba5fb0a30e26e83b2ac5b9e29e1b161e5c1fa7425e73043362938b9824"
    );
    assert_eq!(
        crate_cksum(b""),
        "e3b0c44298fc1c149afbf4c8996fb92427ae41e4649b934ca495991b7852b855"
    );
    assert_eq!(to_hex(&[0x00, 0x0f, 0xa5, 0xff]), "000fa5ff");
}

#[test]
fn fresh_publish_scenario() {
    let metadata = br#"{"name":"foo","vers":"0.1.0","deps":[],"features":{},"links":null}"#;
    let body = frame(metadata, b"hello");
    let parsed = PublishBody::parse(&body).unwrap();
    assert_eq!(parsed.metadata, metadata.to_vec());
    assert_eq!(parsed.crate_file, b"hello".to_vec());
    let plan = plan_publish(meta("foo", "0.1.0"), &parsed.crate_file).unwrap();
    assert_eq!(plan.crate_path, vec!["3", "f", "foo-0.1.0.crate"]);
    assert_eq!(plan.index_path, vec!["3", "f", "foo"]);
    assert_eq!(plan.commit_message, "Publish foo-0.1.0");
    assert_eq!(
        plan.entry.cksum,
        "2cf24dba5fb0a30e26e83b2ac5b9e29e1b161e5c1fa7425e73043362938b9824"
    );
    assert!(!plan.entry.yanked);
    let mut entries = Entries::new();
    assert!(record_publish(&mut entries, plan.entry).is_ok());
    assert_eq!(entries.len(), 1);
    assert_eq!(download_redirect("foo", "0.1.0"), "/crates/3/f/foo-0.1.0.crate");
}

#[test]
fn publish_body_errors() {
    assert!(matches!(PublishBody::parse(&[1, 0]), Err(PublishError::BodyTruncated)));
    assert!(matches!(PublishBody::parse(&[5, 0, 0, 0, 1, 2]), Err(PublishError::BodyTruncated)));
    let mut short = frame(b"{}", b"abc");
    short.pop();
    assert!(matches!(PublishBody::parse(&short), Err(PublishError::BodyTruncated)));
    let mut long = frame(b"{}", b"abc");
    long.push(0);
    assert!(matches!(PublishBody::parse(&long), Err(PublishError::BodyTrailingBytes)));
    let big = vec![0u8; MAX_PUBLISH_BODY + 1];
    assert!(matches!(PublishBody::parse(&big), Err(PublishError::BodyTooLarge)));
    let empty = PublishBody::parse(&frame(b"", b"")).unwrap();
    assert!(empty.metadata.is_empty() && empty.crate_file.is_empty());
}

#[test]
fn publish_metadata_checks() {
    assert!(is_valid_name("serde_json-2"));
    assert!(!is_valid_name(""));
    assert!(!is_valid_name("../etc"));
    assert!(is_valid_version("1.0.0-beta.1+build"));
    assert!(!is_valid_version("1.0/0"));
    assert!(matches!(plan_publish(meta("", "1.0.0"), b"x"), Err(PublishError::InvalidName)));
    assert!(matches!(plan_publish(meta("a/b", "1.0.0"), b"x"), Err(PublishError::InvalidName)));
    assert!(matches!(plan_publish(meta("ok", ""), b"x"), Err(PublishError::InvalidVersion)));
    assert_eq!(PublishError::InvalidName.message(), "invalid crate name");
}

#[test]
fn crate_file_rewrite_rules() {
    assert!(matches!(crate_write_needed(None, b"abc"), Ok(true)));
    assert!(matches!(crate_write_needed(Some(b"abc"), b"abc"), Ok(false)));
    assert!(matches!(crate_write_needed(Some(b"abd"), b"abc"), Err(PublishError::CrateFileMismatch)));
    assert!(matches!(crate_write_needed(Some(b"ab"), b"abc"), Err(PublishError::CrateFileMismatch)));
}

#[test]
fn same_version_from_many_clients() {
    let mut entries = Entries::new();
    record_publish(&mut entries, entry("bar", "0.9.0", "00")).unwrap();
    let mut successes = 0;
    let mut conflicts = 0;
    for i in 0..5 {
        match record_publish(&mut entries, entry("foo", "1.0.0", &format!("{i}"))) {
            Ok(()) => successes += 1,
            Err(PublishError::DuplicateVersion { name, vers }) => {
                assert_eq!(name, "foo");
                assert_eq!(vers, "1.0.0");
                conflicts += 1;
            }
            Err(_) => panic!("unexpected error"),
        }
    }
    assert_eq!(successes, 1);
    assert_eq!(conflicts, 4);
    assert_eq!(entries.len(), 2);
    let versions: Vec<&str> = entries.records().iter().map(|e| e.vers.as_str()).collect();
    assert_eq!(versions, vec!["0.9.0", "1.0.0"]);
    assert_eq!(entries.records()[1].cksum, "0");
}

#[test]
fn distinct_versions_all_recorded() {
    let mut entries = Entries::new();
    for (i, v) in ["0.1.0", "0.2.0", "1.0.0"].iter().enumerate() {
        let plan = plan_publish(meta("foo", v), format!("crate {i}").as_bytes()).unwrap();
        record_publish(&mut entries, plan.entry).unwrap();
    }
    assert_eq!(entries.len(), 3);
    for (i, e) in entries.records().iter().enumerate() {
        assert_eq!(e.cksum, crate_cksum(format!("crate {i}").as_bytes()));
    }
    assert!(entries.contains_version("0.2.0"));
    assert!(!entries.contains_version("0.3.0"));
}

#[test]
fn entry_set_ignores_equal_records() {
    let dep = Dep {
        name: "serde".to_string(),
        req: "^1".to_string(),
        features: vec!["derive".to_string()],
        optional: false,
        default_features: true,
        target: None,
        kind: Some("normal".to_string()),
        registry: None,
        package: None,
    };
    let mut a = entry("foo", "1.0.0", "ab");
    a.deps.push(dep);
    a.features.push(("std".to_string(), vec!["serde/std".to_string()]));
    let mut b = entry("foo", "1.0.0", "ab");
    b.deps.push(Dep {
        name: "serde".to_string(),
        req: "^1".to_string(),
        features: vec!["derive".to_string()],
        optional: false,
        default_features: true,
        target: None,
        kind: Some("normal".to_string()),
        registry: None,
        package: None,
    });
    b.features.push(("std".to_string(), vec!["serde/std".to_string()]));
    assert!(a.same_as(&b));
    b.yanked = true;
    assert!(!a.same_as(&b));
    let mut entries = Entries::new();
    assert!(entries.insert(entry("foo", "1.0.0", "ab")));
    assert!(!entries.insert(entry("foo", "1.0.0", "ab")));
    assert!(entries.insert(entry("foo", "1.0.0", "cd")));
    assert_eq!(entries.len(), 2);
    let set = Entries::from_records(vec![
        entry("foo", "1.0.0", "ab"),
        entry("foo", "1.1.0", "ab"),
        entry("foo", "1.0.0", "ab"),
    ]);
    assert_eq!(set.len(), 2);
}
