use std::collections::BTreeSet;
use window_warden::{encode_muted_owners, load_muted_owners};

#[test]
fn missing_muted_owners_file_records_no_owner() {
    assert!(load_muted_owners(None).unwrap().is_empty());
}

#[test]
fn muted_owners_are_read_each_once() {
    let owners = load_muted_owners(Some(br#"[ "game", "music", "game" ]"#)).unwrap();
    assert_eq!(owners.len(), 2);
    assert_eq!(
        owners.into_iter().collect::<BTreeSet<_>>(),
        BTreeSet::from(["game".to_string(), "music".to_string()])
    );
    assert!(load_muted_owners(Some(b"[]")).unwrap().is_empty());
}

#[test]
fn a_malformed_muted_owners_file_is_an_error() {
    assert!(load_muted_owners(Some(b"{\"game\": 1}")).is_err());
    assert!(load_muted_owners(Some(b"[\"game\"")).is_err());
    assert!(load_muted_owners(Some(b"[1]")).is_err());
    let error = load_muted_owners(Some(b"")).unwrap_err();
    assert!(!error.message.is_empty());
}

#[test]
fn muted_owners_written_as_json_read_back() {
    let owners = BTreeSet::from(["game".to_string(), r"c:\games\x.exe".to_string()]);
    let bytes = serde_json::to_vec_pretty(&owners).unwrap();
    let read: BTreeSet<String> = load_muted_owners(Some(&bytes)).unwrap().into_iter().collect();
    assert_eq!(read, owners);
}

#[test]
fn no_owners_means_no_muted_owners_file() {
    assert!(encode_muted_owners(&Vec::new()).is_none());
}

#[test]
fn muted_owners_are_written_once_each_in_order_and_read_back() {
    let owners = vec![
        "music".to_string(),
        r"c:\games\x.exe".to_string(),
        "game".to_string(),
        "music".to_string(),
        "Émile \"quoted\"".to_string(),
    ];
    let bytes = encode_muted_owners(&owners).unwrap();
    let expected = BTreeSet::from([
        "game".to_string(),
        "music".to_string(),
        r"c:\games\x.exe".to_string(),
        "Émile \"quoted\"".to_string(),
    ]);
    assert_eq!(bytes, serde_json::to_vec_pretty(&expected).unwrap());
    let read: BTreeSet<String> = load_muted_owners(Some(&bytes)).unwrap().into_iter().collect();
    assert_eq!(read, expected);
}
