use mysgm::error::SgmError;
use mysgm::file_adapter::{decode_value, encode_value, FileAdapter};
use mysgm::state::AgentState;

#[test]
fn state_parts_round_trip() {
    let mut s = AgentState::new("me__0a0b0c0d".to_string(), vec![9, 8], vec![7, 6], 3, 1);
    s.add_group_id("g1".to_string());
    s.add_group_id("g2".to_string());
    s.log_key_package(None);
    let i = s.log_key_package(Some(b"kp".to_vec()));
    s.set_key_package_log_index("peer", i);
    s.increment_welcome_counter();
    s.increment_welcome_counter();
    let r = AgentState::restore(
        s.credential_str().to_string(),
        s.signing_key().to_vec(),
        s.public_key().to_vec(),
        s.ciphersuite(),
        s.version(),
        s.group_ids(),
        s.key_package_log(),
        s.peer_entries(),
        s.welcome_counter(),
    );
    let t = match r {
        Ok(t) => t,
        Err(e) => panic!("restore failed: {e:?}"),
    };
    assert_eq!(t.credential_str(), "me__0a0b0c0d");
    assert_eq!(t.signing_key(), &[9, 8]);
    assert_eq!(t.public_key(), &[7, 6]);
    assert_eq!(t.ciphersuite(), 3);
    assert_eq!(t.version(), 1);
    assert_eq!(t.group_ids(), vec!["g1".to_string(), "g2".to_string()]);
    assert_eq!(t.key_package_log(), vec![None, Some(b"kp".to_vec())]);
    assert_eq!(t.peer_entries(), vec![("peer".to_string(), 1)]);
    assert_eq!(t.welcome_counter(), 2);
}

#[test]
fn restore_rejects_inconsistent_parts() {
    let dup = AgentState::restore(
        "me".to_string(), vec![], vec![], 1, 1,
        vec!["g".to_string(), "g".to_string()], vec![], vec![], 0,
    );
    assert!(matches!(dup, Err(SgmError::Validation(_))));
    let dangling = AgentState::restore(
        "me".to_string(), vec![], vec![], 1, 1,
        vec![], vec![None], vec![("p".to_string(), 0)], 0,
    );
    assert!(matches!(dangling, Err(SgmError::Validation(_))));
    let outside = AgentState::restore(
        "me".to_string(), vec![], vec![], 1, 1,
        vec![], vec![Some(vec![1])], vec![("p".to_string(), 1)], 0,
    );
    assert!(matches!(outside, Err(SgmError::Validation(_))));
    let twice = AgentState::restore(
        "me".to_string(), vec![], vec![], 1, 1,
        vec![], vec![Some(vec![1])], vec![("p".to_string(), 0), ("p".to_string(), 0)], 0,
    );
    assert!(matches!(twice, Err(SgmError::Validation(_))));
}

#[test]
fn file_values_are_hex() {
    assert_eq!(encode_value(&[0x0a, 0xff, 0x00]), "0aff00");
    assert_eq!(decode_value(" 0aff00\n"), Ok(vec![0x0a, 0xff, 0x00]));
    assert_eq!(decode_value("ABCD"), Ok(vec![0xab, 0xcd]));
    assert_eq!(decode_value(&encode_value(b"hello")), Ok(b"hello".to_vec()));
    assert!(matches!(decode_value("abc"), Err(SgmError::StoreIo(_))));
    assert!(matches!(decode_value("zz"), Err(SgmError::StoreIo(_))));
}

#[test]
fn file_adapter_names_files_after_keys() {
    let a = FileAdapter::new("/var/store");
    assert_eq!(a.key_file("kp_0"), "/var/store/kp_0");
}
