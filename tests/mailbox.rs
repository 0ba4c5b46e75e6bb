use mysgm::coordinator::{
    add_step, AddPhase, GROUP_SUFFIX_LEN, advertise, commit_key, group_id_for, key_package_slot_key, key_packages_for, next_key_package,
    next_welcome, publish_commit, publish_welcome, record_key_package, record_welcome, self_id_for,
    welcome_slot_key,
};
use mysgm::error::SgmError;
use mysgm::mailbox::{after_put, allocate, poll_slot, slot_key_string, slot_outcome, AllocStep};
use mysgm::state::AgentState;
use mysgm::store::MemStore;
use mysgm::text::decimal_string;

fn fresh_agent(label: &str) -> AgentState {
    AgentState::new(
        label.to_string(),
        vec![1, 2, 3],
        vec![0xde, 0xad, 0xbe, 0xef, 0x00],
        3,
        1,
    )
}

#[test]
fn put_if_absent_scenario() {
    let mut store = MemStore::new();
    assert_eq!(store.put_if_absent("kp_0", b"A"), Ok(()));
    assert_eq!(store.put_if_absent("kp_0", b"B"), Err(SgmError::KeyConflict));
    assert_eq!(store.put_if_absent("kp_1", b"B"), Ok(()));
    assert_eq!(store.get("kp_0"), Some(b"A".to_vec()));
    assert_eq!(store.get("kp_1"), Some(b"B".to_vec()));
    assert_eq!(store.get("kp_2"), None);
}

#[test]
fn second_put_with_same_value_conflicts() {
    let mut store = MemStore::new();
    assert_eq!(store.put_if_absent("k", b"v"), Ok(()));
    assert_eq!(store.put_if_absent("k", b"v"), Err(SgmError::KeyConflict));
    assert_eq!(store.get("k"), Some(b"v".to_vec()));
}

#[test]
fn two_agents_advertise_concurrently() {
    let mut store = MemStore::new();
    let a = fresh_agent("a");
    let b = fresh_agent("b");
    // Both start from an empty log, so both estimate slot zero.
    assert_eq!(advertise(&a, &mut store, b"kp-a"), Ok(0));
    assert_eq!(advertise(&b, &mut store, b"kp-b"), Ok(1));
    assert_eq!(store.get("kp_0"), Some(b"kp-a".to_vec()));
    assert_eq!(store.get("kp_1"), Some(b"kp-b".to_vec()));
}

#[test]
fn allocations_from_stale_candidates_stay_gapless() {
    let mut store = MemStore::new();
    let mut taken = Vec::new();
    for i in 0..6u8 {
        taken.push(allocate(&mut store, "wm_", 0, &[i], 100).unwrap());
    }
    assert_eq!(taken, vec![0, 1, 2, 3, 4, 5]);
    for i in 0..6usize {
        assert_eq!(store.get(&format!("wm_{i}")), Some(vec![i as u8]));
    }
    assert_eq!(store.get("wm_6"), None);
}

#[test]
fn allocation_reports_exhaustion() {
    let mut store = MemStore::new();
    for i in 0..3usize {
        store.put_if_absent(&format!("kp_{i}"), b"x").unwrap();
    }
    assert_eq!(allocate(&mut store, "kp_", 0, b"y", 3), Err(SgmError::SlotAllocationExhausted));
    assert_eq!(store.get("kp_3"), None);
    assert_eq!(allocate(&mut store, "kp_", 0, b"y", 4), Ok(3));
}

#[test]
fn after_put_decisions() {
    assert_eq!(after_put(4, 1, 3, Ok(())), AllocStep::Written(4));
    assert_eq!(after_put(4, 1, 3, Err(SgmError::KeyConflict)), AllocStep::Retry(5));
    assert_eq!(
        after_put(4, 3, 3, Err(SgmError::KeyConflict)),
        AllocStep::Failed(SgmError::SlotAllocationExhausted)
    );
    assert_eq!(
        after_put(4, 1, 3, Err(SgmError::StoreIo("disk".to_string()))),
        AllocStep::Failed(SgmError::StoreIo("disk".to_string()))
    );
}

#[test]
fn drain_of_empty_mailbox_is_empty() {
    let store = MemStore::new();
    let a = fresh_agent("a");
    assert_eq!(next_key_package(&a, &store), Err(SgmError::MailboxEmpty));
    assert_eq!(next_welcome(&a, &store), Err(SgmError::MailboxEmpty));
    assert_eq!(a.key_package_count(), 0);
    assert_eq!(a.welcome_counter(), 0);
}

#[test]
fn consumption_cursor_follows_written_slots() {
    let mut store = MemStore::new();
    let mut a = fresh_agent("a");
    let b = fresh_agent("b");
    advertise(&b, &mut store, b"kp-b").unwrap();
    let bytes = next_key_package(&a, &store).unwrap();
    assert_eq!(bytes, b"kp-b".to_vec());
    record_key_package(&mut a, Ok(("b".to_string(), bytes))).unwrap();
    assert_eq!(a.key_package_count(), 1);
    assert_eq!(next_key_package(&a, &store), Err(SgmError::MailboxEmpty));
    assert_eq!(a.key_package_count(), 1);
    assert_eq!(poll_slot(&store, "kp_", 0), Ok(b"kp-b".to_vec()));
}

#[test]
fn failed_validation_logs_a_placeholder() {
    let mut a = fresh_agent("a");
    let r = record_key_package(&mut a, Err(SgmError::Validation("bad".to_string())));
    assert_eq!(r, Err(SgmError::Validation("bad".to_string())));
    assert_eq!(a.key_package_count(), 1);
    assert_eq!(a.key_package_slot(0), None);
    assert!(a.agent_ids().is_empty());
    record_key_package(&mut a, Ok(("p".to_string(), b"kp".to_vec()))).unwrap();
    assert_eq!(a.get_key_package_log_index("p"), Some(1));
    assert_eq!(a.get_key_package("p"), Some(b"kp".to_vec()));
}

#[test]
fn readvertisement_moves_the_peer_index() {
    let mut a = fresh_agent("a");
    record_key_package(&mut a, Ok(("p".to_string(), b"old".to_vec()))).unwrap();
    record_key_package(&mut a, Ok(("q".to_string(), b"q1".to_vec()))).unwrap();
    record_key_package(&mut a, Ok(("p".to_string(), b"new".to_vec()))).unwrap();
    assert_eq!(a.get_key_package_log_index("p"), Some(2));
    assert_eq!(a.get_key_package("p"), Some(b"new".to_vec()));
    let mut ids = a.agent_ids();
    ids.sort();
    assert_eq!(ids, vec!["p".to_string(), "q".to_string()]);
}

#[test]
fn welcome_cursor_advances_on_failure_too() {
    let mut a = fresh_agent("a");
    let r = record_welcome(&mut a, Err(SgmError::Engine("join".to_string())));
    assert_eq!(r, Err(SgmError::Engine("join".to_string())));
    assert_eq!(a.welcome_counter(), 1);
    assert!(a.group_ids().is_empty());
    record_welcome(&mut a, Ok("g__00".to_string())).unwrap();
    record_welcome(&mut a, Ok("g__00".to_string())).unwrap();
    assert_eq!(a.welcome_counter(), 3);
    assert_eq!(a.group_ids(), vec!["g__00".to_string()]);
}

#[test]
fn create_group_id_shape() {
    let gid = group_id_for("team", &[0xde, 0xad, 0xbe, 0xef]);
    assert_eq!(gid, "team__deadbeef");
    let suffix = &gid["team__".len()..];
    assert_eq!(suffix.len(), 8);
    assert!(suffix.chars().all(|c| c.is_ascii_hexdigit()));
    let mut a = fresh_agent("a");
    a.add_group_id(gid.clone());
    assert_eq!(a.group_ids(), vec![gid.clone()]);
    assert!(a.has_group("team__deadbeef"));
    assert!(!a.has_group("team"));
}

#[test]
fn self_id_takes_eight_hex_digits() {
    assert_eq!(self_id_for("agent", &[0x01, 0x23, 0x45, 0x67, 0x89]), "agent__01234567");
    assert_eq!(self_id_for("x", &[0xab]), "x__ab");
}

#[test]
fn add_to_group_publishes_commit_and_welcome() {
    let mut store = MemStore::new();
    let mut a = fresh_agent("a");
    record_key_package(&mut a, Ok(("p1".to_string(), b"kp1".to_vec()))).unwrap();
    record_key_package(&mut a, Ok(("p2".to_string(), b"kp2".to_vec()))).unwrap();
    let kps = key_packages_for(&a, &vec!["p1".to_string(), "p2".to_string()]).unwrap();
    assert_eq!(kps, vec![b"kp1".to_vec(), b"kp2".to_vec()]);
    let secret = [0x0f, 0xa0];
    assert_eq!(publish_commit(&mut store, &secret, b"commit"), Ok(()));
    assert_eq!(publish_welcome(&a, &mut store, b"welcome"), Ok(0));
    assert_eq!(store.get("cm_0fa0"), Some(b"commit".to_vec()));
    assert_eq!(store.get("wm_0"), Some(b"welcome".to_vec()));
    assert_eq!(store.get("wm_1"), None);
    assert_eq!(publish_commit(&mut store, &secret, b"again"), Err(SgmError::KeyConflict));
}

#[test]
fn missing_peer_is_not_found() {
    let mut a = fresh_agent("a");
    record_key_package(&mut a, Ok(("p1".to_string(), b"kp1".to_vec()))).unwrap();
    let r = key_packages_for(&a, &vec!["p1".to_string(), "ghost".to_string()]);
    assert_eq!(r, Err(SgmError::NotFound("ghost".to_string())));
}

#[test]
fn slot_keys_are_decimal() {
    assert_eq!(decimal_string(0), "0");
    assert_eq!(decimal_string(1234), "1234");
    assert_eq!(slot_key_string("kp_", 12), "kp_12");
    assert_eq!(commit_key(&[0xab, 0x01]), "cm_ab01");
    let mut a = fresh_agent("a");
    assert_eq!(key_package_slot_key(&a), "kp_0");
    record_welcome(&mut a, Ok("g".to_string())).unwrap();
    assert_eq!(welcome_slot_key(&a), "wm_1");
}

#[test]
fn add_phases_run_in_order_and_stop_on_failure() {
    assert_eq!(add_step(AddPhase::PublishCommit, Ok(())), Ok(AddPhase::MergeCommit));
    assert_eq!(add_step(AddPhase::MergeCommit, Ok(())), Ok(AddPhase::PublishWelcome));
    assert_eq!(add_step(AddPhase::PublishWelcome, Ok(())), Ok(AddPhase::Done));
    assert_eq!(
        add_step(AddPhase::PublishCommit, Err(SgmError::KeyConflict)),
        Err(SgmError::KeyConflict)
    );
    assert_eq!(
        add_step(AddPhase::MergeCommit, Err(SgmError::Engine("merge".to_string()))),
        Err(SgmError::Engine("merge".to_string()))
    );
}

#[test]
fn empty_slot_reads_as_mailbox_empty() {
    assert_eq!(slot_outcome(None), Err(SgmError::MailboxEmpty));
    assert_eq!(slot_outcome(Some(vec![7])), Ok(vec![7]));
}

#[test]
fn group_suffix_is_four_bytes() {
    assert_eq!(GROUP_SUFFIX_LEN, 4);
    let gid = group_id_for("g", &[0x00, 0x1f, 0xa0, 0xff]);
    assert_eq!(gid, "g__001fa0ff");
}
