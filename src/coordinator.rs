use vstd::prelude::*;
use crate::error::SgmError;
use crate::mailbox::{allocate, allocated, poll_slot, slot_key, slot_key_string, slot_written};
use crate::state::AgentState;
use crate::store::{put_outcome, MemStore};
use crate::text::{concat, hex_encode, hex_of, is_lower_hex_char, lemma_hex_of_is_hex_text};

verus! {

/// How many slots an allocation tries before it reports exhaustion.
pub const MAX_ALLOCATION_TRIES: usize = 4096;

/// The mailbox of key packages.
pub open spec fn kp_prefix() -> Seq<char> {
    seq!['k', 'p', '_']
}

/// The mailbox of welcome messages.
pub open spec fn wm_prefix() -> Seq<char> {
    seq!['w', 'm', '_']
}

/// The key space of commits, keyed by an exported secret.
pub open spec fn cm_prefix() -> Seq<char> {
    seq!['c', 'm', '_']
}

/// The separator between a label and its random suffix.
pub open spec fn id_separator() -> Seq<char> {
    seq!['_', '_']
}

pub fn key_package_prefix() -> (r: &'static str)
    ensures
        r@ == kp_prefix(),
{
    proof {
        reveal_strlit("kp_");
    }
    "kp_"
}

pub fn welcome_prefix() -> (r: &'static str)
    ensures
        r@ == wm_prefix(),
{
    proof {
        reveal_strlit("wm_");
    }
    "wm_"
}

pub fn commit_prefix() -> (r: &'static str)
    ensures
        r@ == cm_prefix(),
{
    proof {
        reveal_strlit("cm_");
    }
    "cm_"
}

fn separator() -> (r: &'static str)
    ensures
        r@ == id_separator(),
{
    proof {
        reveal_strlit("__");
    }
    "__"
}

/// The first `n` bytes of `b`.
fn first_bytes(b: &[u8], n: usize) -> (r: Vec<u8>)
    requires
        n <= b@.len(),
    ensures
        r@ == b@.subrange(0, n as int),
{
    let mut r: Vec<u8> = Vec::new();
    let mut i: usize = 0;
    while i < n
        invariant
            i <= n <= b@.len(),
            r@ == b@.subrange(0, i as int),
        decreases n - i,
    {
        r.push(b[i]);
        i = i + 1;
        assert(r@ =~= b@.subrange(0, i as int));
    }
    r
}

/// The hex form of a prefix of some bytes is the matching prefix of their hex form.
pub proof fn lemma_hex_prefix(b: Seq<u8>, n: int)
    requires
        0 <= n <= b.len(),
    ensures
        hex_of(b).len() == 2 * b.len(),
        hex_of(b.subrange(0, n)) == hex_of(b).subrange(0, 2 * n),
    decreases b.len(),
{
    if b.len() > 0 {
        lemma_hex_prefix(b.drop_last(), if n == b.len() { 0 } else { n });
        if n < b.len() {
            assert(b.drop_last().subrange(0, n) =~= b.subrange(0, n));
            assert(hex_of(b).subrange(0, 2 * n) =~= hex_of(b.drop_last()).subrange(0, 2 * n));
        } else {
            assert(b.subrange(0, n) =~= b);
            assert(hex_of(b).subrange(0, 2 * n) =~= hex_of(b));
        }
    } else {
        assert(b.subrange(0, n) =~= b);
        assert(hex_of(b).subrange(0, 2 * n) =~= hex_of(b));
    }
}

/// An agent id: the label, `__`, and the first eight hex digits of the public
/// signature key (all of them, for a key shorter than four bytes).
pub fn self_id_for(label: &str, public_key: &[u8]) -> (r: String)
    ensures
        r@ == label@ + id_separator() + hex_of(public_key@).subrange(
            0,
            if public_key@.len() < 4 { 2 * public_key@.len() as int } else { 8 },
        ),
{
    let n: usize = if public_key.len() < 4 { public_key.len() } else { 4 };
    let head = first_bytes(public_key, n);
    let h = hex_encode(head.as_slice());
    proof {
        lemma_hex_prefix(public_key@, n as int);
    }
    let with_sep = concat(label, separator());
    concat(with_sep.as_str(), h.as_str())
}

/// How many random bytes end a group id.
pub const GROUP_SUFFIX_LEN: usize = 4;

/// A group id: the label, `__`, and the hex form of a random suffix of
/// `GROUP_SUFFIX_LEN` bytes, that is eight lowercase hex digits.
pub fn group_id_for(label: &str, suffix: &[u8]) -> (r: String)
    requires
        suffix@.len() == GROUP_SUFFIX_LEN,
    ensures
        r@ == label@ + id_separator() + hex_of(suffix@),
        r@.len() == label@.len() + 10,
        forall|i: int| label@.len() + 2 <= i < r@.len() ==> is_lower_hex_char(#[trigger] r@[i]),
{
    let h = hex_encode(suffix);
    proof {
        lemma_hex_of_is_hex_text(suffix@);
    }
    let with_sep = concat(label, separator());
    concat(with_sep.as_str(), h.as_str())
}

/// The store key of a commit: `cm_` and the hex form of the secret exported
/// from the group's epoch, which only current members can derive.
pub fn commit_key(exported: &[u8]) -> (r: String)
    ensures
        r@ == cm_prefix() + hex_of(exported@),
{
    let h = hex_encode(exported);
    concat(commit_prefix(), h.as_str())
}

/// The store key of the next key-package slot this agent will read.
pub fn key_package_slot_key(state: &AgentState) -> (r: String)
    ensures
        r@ == slot_key(kp_prefix(), state.log().len()),
{
    slot_key_string(key_package_prefix(), state.key_package_count())
}

/// The store key of the next welcome slot this agent will read.
pub fn welcome_slot_key(state: &AgentState) -> (r: String)
    ensures
        r@ == slot_key(wm_prefix(), state.welcome_cursor()),
{
    slot_key_string(welcome_prefix(), state.welcome_counter())
}

/// Records the outcome of consuming one key-package slot. Either way the slot
/// is consumed: a validated artifact, with the identity of its sender, is logged
/// and the sender now points at it; a failure logs a placeholder and is
/// reported as it came.
pub fn record_key_package(state: &mut AgentState, outcome: Result<(String, Vec<u8>), SgmError>) -> (r: Result<(), SgmError>)
    requires
        old(state).wf(),
        old(state).log().len() < usize::MAX,
    ensures
        final(state).wf(),
        final(state).groups() == old(state).groups(),
        final(state).welcome_cursor() == old(state).welcome_cursor(),
        final(state).identity() == old(state).identity(),
        final(state).log().len() == old(state).log().len() + 1,
        match outcome {
            Ok((pid, kp)) => {
                &&& r is Ok
                &&& final(state).log() == old(state).log().push(Some(kp@))
                &&& final(state).peers() == old(state).peers().insert(pid@, old(state).log().len() as usize)
            },
            Err(e) => {
                &&& r == Err::<(), SgmError>(e)
                &&& final(state).log() == old(state).log().push(None)
                &&& final(state).peers() == old(state).peers()
            },
        },
{
    match outcome {
        Ok((pid, kp)) => {
            let idx = state.log_key_package(Some(kp));
            state.set_key_package_log_index(pid.as_str(), idx);
            Ok(())
        },
        Err(e) => {
            state.log_key_package(None);
            Err(e)
        },
    }
}

/// Records the outcome of consuming one welcome slot. The cursor moves on
/// whatever the outcome, so a bad welcome is never read twice; a group that was
/// joined becomes known, and a failure is reported as it came.
pub fn record_welcome(state: &mut AgentState, outcome: Result<String, SgmError>) -> (r: Result<(), SgmError>)
    requires
        old(state).wf(),
        old(state).welcome_cursor() < usize::MAX,
    ensures
        final(state).wf(),
        final(state).welcome_cursor() == old(state).welcome_cursor() + 1,
        final(state).log() == old(state).log(),
        final(state).peers() == old(state).peers(),
        final(state).identity() == old(state).identity(),
        match outcome {
            Ok(gid) => {
                &&& r is Ok
                &&& old(state).groups().contains(gid@) ==> final(state).groups() == old(state).groups()
                &&& !old(state).groups().contains(gid@) ==> final(state).groups() == old(state).groups().push(gid@)
            },
            Err(e) => {
                &&& r == Err::<(), SgmError>(e)
                &&& final(state).groups() == old(state).groups()
            },
        },
{
    state.increment_welcome_counter();
    match outcome {
        Ok(gid) => {
            state.add_group_id(gid);
            Ok(())
        },
        Err(e) => Err(e),
    }
}

/// The latest key package of each of `pids`, in order, or `NotFound` for the
/// first peer that has none.
pub fn key_packages_for(state: &AgentState, pids: &Vec<String>) -> (r: Result<Vec<Vec<u8>>, SgmError>)
    requires
        state.wf(),
    ensures
        r is Ok <==> forall|i: int| 0 <= i < pids@.len() ==> state.peers().contains_key(#[trigger] pids@[i]@),
        r matches Ok(kps) ==> kps@.len() == pids@.len() && forall|i: int|
            0 <= i < pids@.len() ==> state.log()[state.peers()[#[trigger] pids@[i]@] as int] == Some(kps@[i]@),
        r matches Err(e) ==> exists|i: int|
            0 <= i < pids@.len() && !state.peers().contains_key(#[trigger] pids@[i]@) && e == SgmError::NotFound(
                pids@[i],
            ) && forall|j: int| 0 <= j < i ==> state.peers().contains_key(#[trigger] pids@[j]@),
{
    let mut kps: Vec<Vec<u8>> = Vec::new();
    let mut i: usize = 0;
    while i < pids.len()
        invariant
            state.wf(),
            i <= pids@.len(),
            kps@.len() == i,
            forall|j: int| 0 <= j < i ==> state.peers().contains_key(#[trigger] pids@[j]@),
            forall|j: int| 0 <= j < i ==> state.log()[state.peers()[#[trigger] pids@[j]@] as int] == Some(kps@[j]@),
        decreases pids@.len() - i,
    {
        match state.get_key_package(pids[i].as_str()) {
            Some(kp) => {
                kps.push(kp);
            },
            None => {
                return Err(SgmError::NotFound(pids[i].clone()));
            },
        }
        i = i + 1;
    }
    Ok(kps)
}

/// The phases of adding members to a group, after the key packages were found:
/// the commit is published, then merged into the local group, then the welcome
/// is published.
#[derive(Debug, Clone, Copy, PartialEq, Eq)]
pub enum AddPhase {
    PublishCommit,
    MergeCommit,
    PublishWelcome,
    Done,
}

/// The phase that follows `phase` once its work came back with `outcome`. Any
/// failure ends the operation with that error, so the commit is merged only after
/// it was published, and the welcome published only after the merge.
pub fn add_step(phase: AddPhase, outcome: Result<(), SgmError>) -> (r: Result<AddPhase, SgmError>)
    ensures
        outcome matches Err(e) ==> r == Err::<AddPhase, SgmError>(e),
        outcome is Ok ==> r == Ok::<AddPhase, SgmError>(
            match phase {
                AddPhase::PublishCommit => AddPhase::MergeCommit,
                AddPhase::MergeCommit => AddPhase::PublishWelcome,
                AddPhase::PublishWelcome => AddPhase::Done,
                AddPhase::Done => AddPhase::Done,
            },
        ),
{
    match outcome {
        Err(e) => Err(e),
        Ok(()) => Ok(
            match phase {
                AddPhase::PublishCommit => AddPhase::MergeCommit,
                AddPhase::MergeCommit => AddPhase::PublishWelcome,
                AddPhase::PublishWelcome => AddPhase::Done,
                AddPhase::Done => AddPhase::Done,
            },
        ),
    }
}

/// Publishes a fresh key package of this agent into the first free slot of
/// the key-package mailbox, starting from the slots it has already consumed.
pub fn advertise(state: &AgentState, store: &mut MemStore, kp: &[u8]) -> (r: Result<usize, SgmError>)
    requires
        old(store).wf(),
        state.log().len() + MAX_ALLOCATION_TRIES < usize::MAX,
    ensures
        final(store).wf(),
        r matches Ok(idx) ==> allocated(old(store)@, final(store)@, kp_prefix(), kp@, state.log().len(), idx as nat),
        r is Err ==> r == Err::<usize, SgmError>(SgmError::SlotAllocationExhausted) && final(store)@ == old(store)@,
        r is Err ==> forall|m: nat|
            state.log().len() <= m < state.log().len() + MAX_ALLOCATION_TRIES ==> #[trigger] slot_written(
                old(store)@,
                kp_prefix(),
                m,
            ),
{
    allocate(store, key_package_prefix(), state.key_package_count(), kp, MAX_ALLOCATION_TRIES)
}

/// Publishes a welcome into the first free slot of the welcome mailbox,
/// starting from this agent's welcome cursor.
pub fn publish_welcome(state: &AgentState, store: &mut MemStore, welcome: &[u8]) -> (r: Result<usize, SgmError>)
    requires
        old(store).wf(),
        state.welcome_cursor() + MAX_ALLOCATION_TRIES < usize::MAX,
    ensures
        final(store).wf(),
        r matches Ok(idx) ==> allocated(old(store)@, final(store)@, wm_prefix(), welcome@, state.welcome_cursor(), idx as nat),
        r is Err ==> r == Err::<usize, SgmError>(SgmError::SlotAllocationExhausted) && final(store)@ == old(store)@,
        r is Err ==> forall|m: nat|
            state.welcome_cursor() <= m < state.welcome_cursor() + MAX_ALLOCATION_TRIES ==> #[trigger] slot_written(
                old(store)@,
                wm_prefix(),
                m,
            ),
{
    allocate(store, welcome_prefix(), state.welcome_counter(), welcome, MAX_ALLOCATION_TRIES)
}

/// Publishes a commit under the key derived from the secret exported from the
/// group's current epoch.
pub fn publish_commit(store: &mut MemStore, exported: &[u8], commit: &[u8]) -> (r: Result<(), SgmError>)
    requires
        old(store).wf(),
    ensures
        final(store).wf(),
        put_outcome(old(store)@, cm_prefix() + hex_of(exported@), commit@, final(store)@, r),
{
    let key = commit_key(exported);
    store.put_if_absent(key.as_str(), commit)
}

/// The artifact in the next unread key-package slot, or `MailboxEmpty`.
pub fn next_key_package(state: &AgentState, store: &MemStore) -> (r: Result<Vec<u8>, SgmError>)
    requires
        store.wf(),
    ensures
        slot_written(store@, kp_prefix(), state.log().len()) ==> (r matches Ok(v) && v@ == store@[slot_key(
            kp_prefix(),
            state.log().len(),
        )]),
        !slot_written(store@, kp_prefix(), state.log().len()) ==> r == Err::<Vec<u8>, SgmError>(
            SgmError::MailboxEmpty,
        ),
{
    poll_slot(store, key_package_prefix(), state.key_package_count())
}

/// The artifact in the next unread welcome slot, or `MailboxEmpty`.
pub fn next_welcome(state: &AgentState, store: &MemStore) -> (r: Result<Vec<u8>, SgmError>)
    requires
        store.wf(),
    ensures
        slot_written(store@, wm_prefix(), state.welcome_cursor()) ==> (r matches Ok(v) && v@ == store@[slot_key(
            wm_prefix(),
            state.welcome_cursor(),
        )]),
        !slot_written(store@, wm_prefix(), state.welcome_cursor()) ==> r == Err::<Vec<u8>, SgmError>(
            SgmError::MailboxEmpty,
        ),
{
    poll_slot(store, welcome_prefix(), state.welcome_counter())
}

} // verus!
