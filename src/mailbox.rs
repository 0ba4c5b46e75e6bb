use vstd::prelude::*;
use crate::error::SgmError;
use crate::store::MemStore;
use crate::text::{concat, decimal, decimal_string, lemma_decimal_injective};

verus! {

/// The store key of slot `n` of the mailbox named by `prefix`.
pub open spec fn slot_key(prefix: Seq<char>, n: nat) -> Seq<char> {
    prefix + decimal(n)
}

pub open spec fn slot_written(s: Map<Seq<char>, Seq<u8>>, prefix: Seq<char>, n: nat) -> bool {
    s.contains_key(slot_key(prefix, n))
}

/// The written slots of the mailbox are exactly `0..k`.
pub open spec fn written_exactly(s: Map<Seq<char>, Seq<u8>>, prefix: Seq<char>, k: nat) -> bool {
    forall|n: nat| #[trigger] slot_written(s, prefix, n) <==> n < k
}

/// What a successful allocation that started at `start` did: it wrote `value`
/// into the first free slot at or after `start`.
pub open spec fn allocated(
    before: Map<Seq<char>, Seq<u8>>,
    after: Map<Seq<char>, Seq<u8>>,
    prefix: Seq<char>,
    value: Seq<u8>,
    start: nat,
    idx: nat,
) -> bool {
    &&& start <= idx
    &&& !slot_written(before, prefix, idx)
    &&& forall|m: nat| start <= m < idx ==> #[trigger] slot_written(before, prefix, m)
    &&& after == before.insert(slot_key(prefix, idx), value)
}

/// The cursor of a consumer after one poll of slot `cursor`: it moves on by one
/// exactly when that slot holds an artifact.
pub open spec fn cursor_after_poll(s: Map<Seq<char>, Seq<u8>>, prefix: Seq<char>, cursor: nat) -> nat {
    if slot_written(s, prefix, cursor) {
        cursor + 1
    } else {
        cursor
    }
}

/// Distinct slots of one mailbox have distinct keys.
pub proof fn lemma_slot_key_injective(prefix: Seq<char>, a: nat, b: nat)
    requires
        slot_key(prefix, a) == slot_key(prefix, b),
    ensures
        a == b,
{
    let ka = slot_key(prefix, a);
    assert(decimal(a) =~= ka.subrange(prefix.len() as int, ka.len() as int));
    assert(decimal(b) =~= ka.subrange(prefix.len() as int, ka.len() as int));
    lemma_decimal_injective(a, b);
}

/// One successful allocation on a mailbox whose written slots are `0..k`, started
/// at a candidate no larger than `k`, takes slot `k` and leaves `0..k+1` written.
pub proof fn lemma_allocation_extends(
    before: Map<Seq<char>, Seq<u8>>,
    after: Map<Seq<char>, Seq<u8>>,
    prefix: Seq<char>,
    value: Seq<u8>,
    start: nat,
    idx: nat,
    k: nat,
)
    requires
        written_exactly(before, prefix, k),
        start <= k,
        allocated(before, after, prefix, value, start, idx),
    ensures
        idx == k,
        written_exactly(after, prefix, k + 1),
{
    assert(!slot_written(before, prefix, idx));
    if idx > k {
        assert(slot_written(before, prefix, k));
    }
    assert forall|n: nat| #[trigger] slot_written(after, prefix, n) <==> n < k + 1 by {
        if slot_key(prefix, n) == slot_key(prefix, idx) {
            lemma_slot_key_injective(prefix, n, idx);
        }
        assert(slot_written(before, prefix, n) <==> n < k);
    }
}

/// Any interleaving of successful allocations on one mailbox whose written
/// slots are `0..m`, by any number of producers, each starting from a candidate
/// no larger than the number of slots already written, leaves exactly the slots
/// `0..m+k` written after `k` of them, the `i`-th taking slot `m+i`: no gaps and
/// no slot taken twice.
pub proof fn lemma_allocations_are_gapless(
    states: Seq<Map<Seq<char>, Seq<u8>>>,
    prefix: Seq<char>,
    values: Seq<Seq<u8>>,
    starts: Seq<nat>,
    idxs: Seq<nat>,
    m: nat,
)
    requires
        states.len() == idxs.len() + 1,
        values.len() == idxs.len(),
        starts.len() == idxs.len(),
        written_exactly(states[0], prefix, m),
        forall|i: int| 0 <= i < starts.len() ==> #[trigger] starts[i] <= m + i,
        forall|i: int|
            0 <= i < idxs.len() ==> #[trigger] allocated(
                states[i],
                states[i + 1],
                prefix,
                values[i],
                starts[i],
                idxs[i],
            ),
    ensures
        forall|i: int| 0 <= i < states.len() ==> written_exactly(#[trigger] states[i], prefix, (m + i) as nat),
        forall|i: int| 0 <= i < idxs.len() ==> #[trigger] idxs[i] == m + i,
    decreases idxs.len(),
{
    if idxs.len() > 0 {
        let n = idxs.len() - 1;
        let st = states.drop_last();
        let vs = values.drop_last();
        let ss = starts.drop_last();
        let is = idxs.drop_last();
        assert forall|i: int| 0 <= i < ss.len() implies #[trigger] ss[i] <= m + i by {
            assert(ss[i] == starts[i]);
        }
        assert forall|i: int| 0 <= i < is.len() implies #[trigger] allocated(
            st[i], st[i + 1], prefix, vs[i], ss[i], is[i]) by {
            assert(allocated(states[i], states[i + 1], prefix, values[i], starts[i], idxs[i]));
            assert(st[i] == states[i] && st[i + 1] == states[i + 1]);
            assert(vs[i] == values[i] && ss[i] == starts[i] && is[i] == idxs[i]);
        }
        assert(st[0] == states[0]);
        lemma_allocations_are_gapless(st, prefix, vs, ss, is, m);
        assert(st[n] == states[n]);
        assert(allocated(states[n], states[n + 1], prefix, values[n], starts[n], idxs[n]));
        assert(starts[n] <= m + n);
        lemma_allocation_extends(states[n], states[n + 1], prefix, values[n], starts[n], idxs[n], (m + n) as nat);
        assert forall|i: int| 0 <= i < states.len() implies written_exactly(#[trigger] states[i], prefix, (m + i) as nat) by {
            if i < st.len() {
                assert(st[i] == states[i]);
            }
        }
        assert forall|i: int| 0 <= i < idxs.len() implies #[trigger] idxs[i] == m + i by {
            if i < is.len() {
                assert(is[i] == idxs[i]);
            }
        }
    }
}

/// A consumer cursor that starts within the written slots stays within them and
/// never moves back, however often it polls.
pub proof fn lemma_cursor_within_written(s: Map<Seq<char>, Seq<u8>>, prefix: Seq<char>, k: nat, cursor: nat)
    requires
        written_exactly(s, prefix, k),
        cursor <= k,
    ensures
        cursor <= cursor_after_poll(s, prefix, cursor) <= k,
{
    assert(slot_written(s, prefix, cursor) <==> cursor < k);
}

/// The store key of slot `n` of the mailbox named by `prefix`.
pub fn slot_key_string(prefix: &str, n: usize) -> (r: String)
    ensures
        r@ == slot_key(prefix@, n as nat),
{
    let d = decimal_string(n);
    concat(prefix, d.as_str())
}

/// What the allocator does after a write attempt at `candidate`.
#[derive(Debug, Clone, PartialEq, Eq)]
pub enum AllocStep {
    /// The artifact now stands in this slot.
    Written(usize),
    /// The slot was taken: try this one next.
    Retry(usize),
    /// Stop and report this error.
    Failed(SgmError),
}

/// The allocator's decision after the write attempt at `candidate`, which was
/// attempt number `attempt` (counting from one) of at most `max_tries`: a
/// success ends it, a conflict moves on to the next slot while the budget
/// lasts, and any other error is reported as it came.
pub fn after_put(candidate: usize, attempt: usize, max_tries: usize, r: Result<(), SgmError>) -> (s: AllocStep)
    requires
        candidate < usize::MAX,
    ensures
        r is Ok ==> s == AllocStep::Written(candidate),
        r == Err::<(), SgmError>(SgmError::KeyConflict) && attempt < max_tries ==> s == AllocStep::Retry(
            (candidate + 1) as usize,
        ),
        r == Err::<(), SgmError>(SgmError::KeyConflict) && attempt >= max_tries ==> s == AllocStep::Failed(
            SgmError::SlotAllocationExhausted,
        ),
        r matches Err(e) ==> (e != SgmError::KeyConflict ==> s == AllocStep::Failed(e)),
{
    match r {
        Ok(()) => AllocStep::Written(candidate),
        Err(SgmError::KeyConflict) => {
            if attempt < max_tries {
                AllocStep::Retry(candidate + 1)
            } else {
                AllocStep::Failed(SgmError::SlotAllocationExhausted)
            }
        },
        Err(e) => AllocStep::Failed(e),
    }
}

/// Publishes `value` into the first free slot of the mailbox `prefix` at or
/// after `start`, trying at most `max_tries` slots.
pub fn allocate(store: &mut MemStore, prefix: &str, start: usize, value: &[u8], max_tries: usize) -> (r: Result<usize, SgmError>)
    requires
        old(store).wf(),
        start + max_tries < usize::MAX,
    ensures
        final(store).wf(),
        r matches Ok(idx) ==> idx < start + max_tries && allocated(
            old(store)@,
            final(store)@,
            prefix@,
            value@,
            start as nat,
            idx as nat,
        ),
        r is Err ==> r == Err::<usize, SgmError>(SgmError::SlotAllocationExhausted) && final(store)@ == old(store)@
            && forall|m: nat| start <= m < start + max_tries ==> #[trigger] slot_written(old(store)@, prefix@, m),
{
    let mut candidate: usize = start;
    let mut attempt: usize = 0;
    while attempt < max_tries
        invariant
            store.wf(),
            store@ == old(store)@,
            candidate == start + attempt,
            start + max_tries < usize::MAX,
            attempt <= max_tries,
            forall|m: nat| start <= m < candidate ==> #[trigger] slot_written(store@, prefix@, m),
        decreases max_tries - attempt,
    {
        let key = slot_key_string(prefix, candidate);
        let ghost before = store@;
        let put = store.put_if_absent(key.as_str(), value);
        attempt = attempt + 1;
        match after_put(candidate, attempt, max_tries, put) {
            AllocStep::Written(idx) => {
                return Ok(idx);
            },
            AllocStep::Retry(next) => {
                assert(slot_written(before, prefix@, candidate as nat));
                candidate = next;
            },
            AllocStep::Failed(e) => {
                assert(slot_written(before, prefix@, candidate as nat));
                return Err(e);
            },
        }
    }
    Err(SgmError::SlotAllocationExhausted)
}

/// Reads slot `cursor` of the mailbox `prefix`: its artifact, or `MailboxEmpty`
/// where the slot has not been written yet.
pub fn poll_slot(store: &MemStore, prefix: &str, cursor: usize) -> (r: Result<Vec<u8>, SgmError>)
    requires
        store.wf(),
    ensures
        slot_written(store@, prefix@, cursor as nat) ==> (r matches Ok(v) && v@ == store@[slot_key(
            prefix@,
            cursor as nat,
        )]),
        !slot_written(store@, prefix@, cursor as nat) ==> r == Err::<Vec<u8>, SgmError>(SgmError::MailboxEmpty),
{
    let key = slot_key_string(prefix, cursor);
    slot_outcome(store.get(key.as_str()))
}

/// What reading a slot yields: its artifact, or `MailboxEmpty` where the slot
/// holds nothing yet.
pub fn slot_outcome(got: Option<Vec<u8>>) -> (r: Result<Vec<u8>, SgmError>)
    ensures
        got is None ==> r == Err::<Vec<u8>, SgmError>(SgmError::MailboxEmpty),
        got matches Some(v) ==> (r matches Ok(w) && w@ == v@),
{
    match got {
        Some(v) => Ok(v),
        None => Err(SgmError::MailboxEmpty),
    }
}

} // verus!
