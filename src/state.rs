use vstd::prelude::*;
use crate::error::SgmError;
use crate::text::copy_bytes;

verus! {

/// The model of one slot of the key-package log: a validated artifact, or a
/// placeholder for a slot whose artifact failed validation.
pub open spec fn slot_view(o: Option<Vec<u8>>) -> Option<Seq<u8>> {
    match o {
        Some(v) => Some(v@),
        None => None,
    }
}

spec fn distinct_ids(ids: Seq<String>) -> bool {
    forall|i: int, j: int| 0 <= i < j < ids.len() ==> #[trigger] ids[i]@ != #[trigger] ids[j]@
}

spec fn index_wf(entries: Seq<(String, usize)>, peers: Map<Seq<char>, usize>, log: Seq<Option<Vec<u8>>>) -> bool {
    &&& forall|i: int, j: int|
        0 <= i < j < entries.len() ==> #[trigger] entries[i].0@ != #[trigger] entries[j].0@
    &&& forall|i: int|
        0 <= i < entries.len() ==> {
            &&& peers.contains_key(#[trigger] entries[i].0@)
            &&& peers[entries[i].0@] == entries[i].1
        }
    &&& forall|k: Seq<char>|
        #[trigger] peers.contains_key(k) ==> exists|i: int| 0 <= i < entries.len() && #[trigger] entries[i].0@ == k
    &&& forall|k: Seq<char>|
        #[trigger] peers.contains_key(k) ==> peers[k] < log.len() && log[peers[k] as int] is Some
}

/// The parts of a persisted state that make a consistent one: distinct group
/// ids, distinct peer ids, and every peer pointing at a validated artifact.
pub open spec fn restorable(group_ids: Seq<String>, log: Seq<Option<Vec<u8>>>, peer_index: Seq<(String, usize)>) -> bool {
    &&& forall|i: int, j: int| 0 <= i < j < group_ids.len() ==> #[trigger] group_ids[i]@ != #[trigger] group_ids[j]@
    &&& log.len() < usize::MAX
    &&& forall|i: int, j: int|
        0 <= i < j < peer_index.len() ==> #[trigger] peer_index[i].0@ != #[trigger] peer_index[j].0@
    &&& forall|i: int|
        0 <= i < peer_index.len() ==> #[trigger] peer_index[i].1 < log.len() && log[peer_index[i].1 as int] is Some
}

/// `entries` lists each peer of `peers` once, with its log slot.
pub open spec fn lists_peers(entries: Seq<(String, usize)>, peers: Map<Seq<char>, usize>) -> bool {
    &&& forall|i: int, j: int| 0 <= i < j < entries.len() ==> #[trigger] entries[i].0@ != #[trigger] entries[j].0@
    &&& forall|i: int|
        0 <= i < entries.len() ==> peers.contains_key(#[trigger] entries[i].0@) && peers[entries[i].0@]
            == entries[i].1
    &&& forall|k: Seq<char>|
        peers.contains_key(k) ==> exists|i: int| 0 <= i < entries.len() && #[trigger] entries[i].0@ == k
}

/// What a successful `restore` from these parts yields.
pub open spec fn restored_from(
    st: AgentState,
    identity: (Seq<char>, Seq<u8>, Seq<u8>, u16, u16),
    group_ids: Seq<String>,
    log: Seq<Option<Vec<u8>>>,
    peer_index: Seq<(String, usize)>,
    welcome_counter: usize,
) -> bool {
    &&& st.wf()
    &&& st.identity() == identity
    &&& st.groups() == group_ids.map_values(|s: String| s@)
    &&& st.log() == log.map_values(|o: Option<Vec<u8>>| slot_view(o))
    &&& st.welcome_cursor() == welcome_counter
    &&& forall|k: Seq<char>|
        st.peers().contains_key(k) <==> exists|i: int| 0 <= i < peer_index.len() && #[trigger] peer_index[i].0@ == k
    &&& forall|i: int| 0 <= i < peer_index.len() ==> st.peers()[#[trigger] peer_index[i].0@] == peer_index[i].1
}

/// A state rebuilt from the parts that a well-formed state exports (its group
/// ids, its key-package log with the placeholders, its peer index, its welcome
/// cursor and its identity) is accepted by `restore` and equals the original in
/// every part.
pub proof fn lemma_restore_round_trip(
    s: AgentState,
    group_ids: Seq<String>,
    log: Seq<Option<Vec<u8>>>,
    peer_index: Seq<(String, usize)>,
    st: AgentState,
)
    requires
        s.wf(),
        group_ids.map_values(|g: String| g@) == s.groups(),
        log.map_values(|o: Option<Vec<u8>>| slot_view(o)) == s.log(),
        lists_peers(peer_index, s.peers()),
        s.log().len() < usize::MAX,
        restored_from(st, s.identity(), group_ids, log, peer_index, s.welcome_cursor() as usize),
    ensures
        restorable(group_ids, log, peer_index),
        st.identity() == s.identity(),
        st.groups() == s.groups(),
        st.log() == s.log(),
        st.peers() == s.peers(),
        st.welcome_cursor() == s.welcome_cursor(),
{
    s.lemma_wf_parts();
    assert forall|i: int, j: int| 0 <= i < j < group_ids.len() implies #[trigger] group_ids[i]@
        != #[trigger] group_ids[j]@ by {
        assert(s.groups()[i] == group_ids[i]@);
        assert(s.groups()[j] == group_ids[j]@);
    }
    assert forall|i: int| 0 <= i < peer_index.len() implies #[trigger] peer_index[i].1 < log.len()
        && log[peer_index[i].1 as int] is Some by {
        let k = peer_index[i].0@;
        assert(s.peers().contains_key(k));
        assert(s.log()[s.peers()[k] as int] == slot_view(log[s.peers()[k] as int]));
    }
    assert(st.peers() =~= s.peers()) by {
        assert forall|k: Seq<char>| st.peers().contains_key(k) <==> s.peers().contains_key(k) by {
            if st.peers().contains_key(k) {
                let i = choose|i: int| 0 <= i < peer_index.len() && #[trigger] peer_index[i].0@ == k;
            }
            if s.peers().contains_key(k) {
                let i = choose|i: int| 0 <= i < peer_index.len() && #[trigger] peer_index[i].0@ == k;
            }
        }
        assert forall|k: Seq<char>| st.peers().contains_key(k) implies st.peers()[k] == s.peers()[k] by {
            let i = choose|i: int| 0 <= i < peer_index.len() && #[trigger] peer_index[i].0@ == k;
        }
    }
}

/// The durable record of one agent: its identity, the groups it knows, what it
/// has consumed of the mailboxes, and where each known peer's latest key package
/// stands in its log.
pub struct AgentState {
    self_id: String,
    signing_key: Vec<u8>,
    public_key: Vec<u8>,
    ciphersuite: u16,
    version: u16,
    group_ids: Vec<String>,
    key_package_log: Vec<Option<Vec<u8>>>,
    peer_index: Vec<(String, usize)>,
    peers: Ghost<Map<Seq<char>, usize>>,
    welcome_counter: usize,
}

impl AgentState {
    /// The key-package log; its length is the key-package mailbox cursor.
    pub closed spec fn log(&self) -> Seq<Option<Seq<u8>>> {
        self.key_package_log@.map_values(|o: Option<Vec<u8>>| slot_view(o))
    }

    /// Each known peer id, with the log slot of its latest accepted key package.
    pub closed spec fn peers(&self) -> Map<Seq<char>, usize> {
        self.peers@
    }

    /// The known group ids, in the order they were learned.
    pub closed spec fn groups(&self) -> Seq<Seq<char>> {
        self.group_ids@.map_values(|s: String| s@)
    }

    /// The next unread slot of the welcome mailbox.
    pub closed spec fn welcome_cursor(&self) -> nat {
        self.welcome_counter as nat
    }

    /// The identity record that never changes after creation.
    pub closed spec fn identity(&self) -> (Seq<char>, Seq<u8>, Seq<u8>, u16, u16) {
        (self.self_id@, self.signing_key@, self.public_key@, self.ciphersuite, self.version)
    }

    /// Group ids are distinct, peer ids are distinct and match the model, and every
    /// peer points at a slot that holds a validated artifact.
    pub closed spec fn wf(&self) -> bool {
        &&& distinct_ids(self.group_ids@)
        &&& index_wf(self.peer_index@, self.peers@, self.key_package_log@)
    }

    /// What well-formedness says of the model.
    pub proof fn lemma_wf_parts(&self)
        requires
            self.wf(),
        ensures
            forall|k: Seq<char>|
                #[trigger] self.peers().contains_key(k) ==> self.peers()[k] < self.log().len()
                    && self.log()[self.peers()[k] as int] is Some,
            forall|i: int, j: int|
                0 <= i < j < self.groups().len() ==> #[trigger] self.groups()[i] != #[trigger] self.groups()[j],
    {
        assert forall|i: int, j: int| 0 <= i < j < self.groups().len() implies #[trigger] self.groups()[i]
            != #[trigger] self.groups()[j] by {
            assert(self.group_ids@[i]@ != self.group_ids@[j]@);
        }
        assert forall|k: Seq<char>| #[trigger] self.peers().contains_key(k) implies self.peers()[k] < self.log().len()
            && self.log()[self.peers()[k] as int] is Some by {
            assert(self.key_package_log@[self.peers@[k] as int] is Some);
        }
    }

    /// The key-package log as stored, placeholders included.
    pub fn key_package_log(&self) -> (r: Vec<Option<Vec<u8>>>)
        ensures
            r@.map_values(|o: Option<Vec<u8>>| slot_view(o)) == self.log(),
    {
        let mut r: Vec<Option<Vec<u8>>> = Vec::new();
        let mut i: usize = 0;
        while i < self.key_package_log.len()
            invariant
                i <= self.key_package_log@.len(),
                r@.len() == i,
                forall|j: int| 0 <= j < i ==> slot_view(#[trigger] r@[j]) == slot_view(self.key_package_log@[j]),
            decreases self.key_package_log@.len() - i,
        {
            let slot = match &self.key_package_log[i] {
                Some(v) => Some(copy_bytes(v.as_slice())),
                None => None,
            };
            r.push(slot);
            i = i + 1;
        }
        assert(r@.map_values(|o: Option<Vec<u8>>| slot_view(o)) =~= self.log());
        r
    }

    /// A fresh state for a newly created identity: no groups, no peers, and both
    /// mailbox cursors at slot zero.
    pub fn new(self_id: String, signing_key: Vec<u8>, public_key: Vec<u8>, ciphersuite: u16, version: u16) -> (r: AgentState)
        ensures
            r.wf(),
            r.identity() == (self_id@, signing_key@, public_key@, ciphersuite, version),
            r.groups() == Seq::<Seq<char>>::empty(),
            r.log() == Seq::<Option<Seq<u8>>>::empty(),
            r.peers() == Map::<Seq<char>, usize>::empty(),
            r.welcome_cursor() == 0,
    {
        let r = AgentState {
            self_id,
            signing_key,
            public_key,
            ciphersuite,
            version,
            group_ids: Vec::new(),
            key_package_log: Vec::new(),
            peer_index: Vec::new(),
            peers: Ghost(Map::empty()),
            welcome_counter: 0,
        };
        assert(r.groups() =~= Seq::<Seq<char>>::empty());
        assert(r.log() =~= Seq::<Option<Seq<u8>>>::empty());
        r
    }

    /// Rebuilds a state from its persisted parts, or fails with `Validation`
    /// where they are inconsistent.
    pub fn restore(
        self_id: String,
        signing_key: Vec<u8>,
        public_key: Vec<u8>,
        ciphersuite: u16,
        version: u16,
        group_ids: Vec<String>,
        log: Vec<Option<Vec<u8>>>,
        peer_index: Vec<(String, usize)>,
        welcome_counter: usize,
    ) -> (r: Result<AgentState, SgmError>)
        ensures
            r is Ok <==> restorable(group_ids@, log@, peer_index@),
            r matches Ok(st) ==> restored_from(
                st,
                (self_id@, signing_key@, public_key@, ciphersuite, version),
                group_ids@,
                log@,
                peer_index@,
                welcome_counter,
            ),
            r matches Err(e) ==> e is Validation,
    {
        let mut st = AgentState::new(self_id, signing_key, public_key, ciphersuite, version);
        let ghost gv = group_ids@.map_values(|s: String| s@);
        let mut i: usize = 0;
        while i < group_ids.len()
            invariant
                st.wf(),
                st.identity() == (self_id@, signing_key@, public_key@, ciphersuite, version),
                st.log().len() == 0,
                st.peers() == Map::<Seq<char>, usize>::empty(),
                st.welcome_cursor() == 0,
                i <= group_ids@.len(),
                gv == group_ids@.map_values(|s: String| s@),
                st.groups() == gv.subrange(0, i as int),
                forall|a: int, b: int| 0 <= a < b < i ==> #[trigger] group_ids@[a]@ != #[trigger] group_ids@[b]@,
            decreases group_ids@.len() - i,
        {
            let g = group_ids[i].clone();
            if st.has_group(g.as_str()) {
                proof {
                    let j = choose|j: int| 0 <= j < st.groups().len() && st.groups()[j] == g@;
                    assert(group_ids@[j]@ == group_ids@[i as int]@);
                }
                return Err(SgmError::Validation(String::from_str("group id listed twice")));
            }
            st.add_group_id(g);
            proof {
                assert forall|a: int, b: int| 0 <= a < b < i + 1 implies #[trigger] group_ids@[a]@
                    != #[trigger] group_ids@[b]@ by {
                    if b == i {
                        assert(st.groups()[a] == group_ids@[a]@);
                    }
                }
            }
            i = i + 1;
            assert(st.groups() =~= gv.subrange(0, i as int));
        }
        assert(gv.subrange(0, i as int) =~= gv);
        if log.len() == usize::MAX {
            return Err(SgmError::Validation(String::from_str("key-package log too long")));
        }
        let ghost lv = log@.map_values(|o: Option<Vec<u8>>| slot_view(o));
        let mut i: usize = 0;
        while i < log.len()
            invariant
                st.wf(),
                st.identity() == (self_id@, signing_key@, public_key@, ciphersuite, version),
                st.groups() == gv,
                st.peers() == Map::<Seq<char>, usize>::empty(),
                st.welcome_cursor() == 0,
                i <= log@.len() < usize::MAX,
                lv == log@.map_values(|o: Option<Vec<u8>>| slot_view(o)),
                st.log() == lv.subrange(0, i as int),
            decreases log@.len() - i,
        {
            let slot = match &log[i] {
                Some(v) => Some(copy_bytes(v.as_slice())),
                None => None,
            };
            st.log_key_package(slot);
            i = i + 1;
            assert(st.log() =~= lv.subrange(0, i as int));
        }
        assert(lv.subrange(0, i as int) =~= lv);
        let mut i: usize = 0;
        while i < peer_index.len()
            invariant
                st.wf(),
                st.identity() == (self_id@, signing_key@, public_key@, ciphersuite, version),
                st.groups() == gv,
                st.log() == lv,
                lv == log@.map_values(|o: Option<Vec<u8>>| slot_view(o)),
                st.welcome_cursor() == 0,
                i <= peer_index@.len(),
                forall|k: Seq<char>|
                    st.peers().contains_key(k) <==> exists|j: int| 0 <= j < i && #[trigger] peer_index@[j].0@ == k,
                forall|j: int| 0 <= j < i ==> st.peers()[#[trigger] peer_index@[j].0@] == peer_index@[j].1,
                forall|a: int, b: int| 0 <= a < b < i ==> #[trigger] peer_index@[a].0@ != #[trigger] peer_index@[b].0@,
                forall|j: int|
                    0 <= j < i ==> #[trigger] peer_index@[j].1 < log@.len() && log@[peer_index@[j].1 as int] is Some,
            decreases peer_index@.len() - i,
        {
            let pid = peer_index[i].0.as_str();
            let idx = peer_index[i].1;
            if idx >= log.len() || log[idx].is_none() {
                return Err(SgmError::Validation(String::from_str("peer points at no key package")));
            }
            if st.get_key_package_log_index(pid).is_some() {
                proof {
                    let j = choose|j: int| 0 <= j < i && #[trigger] peer_index@[j].0@ == pid@;
                    assert(peer_index@[j].0@ == peer_index@[i as int].0@);
                }
                return Err(SgmError::Validation(String::from_str("peer id listed twice")));
            }
            assert(lv[idx as int] == slot_view(log@[idx as int]));
            let ghost before = st.peers();
            st.set_key_package_log_index(pid, idx);
            proof {
                assert forall|k: Seq<char>| st.peers().contains_key(k) <==> exists|j: int|
                    0 <= j < i + 1 && #[trigger] peer_index@[j].0@ == k by {
                    if k == pid@ {
                        assert(peer_index@[i as int].0@ == k);
                    }
                }
                assert forall|a: int, b: int| 0 <= a < b < i + 1 implies #[trigger] peer_index@[a].0@
                    != #[trigger] peer_index@[b].0@ by {
                    if b == i {
                        if peer_index@[a].0@ == pid@ {
                            assert(before.contains_key(pid@));
                        }
                    }
                }
            }
            i = i + 1;
        }
        proof {
            assert(peer_index@.len() == i);
        }
        let ghost peers_before = st.peers();
        st.welcome_counter = welcome_counter;
        assert(st.peers() == peers_before);
        assert(st.wf());
        assert(forall|kk: Seq<char>|
            st.peers().contains_key(kk) <==> exists|j: int|
                0 <= j < peer_index@.len() && #[trigger] peer_index@[j].0@ == kk);
        Ok(st)
    }

    /// Whether `gid` is a known group.
    pub fn has_group(&self, gid: &str) -> (r: bool)
        ensures
            r == self.groups().contains(gid@),
    {
        let g = String::from_str(gid);
        let mut i: usize = 0;
        while i < self.group_ids.len()
            invariant
                g@ == gid@,
                i <= self.group_ids@.len(),
                forall|j: int| 0 <= j < i ==> #[trigger] self.group_ids@[j]@ != gid@,
            decreases self.group_ids@.len() - i,
        {
            if self.group_ids[i] == g {
                assert(self.groups()[i as int] == gid@);
                return true;
            }
            i = i + 1;
        }
        assert(!self.groups().contains(gid@)) by {
            if self.groups().contains(gid@) {
                let j = choose|j: int| 0 <= j < self.groups().len() && self.groups()[j] == gid@;
                assert(self.group_ids@[j]@ == gid@);
            }
        }
        false
    }

    /// The peer index as stored: each known peer id with its log slot.
    pub fn peer_entries(&self) -> (r: Vec<(String, usize)>)
        requires
            self.wf(),
        ensures
            lists_peers(r@, self.peers()),
    {
        let mut r: Vec<(String, usize)> = Vec::new();
        let mut i: usize = 0;
        while i < self.peer_index.len()
            invariant
                self.wf(),
                i <= self.peer_index@.len(),
                r@.len() == i,
                forall|j: int| 0 <= j < i ==> #[trigger] r@[j].0@ == self.peer_index@[j].0@ && r@[j].1
                    == self.peer_index@[j].1,
            decreases self.peer_index@.len() - i,
        {
            r.push((self.peer_index[i].0.clone(), self.peer_index[i].1));
            i = i + 1;
        }
        assert forall|k: Seq<char>| self.peers().contains_key(k) implies exists|i: int|
            0 <= i < r@.len() && #[trigger] r@[i].0@ == k by {
            let i = choose|i: int| 0 <= i < self.peer_index@.len() && #[trigger] self.peer_index@[i].0@ == k;
            assert(r@[i].0@ == k);
        }
        r
    }

    /// The agent's own id.
    pub fn credential_str(&self) -> (r: &str)
        ensures
            r@ == self.identity().0,
    {
        self.self_id.as_str()
    }

    /// The private signing key.
    pub fn signing_key(&self) -> (r: &[u8])
        ensures
            r@ == self.identity().1,
    {
        self.signing_key.as_slice()
    }

    /// The public signature key.
    pub fn public_key(&self) -> (r: &[u8])
        ensures
            r@ == self.identity().2,
    {
        self.public_key.as_slice()
    }

    /// The ciphersuite tag.
    pub fn ciphersuite(&self) -> (r: u16)
        ensures
            r == self.identity().3,
    {
        self.ciphersuite
    }

    /// The protocol-version tag.
    pub fn version(&self) -> (r: u16)
        ensures
            r == self.identity().4,
    {
        self.version
    }

    /// The next unread slot of the welcome mailbox.
    pub fn welcome_counter(&self) -> (r: usize)
        ensures
            r == self.welcome_cursor(),
    {
        self.welcome_counter
    }

    /// The number of key-package slots consumed so far.
    pub fn key_package_count(&self) -> (r: usize)
        ensures
            r == self.log().len(),
    {
        self.key_package_log.len()
    }

    /// The content of key-package slot `i`.
    pub fn key_package_slot(&self, i: usize) -> (r: Option<Vec<u8>>)
        requires
            i < self.log().len(),
        ensures
            slot_view(r) == self.log()[i as int],
    {
        match &self.key_package_log[i] {
            Some(v) => Some(copy_bytes(v.as_slice())),
            None => None,
        }
    }

    /// The known group ids, in the order they were learned.
    pub fn group_ids(&self) -> (r: Vec<String>)
        ensures
            r@.map_values(|s: String| s@) == self.groups(),
    {
        let mut r: Vec<String> = Vec::new();
        let mut i: usize = 0;
        while i < self.group_ids.len()
            invariant
                i <= self.group_ids@.len(),
                r@.len() == i,
                forall|j: int| 0 <= j < i ==> #[trigger] r@[j]@ == self.group_ids@[j]@,
            decreases self.group_ids@.len() - i,
        {
            r.push(self.group_ids[i].clone());
            i = i + 1;
        }
        assert(r@.map_values(|s: String| s@) =~= self.groups());
        r
    }

    /// The ids of all known peers, each once.
    pub fn agent_ids(&self) -> (r: Vec<String>)
        requires
            self.wf(),
        ensures
            r@.map_values(|s: String| s@).to_set() == self.peers().dom(),
            r@.map_values(|s: String| s@).no_duplicates(),
    {
        let mut r: Vec<String> = Vec::new();
        let mut i: usize = 0;
        while i < self.peer_index.len()
            invariant
                self.wf(),
                i <= self.peer_index@.len(),
                r@.len() == i,
                forall|j: int| 0 <= j < i ==> #[trigger] r@[j]@ == self.peer_index@[j].0@,
            decreases self.peer_index@.len() - i,
        {
            r.push(self.peer_index[i].0.clone());
            i = i + 1;
        }
        let ghost ids = r@.map_values(|s: String| s@);
        assert(ids.to_set() =~= self.peers().dom()) by {
            assert forall|k: Seq<char>| ids.to_set().contains(k) implies self.peers().dom().contains(k) by {
                let j = choose|j: int| 0 <= j < ids.len() && ids[j] == k;
                assert(r@[j]@ == self.peer_index@[j].0@);
            }
            assert forall|k: Seq<char>| self.peers().dom().contains(k) implies ids.to_set().contains(k) by {
                assert(self.peers@.contains_key(k));
                let j = choose|j: int| 0 <= j < self.peer_index@.len() && #[trigger] self.peer_index@[j].0@ == k;
                assert(r@[j]@ == k);
                assert(ids[j] == k);
            }
        }
        assert forall|a: int, b: int| 0 <= a < ids.len() && 0 <= b < ids.len() && a != b implies ids[a] != ids[b] by {
            assert(r@[a]@ == self.peer_index@[a].0@);
            assert(r@[b]@ == self.peer_index@[b].0@);
            if a < b {
                assert(self.peer_index@[a].0@ != self.peer_index@[b].0@);
            } else {
                assert(self.peer_index@[b].0@ != self.peer_index@[a].0@);
            }
        }
        r
    }

    fn find_peer(&self, pid: &String) -> (r: Option<usize>)
        requires
            self.wf(),
        ensures
            r matches Some(i) ==> i < self.peer_index@.len() && self.peer_index@[i as int].0@ == pid@,
            r is None ==> !self.peers@.contains_key(pid@),
    {
        let mut i: usize = 0;
        while i < self.peer_index.len()
            invariant
                i <= self.peer_index@.len(),
                forall|j: int| 0 <= j < i ==> #[trigger] self.peer_index@[j].0@ != pid@,
            decreases self.peer_index@.len() - i,
        {
            if self.peer_index[i].0 == *pid {
                return Some(i);
            }
            i = i + 1;
        }
        None
    }

    /// The log slot of `pid`'s latest accepted key package, if the peer is known.
    pub fn get_key_package_log_index(&self, pid: &str) -> (r: Option<usize>)
        requires
            self.wf(),
        ensures
            r is Some <==> self.peers().contains_key(pid@),
            r matches Some(i) ==> i == self.peers()[pid@] && i < self.log().len() && self.log()[i as int] is Some,
    {
        let p = String::from_str(pid);
        match self.find_peer(&p) {
            Some(i) => Some(self.peer_index[i].1),
            None => None,
        }
    }

    /// `pid`'s latest accepted key package, if the peer is known.
    pub fn get_key_package(&self, pid: &str) -> (r: Option<Vec<u8>>)
        requires
            self.wf(),
        ensures
            r is Some <==> self.peers().contains_key(pid@),
            r matches Some(v) ==> self.log()[self.peers()[pid@] as int] == Some(v@),
    {
        match self.get_key_package_log_index(pid) {
            Some(i) => {
                let v = self.key_package_slot(i);
                match v {
                    Some(b) => Some(b),
                    None => None,
                }
            },
            None => None,
        }
    }

    /// Appends one slot to the key-package log and returns its index.
    pub fn log_key_package(&mut self, kp: Option<Vec<u8>>) -> (r: usize)
        requires
            old(self).wf(),
            old(self).log().len() < usize::MAX,
        ensures
            final(self).wf(),
            r == old(self).log().len(),
            final(self).log() == old(self).log().push(slot_view(kp)),
            final(self).peers() == old(self).peers(),
            final(self).groups() == old(self).groups(),
            final(self).welcome_cursor() == old(self).welcome_cursor(),
            final(self).identity() == old(self).identity(),
    {
        let r = self.key_package_log.len();
        self.key_package_log.push(kp);
        assert(self.log() =~= old(self).log().push(slot_view(kp)));
        assert forall|k: Seq<char>| #[trigger] self.peers@.contains_key(k) implies self.peers@[k]
            < self.key_package_log@.len() && self.key_package_log@[self.peers@[k] as int] is Some by {
            assert(old(self).key_package_log@[self.peers@[k] as int] is Some);
        }
        r
    }

    /// Points `pid` at log slot `idx`, replacing any earlier slot of that peer.
    pub fn set_key_package_log_index(&mut self, pid: &str, idx: usize)
        requires
            old(self).wf(),
            idx < old(self).log().len(),
            old(self).log()[idx as int] is Some,
        ensures
            final(self).wf(),
            final(self).peers() == old(self).peers().insert(pid@, idx),
            final(self).log() == old(self).log(),
            final(self).groups() == old(self).groups(),
            final(self).welcome_cursor() == old(self).welcome_cursor(),
            final(self).identity() == old(self).identity(),
    {
        let p = String::from_str(pid);
        let ghost before = self.peers@;
        assert(self.key_package_log@[idx as int] is Some);
        match self.find_peer(&p) {
            Some(i) => {
                self.peer_index.set(i, (p, idx));
                self.peers = Ghost(before.insert(pid@, idx));
                assert(self.wf()) by {
                    assert forall|k: Seq<char>| #[trigger] self.peers@.contains_key(k) implies exists|j: int|
                        0 <= j < self.peer_index@.len() && #[trigger] self.peer_index@[j].0@ == k by {
                        if k == pid@ {
                            assert(self.peer_index@[i as int].0@ == k);
                        } else {
                            let j = choose|j: int| 0 <= j < old(self).peer_index@.len() && #[trigger] old(self).peer_index@[j].0@ == k;
                            assert(self.peer_index@[j] == old(self).peer_index@[j]);
                        }
                    }
                    assert forall|j: int| 0 <= j < self.peer_index@.len() implies {
                        &&& self.peers@.contains_key(#[trigger] self.peer_index@[j].0@)
                        &&& self.peers@[self.peer_index@[j].0@] == self.peer_index@[j].1
                    } by {
                        if j != i {
                            assert(self.peer_index@[j] == old(self).peer_index@[j]);
                            if j < i {
                                assert(old(self).peer_index@[j].0@ != old(self).peer_index@[i as int].0@);
                            } else {
                                assert(old(self).peer_index@[i as int].0@ != old(self).peer_index@[j].0@);
                            }
                        }
                    }
                    assert forall|a: int, b: int| 0 <= a < b < self.peer_index@.len() implies
                        #[trigger] self.peer_index@[a].0@ != #[trigger] self.peer_index@[b].0@ by {
                        assert(old(self).peer_index@[a].0@ != old(self).peer_index@[b].0@);
                    }
                }
            },
            None => {
                self.peer_index.push((p, idx));
                self.peers = Ghost(before.insert(pid@, idx));
                assert(self.wf()) by {
                    let n = old(self).peer_index@.len() as int;
                    assert forall|k: Seq<char>| #[trigger] self.peers@.contains_key(k) implies exists|j: int|
                        0 <= j < self.peer_index@.len() && #[trigger] self.peer_index@[j].0@ == k by {
                        if k == pid@ {
                            assert(self.peer_index@[n].0@ == k);
                        } else {
                            let j = choose|j: int| 0 <= j < old(self).peer_index@.len() && #[trigger] old(self).peer_index@[j].0@ == k;
                            assert(self.peer_index@[j] == old(self).peer_index@[j]);
                        }
                    }
                    assert forall|j: int| 0 <= j < self.peer_index@.len() implies {
                        &&& self.peers@.contains_key(#[trigger] self.peer_index@[j].0@)
                        &&& self.peers@[self.peer_index@[j].0@] == self.peer_index@[j].1
                    } by {
                        if j < n {
                            assert(self.peer_index@[j] == old(self).peer_index@[j]);
                            assert(old(self).peers@.contains_key(old(self).peer_index@[j].0@));
                        }
                    }
                    assert forall|a: int, b: int| 0 <= a < b < self.peer_index@.len() implies
                        #[trigger] self.peer_index@[a].0@ != #[trigger] self.peer_index@[b].0@ by {
                        assert(self.peer_index@[a] == old(self).peer_index@[a]);
                        if b < n {
                            assert(self.peer_index@[b] == old(self).peer_index@[b]);
                        } else {
                            assert(old(self).peers@.contains_key(old(self).peer_index@[a].0@));
                        }
                    }
                }
            },
        }
    }

    /// Records a group id; a group already known is not listed twice.
    pub fn add_group_id(&mut self, gid: String)
        requires
            old(self).wf(),
        ensures
            final(self).wf(),
            old(self).groups().contains(gid@) ==> final(self).groups() == old(self).groups(),
            !old(self).groups().contains(gid@) ==> final(self).groups() == old(self).groups().push(gid@),
            final(self).log() == old(self).log(),
            final(self).peers() == old(self).peers(),
            final(self).welcome_cursor() == old(self).welcome_cursor(),
            final(self).identity() == old(self).identity(),
    {
        let mut i: usize = 0;
        while i < self.group_ids.len()
            invariant
                self.wf(),
                *self == *old(self),
                i <= self.group_ids@.len(),
                forall|j: int| 0 <= j < i ==> #[trigger] self.group_ids@[j]@ != gid@,
            decreases self.group_ids@.len() - i,
        {
            if self.group_ids[i] == gid {
                assert(self.groups()[i as int] == gid@);
                return;
            }
            i = i + 1;
        }
        assert(!self.groups().contains(gid@)) by {
            if self.groups().contains(gid@) {
                let j = choose|j: int| 0 <= j < self.groups().len() && self.groups()[j] == gid@;
                assert(self.group_ids@[j]@ == gid@);
            }
        }
        self.group_ids.push(gid);
        assert(self.groups() =~= old(self).groups().push(gid@));
    }

    /// Moves the welcome cursor on by one slot.
    pub fn increment_welcome_counter(&mut self)
        requires
            old(self).welcome_cursor() < usize::MAX,
        ensures
            final(self).welcome_cursor() == old(self).welcome_cursor() + 1,
            final(self).log() == old(self).log(),
            final(self).peers() == old(self).peers(),
            final(self).groups() == old(self).groups(),
            final(self).identity() == old(self).identity(),
            old(self).wf() ==> final(self).wf(),
    {
        self.welcome_counter = self.welcome_counter + 1;
    }
}

} // verus!
