use vstd::prelude::*;

use crate::error::RelayError;
use crate::height::{height_le, height_lt, lemma_height_le_trans, Height};

verus! {

/// Identifies a packet on one side of a channel: the channel and the
/// packet's sequence number in that channel's direction.
#[derive(Clone, Copy, Debug, PartialEq, Eq, Structural)]
pub struct PacketKey {
    pub channel: u64,
    pub sequence: u64,
}

/// A packet commitment stored on the source chain: the packet it is for,
/// the digest of the packet, and the height at which it was written.
#[derive(Clone, Copy, Debug, PartialEq, Eq, Structural)]
pub struct Commitment {
    pub key: PacketKey,
    pub digest: u64,
    pub height: Height,
}

/// Where a piece of a chain's IBC state is stored.
#[derive(Clone, Copy, Debug, PartialEq, Eq, Structural)]
pub enum StatePath {
    /// The state of a light client hosted on the chain.
    ClientState { client: u64 },
    /// A connection end.
    Connection { connection: u64 },
    /// A channel end.
    Channel { port: u64, channel: u64 },
    /// A consensus state that a hosted client holds at a height.
    ClientConsensus { client: u64, height: Height },
}

/// A stored piece of state: its path, the digest of its value, and the
/// height at which it was written.
#[derive(Clone, Copy, Debug, PartialEq, Eq, Structural)]
pub struct StateEntry {
    pub path: StatePath,
    pub value: u64,
    pub height: Height,
}

/// A membership proof of a stored piece of state, bound to one height.
#[derive(Clone, Copy, Debug, PartialEq, Eq, Structural)]
pub struct StateProof {
    pub path: StatePath,
    pub value: u64,
    pub height: Height,
}

/// A chain's current height and the time of that block, as observed.
#[derive(Clone, Copy, Debug, PartialEq, Eq, Structural)]
pub struct ChainStatus {
    pub height: Height,
    pub timestamp: u64,
}

/// A membership proof of a packet commitment, bound to one height.
#[derive(Clone, Copy, Debug, PartialEq, Eq, Structural)]
pub struct PacketProof {
    pub key: PacketKey,
    pub digest: u64,
    pub height: Height,
}

/// The trusted root of a chain at one height: the commitments and the other
/// stored state that the chain held at that height.
#[derive(Debug)]
pub struct ConsensusState {
    pub height: Height,
    pub root: Vec<Commitment>,
    pub state_root: Vec<StateEntry>,
}

/// The part of `s` written at or below `h`, in order.
pub open spec fn entries_at(s: Seq<StateEntry>, h: Height) -> Seq<StateEntry> {
    s.filter(|e: StateEntry| height_le(e.height, h))
}

/// What a verifier of state proofs accepts: the proof's height is the
/// consensus state's, and its state root holds the proven value at the path.
pub open spec fn state_proof_accepted(root: Seq<StateEntry>, cs_height: Height, p: StateProof) -> bool {
    p.height == cs_height && exists|i: int|
        0 <= i < root.len() && root[i].path == p.path && root[i].value == p.value
}

/// The source chain as the relayer queries it: its current height and the
/// time of that block, the lowest height it still serves (everything below
/// is pruned), the packet commitments written so far, and its other
/// stored state.
#[derive(Debug)]
pub struct SourceChain {
    pub latest: Height,
    pub timestamp: u64,
    pub earliest: Height,
    pub commitments: Vec<Commitment>,
    pub entries: Vec<StateEntry>,
}

/// No two entries of the sequence are for the same path.
pub open spec fn paths_unique(s: Seq<StateEntry>) -> bool {
    forall|i: int, j: int|
        0 <= i < s.len() && 0 <= j < s.len() && i != j ==> s[i].path != s[j].path
}

/// Some entry of the sequence is for `path`.
pub open spec fn path_present(s: Seq<StateEntry>, path: StatePath) -> bool {
    exists|i: int| 0 <= i < s.len() && s[i].path == path
}

/// The position of the entry for `path`, where there is one.
pub open spec fn path_index(s: Seq<StateEntry>, path: StatePath) -> int {
    choose|i: int| 0 <= i < s.len() && s[i].path == path
}

/// No two commitments of the sequence are for the same packet.
pub open spec fn keys_unique(s: Seq<Commitment>) -> bool {
    forall|i: int, j: int|
        0 <= i < s.len() && 0 <= j < s.len() && i != j ==> s[i].key != s[j].key
}

/// Some commitment of the sequence is for `key`.
pub open spec fn key_present(s: Seq<Commitment>, key: PacketKey) -> bool {
    exists|i: int| 0 <= i < s.len() && s[i].key == key
}

/// The position of the commitment for `key`, where there is one.
pub open spec fn index_of(s: Seq<Commitment>, key: PacketKey) -> int {
    choose|i: int| 0 <= i < s.len() && s[i].key == key
}

/// The commitment for `key` exists in the sequence and was written at or
/// below height `h`.
pub open spec fn committed_at(s: Seq<Commitment>, key: PacketKey, h: Height) -> bool {
    key_present(s, key) && height_le(s[index_of(s, key)].height, h)
}

/// Whether `root` is exactly the part of `s` written at or below `h`.
pub open spec fn is_root_at(root: Seq<Commitment>, s: Seq<Commitment>, h: Height) -> bool {
    forall|c: Commitment| #[trigger]
        root.contains(c) <==> (s.contains(c) && height_le(c.height, h))
}

/// What a verifier accepts: the proof's height is the consensus state's,
/// and the root holds the proven commitment.
pub open spec fn proof_accepted(root: Seq<Commitment>, cs_height: Height, p: PacketProof) -> bool {
    p.height == cs_height && exists|i: int|
        0 <= i < root.len() && root[i].key == p.key && root[i].digest == p.digest
}

impl SourceChain {
    /// Valid state: heights in order, one commitment per packet and one
    /// entry per path, and nothing written above the current height.
    pub open spec fn wf(&self) -> bool {
        &&& height_le(self.earliest, self.latest)
        &&& keys_unique(self.commitments@)
        &&& paths_unique(self.entries@)
        &&& forall|i: int|
            0 <= i < self.commitments@.len() ==> height_le(
                #[trigger] self.commitments@[i].height,
                self.latest,
            )
        &&& forall|i: int|
            0 <= i < self.entries@.len() ==> height_le(#[trigger] self.entries@[i].height, self.latest)
    }

    /// What a state proof query for `path` at `h` returns.
    pub open spec fn proven_state_spec(&self, path: StatePath, h: Height) -> Result<
        StateProof,
        RelayError,
    > {
        let s = self.entries@;
        if self.pruned(h) || height_lt(self.latest, h) || !path_present(s, path) || !height_le(
            s[path_index(s, path)].height,
            h,
        ) {
            Err(RelayError::ProofNotFound)
        } else {
            Ok(StateProof { path, value: s[path_index(s, path)].value, height: h })
        }
    }

    /// Height `h` has been pruned.
    pub open spec fn pruned(&self, h: Height) -> bool {
        height_lt(h, self.earliest)
    }

    /// What a commitment proof query at `h` returns.
    pub open spec fn proven_packet_spec(&self, key: PacketKey, h: Height) -> Result<
        PacketProof,
        RelayError,
    > {
        if self.pruned(h) || height_lt(self.latest, h) {
            Err(RelayError::ProofNotFound)
        } else if committed_at(self.commitments@, key, h) {
            Ok(
                PacketProof {
                    key,
                    digest: self.commitments@[index_of(self.commitments@, key)].digest,
                    height: h,
                },
            )
        } else {
            Err(RelayError::PacketNotFound)
        }
    }

    /// A chain at `latest`, at time 0, that has pruned nothing and holds no
    /// commitment.
    pub fn new(latest: Height) -> (r: SourceChain)
        ensures
            r.wf(),
            r.latest == latest,
            r.timestamp == 0,
            r.earliest == (Height { revision_number: 0, revision_height: 0 }),
            r.commitments@ == Seq::<Commitment>::empty(),
            r.entries@ == Seq::<StateEntry>::empty(),
    {
        SourceChain {
            latest,
            timestamp: 0,
            earliest: Height { revision_number: 0, revision_height: 0 },
            commitments: Vec::new(),
            entries: Vec::new(),
        }
    }

    /// Finds the position of the commitment for `key`.
    fn find(&self, key: PacketKey) -> (r: Option<usize>)
        requires
            self.wf(),
        ensures
            r.is_some() == key_present(self.commitments@, key),
            r.is_some() ==> r.unwrap() == index_of(self.commitments@, key),
    {
        let mut i: usize = 0;
        while i < self.commitments.len()
            invariant
                0 <= i <= self.commitments@.len(),
                self.wf(),
                forall|j: int| 0 <= j < i ==> self.commitments@[j].key != key,
            decreases self.commitments@.len() - i,
        {
            if self.commitments[i].key == key {
                assert(self.commitments@[i as int].key == key);
                let ghost k = index_of(self.commitments@, key);
                assert(self.commitments@[k].key == key);
                assert(k == i);
                return Some(i);
            }
            i = i + 1;
        }
        None
    }

    /// Writes a commitment for `key` at the current height. A packet that
    /// already has a commitment keeps it and the chain is left unchanged.
    pub fn commit(&mut self, key: PacketKey, digest: u64) -> (r: bool)
        requires
            old(self).wf(),
        ensures
            final(self).wf(),
            r == !key_present(old(self).commitments@, key),
            final(self).latest == old(self).latest,
            final(self).timestamp == old(self).timestamp,
            final(self).earliest == old(self).earliest,
            r ==> final(self).commitments@ == old(self).commitments@.push(
                Commitment { key, digest, height: old(self).latest },
            ),
            !r ==> final(self).commitments@ == old(self).commitments@,
            final(self).entries@ == old(self).entries@,
    {
        if self.find(key).is_some() {
            return false;
        }
        let c = Commitment { key, digest, height: self.latest };
        self.commitments.push(c);
        proof {
            let s = self.commitments@;
            assert forall|i: int, j: int|
                0 <= i < s.len() && 0 <= j < s.len() && i != j implies s[i].key != s[j].key by {
                if i == s.len() - 1 {
                    assert(old(self).commitments@[j].key != key);
                } else if j == s.len() - 1 {
                    assert(old(self).commitments@[i].key != key);
                }
            }
        }
        true
    }

    /// Moves the chain to a new current height, not below the old one,
    /// reached at time `timestamp`.
    pub fn advance(&mut self, to: Height, timestamp: u64) -> (r: bool)
        requires
            old(self).wf(),
        ensures
            final(self).wf(),
            r == height_le(old(self).latest, to),
            final(self).latest == (if r { to } else { old(self).latest }),
            final(self).timestamp == (if r { timestamp } else { old(self).timestamp }),
            final(self).earliest == old(self).earliest,
            final(self).commitments@ == old(self).commitments@,
            final(self).entries@ == old(self).entries@,
    {
        if self.latest.le(&to) {
            let ghost before = self.latest;
            self.latest = to;
            self.timestamp = timestamp;
            proof {
                assert forall|i: int| 0 <= i < self.commitments@.len() implies height_le(
                    #[trigger] self.commitments@[i].height,
                    self.latest,
                ) by {
                    lemma_height_le_trans(self.commitments@[i].height, before, to);
                }
                assert forall|i: int| 0 <= i < self.entries@.len() implies height_le(
                    #[trigger] self.entries@[i].height,
                    self.latest,
                ) by {
                    lemma_height_le_trans(self.entries@[i].height, before, to);
                }
            }
            true
        } else {
            false
        }
    }

    /// Prunes every height below `to`; `to` must not exceed the current height.
    pub fn prune(&mut self, to: Height) -> (r: bool)
        requires
            old(self).wf(),
        ensures
            final(self).wf(),
            r == (height_le(old(self).earliest, to) && height_le(to, old(self).latest)),
            final(self).earliest == (if r { to } else { old(self).earliest }),
            final(self).latest == old(self).latest,
            final(self).timestamp == old(self).timestamp,
            final(self).commitments@ == old(self).commitments@,
            final(self).entries@ == old(self).entries@,
    {
        if self.earliest.le(&to) && to.le(&self.latest) {
            self.earliest = to;
            true
        } else {
            false
        }
    }

    fn find_entry(&self, path: StatePath) -> (r: Option<usize>)
        requires
            self.wf(),
        ensures
            r.is_some() == path_present(self.entries@, path),
            r.is_some() ==> r.unwrap() == path_index(self.entries@, path),
    {
        let mut i: usize = 0;
        while i < self.entries.len()
            invariant
                0 <= i <= self.entries@.len(),
                self.wf(),
                forall|j: int| 0 <= j < i ==> self.entries@[j].path != path,
            decreases self.entries@.len() - i,
        {
            if self.entries[i].path == path {
                assert(self.entries@[i as int].path == path);
                let ghost k = path_index(self.entries@, path);
                assert(self.entries@[k].path == path);
                assert(k == i);
                return Some(i);
            }
            i = i + 1;
        }
        None
    }

    /// Writes the value for `path` at the current height. A path that
    /// already holds a value keeps it and the chain is left unchanged.
    pub fn store(&mut self, path: StatePath, value: u64) -> (r: bool)
        requires
            old(self).wf(),
        ensures
            final(self).wf(),
            r == !path_present(old(self).entries@, path),
            final(self).latest == old(self).latest,
            final(self).timestamp == old(self).timestamp,
            final(self).earliest == old(self).earliest,
            final(self).commitments@ == old(self).commitments@,
            r ==> final(self).entries@ == old(self).entries@.push(
                StateEntry { path, value, height: old(self).latest },
            ),
            !r ==> final(self).entries@ == old(self).entries@,
    {
        if self.find_entry(path).is_some() {
            return false;
        }
        self.entries.push(StateEntry { path, value, height: self.latest });
        proof {
            let s = self.entries@;
            assert forall|i: int, j: int|
                0 <= i < s.len() && 0 <= j < s.len() && i != j implies s[i].path != s[j].path by {
                if i == s.len() - 1 {
                    assert(old(self).entries@[j].path != path);
                } else if j == s.len() - 1 {
                    assert(old(self).entries@[i].path != path);
                }
            }
        }
        true
    }

    /// The value stored at `path` with its membership proof at height `h`.
    /// Fails with `ProofNotFound` where `h` is pruned or not reached yet, or
    /// where no value was stored at `path` by height `h`.
    pub fn proven_state(&self, path: StatePath, h: Height) -> (r: Result<StateProof, RelayError>)
        requires
            self.wf(),
        ensures
            r == self.proven_state_spec(path, h),
    {
        if h.lt(&self.earliest) || self.latest.lt(&h) {
            return Err(RelayError::ProofNotFound);
        }
        match self.find_entry(path) {
            Some(i) => {
                let e = self.entries[i];
                if e.height.le(&h) {
                    Ok(StateProof { path, value: e.value, height: h })
                } else {
                    Err(RelayError::ProofNotFound)
                }
            },
            None => Err(RelayError::ProofNotFound),
        }
    }

    /// The sequences among `sequences` whose packets on `channel` still hold
    /// a commitment here, so that their acknowledgements have not been
    /// received yet, in the order given.
    pub fn query_unreceived_acknowledgements(&self, channel: u64, sequences: &Vec<u64>) -> (r: Vec<
        u64,
    >)
        requires
            self.wf(),
        ensures
            r@ == sequences@.filter(
                |q: u64| key_present(self.commitments@, PacketKey { channel, sequence: q }),
            ),
    {
        let ghost f = |q: u64| key_present(self.commitments@, PacketKey { channel, sequence: q });
        let mut out: Vec<u64> = Vec::new();
        let mut i: usize = 0;
        while i < sequences.len()
            invariant
                0 <= i <= sequences@.len(),
                self.wf(),
                f == (|q: u64| key_present(self.commitments@, PacketKey { channel, sequence: q })),
                out@ == sequences@.subrange(0, i as int).filter(f),
            decreases sequences@.len() - i,
        {
            let q = sequences[i];
            proof {
                let pre = sequences@.subrange(0, i as int);
                assert(sequences@.subrange(0, i + 1) == pre.push(q));
                reveal(Seq::filter);
                assert(pre.push(q).drop_last() == pre);
            }
            if self.find(PacketKey { channel, sequence: q }).is_some() {
                out.push(q);
            }
            i = i + 1;
        }
        assert(sequences@.subrange(0, sequences@.len() as int) == sequences@);
        out
    }

    /// The sequences of the packets committed on `channel` by the current
    /// height, in the order written, with that height. Every commitment of a
    /// valid chain is written at or below its current height.
    pub fn query_packet_commitments(&self, channel: u64) -> (r: (Vec<u64>, Height))
        requires
            self.wf(),
        ensures
            r.1 == self.latest,
            r.0@ == self.commitments@.filter(|c: Commitment| c.key.channel == channel).map_values(
                |c: Commitment| c.key.sequence,
            ),
    {
        let mut out: Vec<u64> = Vec::new();
        let mut i: usize = 0;
        while i < self.commitments.len()
            invariant
                0 <= i <= self.commitments@.len(),
                out@ == self.commitments@.subrange(0, i as int).filter(
                    |c: Commitment| c.key.channel == channel,
                ).map_values(|c: Commitment| c.key.sequence),
            decreases self.commitments@.len() - i,
        {
            let c = self.commitments[i];
            proof {
                let pre = self.commitments@.subrange(0, i as int);
                assert(self.commitments@.subrange(0, i + 1) == pre.push(c));
                reveal(Seq::filter);
                assert(pre.push(c).drop_last() == pre);
            }
            if c.key.channel == channel {
                out.push(c.key.sequence);
            }
            proof {
                let pre = self.commitments@.subrange(0, i as int);
                let f = |c: Commitment| c.key.channel == channel;
                let g = |c: Commitment| c.key.sequence;
                if f(c) {
                    assert(pre.push(c).filter(f) == pre.filter(f).push(c));
                    assert(pre.filter(f).push(c).map_values(g) =~= pre.filter(f).map_values(g).push(
                        c.key.sequence,
                    ));
                } else {
                    assert(pre.push(c).filter(f) == pre.filter(f));
                }
            }
            i = i + 1;
        }
        assert(self.commitments@.subrange(0, self.commitments@.len() as int) == self.commitments@);
        (out, self.latest)
    }

    /// The commitment for `key` with its membership proof at height `h`.
    /// Fails with `ProofNotFound` where `h` is pruned or lies above the
    /// current height (not available yet), and `PacketNotFound` where
    /// no commitment for the packet existed at `h`.
    pub fn proven_packet(&self, key: PacketKey, h: Height) -> (r: Result<PacketProof, RelayError>)
        requires
            self.wf(),
        ensures
            r == self.proven_packet_spec(key, h),
    {
        if h.lt(&self.earliest) || self.latest.lt(&h) {
            return Err(RelayError::ProofNotFound);
        }
        match self.find(key) {
            Some(i) => {
                let c = self.commitments[i];
                if c.height.le(&h) {
                    Ok(PacketProof { key, digest: c.digest, height: h })
                } else {
                    Err(RelayError::PacketNotFound)
                }
            },
            None => Err(RelayError::PacketNotFound),
        }
    }

    /// The entries written at or below `h`, in order.
    fn state_root_at(&self, h: Height) -> (r: Vec<StateEntry>)
        ensures
            r@ == entries_at(self.entries@, h),
    {
        let ghost f = |e: StateEntry| height_le(e.height, h);
        let mut out: Vec<StateEntry> = Vec::new();
        let mut i: usize = 0;
        while i < self.entries.len()
            invariant
                0 <= i <= self.entries@.len(),
                f == (|e: StateEntry| height_le(e.height, h)),
                out@ == self.entries@.subrange(0, i as int).filter(f),
            decreases self.entries@.len() - i,
        {
            let e = self.entries[i];
            proof {
                let pre = self.entries@.subrange(0, i as int);
                assert(self.entries@.subrange(0, i + 1) == pre.push(e));
                reveal(Seq::filter);
                assert(pre.push(e).drop_last() == pre);
            }
            if e.height.le(&h) {
                out.push(e);
            }
            i = i + 1;
        }
        assert(self.entries@.subrange(0, self.entries@.len() as int) == self.entries@);
        out
    }

    /// The consensus state of this chain at `h`: the commitments and the
    /// entries written at or below `h`.
    pub fn consensus_state_at(&self, h: Height) -> (r: ConsensusState)
        ensures
            r.height == h,
            is_root_at(r.root@, self.commitments@, h),
            r.state_root@ == entries_at(self.entries@, h),
    {
        let state_root = self.state_root_at(h);
        let mut root: Vec<Commitment> = Vec::new();
        let mut i: usize = 0;
        while i < self.commitments.len()
            invariant
                0 <= i <= self.commitments@.len(),
                forall|c: Commitment| #[trigger]
                    root@.contains(c) <==> (self.commitments@.subrange(0, i as int).contains(c)
                        && height_le(c.height, h)),
            decreases self.commitments@.len() - i,
        {
            let c = self.commitments[i];
            let ghost old_root = root@;
            let ghost pre = self.commitments@.subrange(0, i as int);
            let ghost post = self.commitments@.subrange(0, i + 1);
            assert(post == pre.push(c));
            if c.height.le(&h) {
                root.push(c);
                assert forall|d: Commitment| #[trigger]
                    root@.contains(d) <==> (post.contains(d) && height_le(d.height, h)) by {
                    if root@.contains(d) && d != c {
                        let k = choose|k: int| 0 <= k < root@.len() && root@[k] == d;
                        assert(old_root[k] == d);
                        assert(old_root.contains(d));
                    }
                    if post.contains(d) && d != c {
                        let k = choose|k: int| 0 <= k < post.len() && post[k] == d;
                        assert(pre[k] == d);
                    }
                    if d == c {
                        assert(root@[root@.len() - 1] == d);
                        assert(post[post.len() - 1] == d);
                    }
                    if old_root.contains(d) {
                        let k = choose|k: int| 0 <= k < old_root.len() && old_root[k] == d;
                        assert(root@[k] == d);
                    }
                    if pre.contains(d) {
                        let k = choose|k: int| 0 <= k < pre.len() && pre[k] == d;
                        assert(post[k] == d);
                    }
                }
            } else {
                assert forall|d: Commitment| #[trigger]
                    root@.contains(d) <==> (post.contains(d) && height_le(d.height, h)) by {
                    if post.contains(d) && d != c {
                        let k = choose|k: int| 0 <= k < post.len() && post[k] == d;
                        assert(pre[k] == d);
                    }
                    if pre.contains(d) {
                        let k = choose|k: int| 0 <= k < pre.len() && pre[k] == d;
                        assert(post[k] == d);
                    }
                }
            }
            i = i + 1;
        }
        assert(self.commitments@.subrange(0, i as int) == self.commitments@);
        ConsensusState { height: h, root, state_root }
    }
}

impl ConsensusState {
    /// Whether the state proof `proof` is accepted against this consensus
    /// state: it is bound to this height and the state root holds the proven
    /// value at its path.
    pub fn verify_state_membership(&self, proof: &StateProof) -> (r: bool)
        ensures
            r == state_proof_accepted(self.state_root@, self.height, *proof),
    {
        if !(self.height == proof.height) {
            return false;
        }
        let mut i: usize = 0;
        while i < self.state_root.len()
            invariant
                0 <= i <= self.state_root@.len(),
                self.height == proof.height,
                forall|j: int|
                    0 <= j < i ==> !(self.state_root@[j].path == proof.path
                        && self.state_root@[j].value == proof.value),
            decreases self.state_root@.len() - i,
        {
            if self.state_root[i].path == proof.path && self.state_root[i].value == proof.value {
                assert(self.state_root@[i as int].path == proof.path
                    && self.state_root@[i as int].value == proof.value);
                return true;
            }
            i = i + 1;
        }
        false
    }

    /// Whether `proof` is accepted against this consensus state: it is bound
    /// to this height and the root holds the proven commitment.
    pub fn verify_membership(&self, proof: &PacketProof) -> (r: bool)
        ensures
            r == proof_accepted(self.root@, self.height, *proof),
    {
        if !(self.height == proof.height) {
            return false;
        }
        let mut i: usize = 0;
        while i < self.root.len()
            invariant
                0 <= i <= self.root@.len(),
                self.height == proof.height,
                forall|j: int|
                    0 <= j < i ==> !(self.root@[j].key == proof.key && self.root@[j].digest
                        == proof.digest),
            decreases self.root@.len() - i,
        {
            if self.root[i].key == proof.key && self.root[i].digest == proof.digest {
                assert(self.root@[i as int].key == proof.key && self.root@[i as int].digest
                    == proof.digest);
                return true;
            }
            i = i + 1;
        }
        false
    }
}

/// A proof query at a height that is not pruned, not above the current
/// height, and at which the packet's commitment exists succeeds, and its
/// proof is accepted against the consensus state of the chain at that height.
/// A query at a pruned height, or one not reached yet, fails with
/// `ProofNotFound`.
pub proof fn lemma_proven_packet_verifies(
    chain: SourceChain,
    key: PacketKey,
    h: Height,
    root: Seq<Commitment>,
)
    requires
        chain.wf(),
        is_root_at(root, chain.commitments@, h),
    ensures
        chain.pruned(h) || height_lt(chain.latest, h) ==> chain.proven_packet_spec(key, h) == Err::<PacketProof, RelayError>(
            RelayError::ProofNotFound,
        ),
        !chain.pruned(h) && height_le(h, chain.latest) && committed_at(chain.commitments@, key, h)
            ==> chain.proven_packet_spec(key, h) is Ok && proof_accepted(
            root,
            h,
            chain.proven_packet_spec(key, h)->Ok_0,
        ),
{
    if !chain.pruned(h) && height_le(h, chain.latest) && committed_at(chain.commitments@, key, h) {
        let s = chain.commitments@;
        let c = s[index_of(s, key)];
        assert(s.contains(c));
        assert(root.contains(c));
        let j = choose|j: int| 0 <= j < root.len() && root[j] == c;
        assert(root[j].key == key && root[j].digest == c.digest);
    }
}

/// A state proof query at a height that is neither pruned nor above the
/// current height, for a path written at or below that height, succeeds,
/// and its proof is accepted against the chain's consensus state there.
pub proof fn lemma_proven_state_verifies(chain: SourceChain, path: StatePath, h: Height)
    requires
        chain.wf(),
        !chain.pruned(h),
        height_le(h, chain.latest),
        path_present(chain.entries@, path),
        height_le(chain.entries@[path_index(chain.entries@, path)].height, h),
    ensures
        chain.proven_state_spec(path, h) is Ok,
        state_proof_accepted(
            entries_at(chain.entries@, h),
            h,
            chain.proven_state_spec(path, h)->Ok_0,
        ),
{
    let s = chain.entries@;
    let k = path_index(s, path);
    let f = |e: StateEntry| height_le(e.height, h);
    s.filter_lemma(f);
    assert(f(s[k]));
    assert(s.filter(f).contains(s[k]));
    let root = entries_at(s, h);
    assert(root == s.filter(f));
    let j = choose|j: int| 0 <= j < root.len() && root[j] == s[k];
    assert(root[j].path == path && root[j].value == s[k].value);
}

} // verus!
