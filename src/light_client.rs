use vstd::prelude::*;

use crate::error::RelayError;
use crate::height::{height_le, height_lt, Height};

verus! {

/// The data of one block that light-client verification reads: its height,
/// its time, the hash of the validator set that signed it, the hash of the
/// set it announces for the next block, and its application state hash.
#[derive(Clone, Copy, Debug, PartialEq, Eq, Structural)]
pub struct LightBlock {
    pub height: Height,
    pub time: u64,
    pub validators_hash: u64,
    pub next_validators_hash: u64,
    pub app_hash: u64,
}

/// A client-update header: the block it certifies and the trusted height
/// from which it was verified.
#[derive(Clone, Copy, Debug, PartialEq, Eq, Structural)]
pub struct Header {
    pub block: LightBlock,
    pub trusted_height: Height,
}

/// A header together with the signatures over it, each recorded as the
/// hash of the validator set that made it.
#[derive(Debug)]
pub struct SignedHeader {
    pub header: Header,
    pub signatures: Vec<u64>,
}

/// Two conflicting headers for the same height and trusted predecessor.
#[derive(Clone, Copy, Debug, PartialEq, Eq, Structural)]
pub struct MisbehaviourEvidence {
    pub height: Height,
    pub header1: Header,
    pub header2: Header,
}

/// The verification parameters of a client.
#[derive(Clone, Copy, Debug, PartialEq, Eq, Structural)]
pub struct ClientState {
    pub trust_period: u64,
}

/// A verified target header with the headers that connect it to the
/// trusted height, in order.
#[derive(Debug)]
pub struct Verified {
    pub target: Header,
    pub supporting: Vec<Header>,
}

/// The light client of one counterparty chain: the light blocks it holds.
#[derive(Debug)]
pub struct LightClient {
    pub blocks: Vec<LightBlock>,
}

/// `b` can be trusted from `a`: both lie in one revision, `b` is higher,
/// and `b` is signed by the validator set that `a` announced.
pub open spec fn can_step(a: LightBlock, b: LightBlock) -> bool {
    a.height.revision_number == b.height.revision_number && height_lt(a.height, b.height)
        && b.validators_hash == a.next_validators_hash
}

/// Block `a` is older than the trust period at time `now`.
pub open spec fn expired(a: LightBlock, trust_period: u64, now: u64) -> bool {
    a.time + trust_period <= now
}

/// The block that header `i` of the chain is verified from: `start` for
/// the first header, the previous header's block for the others.
pub open spec fn pred_block(chain: Seq<Header>, start: LightBlock, i: int) -> LightBlock {
    if i == 0 {
        start
    } else {
        chain[i - 1].block
    }
}

/// Each header names its predecessor's height as its trusted height and
/// can be trusted from it; the predecessor of the first is `start`.
pub open spec fn links(chain: Seq<Header>, start: LightBlock) -> bool {
    forall|i: int|
        0 <= i < chain.len() ==> (#[trigger] chain[i]).trusted_height == pred_block(
            chain,
            start,
            i,
        ).height && can_step(pred_block(chain, start, i), chain[i].block)
}

/// No two blocks of the sequence are at the same height.
pub open spec fn heights_unique(s: Seq<LightBlock>) -> bool {
    forall|i: int, j: int|
        0 <= i < s.len() && 0 <= j < s.len() && i != j ==> s[i].height != s[j].height
}

/// The sequence holds a block at height `h`.
pub open spec fn has_block(s: Seq<LightBlock>, h: Height) -> bool {
    exists|i: int| 0 <= i < s.len() && s[i].height == h
}

/// The block at height `h`, where there is one.
pub open spec fn block_at(s: Seq<LightBlock>, h: Height) -> LightBlock {
    s[choose|i: int| 0 <= i < s.len() && s[i].height == h]
}

/// The two headers conflict: same height, same trusted predecessor,
/// different content.
pub open spec fn conflicting(a: Header, b: Header) -> bool {
    a.block.height == b.block.height && a.trusted_height == b.trusted_height && a != b
}

/// The header carries at least one signature, and every one of them is by
/// the validator set that the header names.
pub open spec fn validly_signed(sh: SignedHeader) -> bool {
    sh.signatures@.len() > 0 && forall|i: int|
        0 <= i < sh.signatures@.len() ==> sh.signatures@[i] == sh.header.block.validators_hash
}

/// The signed update and the header `held` are irreconcilable: they
/// conflict, they name the same validator set, and the update is validly
/// signed by it.
pub open spec fn misbehaves(update: SignedHeader, held: Header) -> bool {
    conflicting(update.header, held) && update.header.block.validators_hash
        == held.block.validators_hash && validly_signed(update)
}

fn is_validly_signed(sh: &SignedHeader) -> (r: bool)
    ensures
        r == validly_signed(*sh),
{
    if sh.signatures.len() == 0 {
        return false;
    }
    let mut i: usize = 0;
    while i < sh.signatures.len()
        invariant
            0 <= i <= sh.signatures@.len(),
            forall|j: int| 0 <= j < i ==> sh.signatures@[j] == sh.header.block.validators_hash,
        decreases sh.signatures@.len() - i,
    {
        if sh.signatures[i] != sh.header.block.validators_hash {
            return false;
        }
        i = i + 1;
    }
    true
}

/// Evidence against `held` from a signed update, exactly where they are
/// irreconcilable.
fn evidence_against(update: &SignedHeader, held: Header) -> (r: Option<MisbehaviourEvidence>)
    ensures
        r is Some == misbehaves(*update, held),
        r is Some ==> r->Some_0 == (MisbehaviourEvidence {
            height: update.header.block.height,
            header1: update.header,
            header2: held,
        }),
{
    let a = update.header;
    if a.block.height == held.block.height && a.trusted_height == held.trusted_height && !(a
        == held) && a.block.validators_hash == held.block.validators_hash && is_validly_signed(
        update,
    ) {
        Some(MisbehaviourEvidence { height: a.block.height, header1: a, header2: held })
    } else {
        None
    }
}

/// Checks a received update against another signed header for the same
/// height. Evidence comes back exactly when both are validly signed by the
/// same validator set and their content conflicts. The order of the
/// signatures plays no part, so headers that differ only in it give none.
pub fn check_misbehaviour(update: &SignedHeader, trusted: &SignedHeader) -> (r: Option<
    MisbehaviourEvidence,
>)
    ensures
        r is Some == (validly_signed(*trusted) && misbehaves(*update, trusted.header)),
        r is Some ==> r->Some_0 == (MisbehaviourEvidence {
            height: update.header.block.height,
            header1: update.header,
            header2: trusted.header,
        }),
{
    if !is_validly_signed(trusted) {
        return None;
    }
    evidence_against(update, trusted.header)
}

/// The headers of a verified result, in order: the supporting ones, then
/// the target.
pub open spec fn full_chain(supporting: Seq<Header>, target: Header) -> Seq<Header> {
    supporting.push(target)
}

/// What `verify` returns on these blocks.
pub open spec fn verify_spec(
    s: Seq<LightBlock>,
    trusted: Height,
    target: Height,
    trust_period: u64,
    now: u64,
) -> Result<LightBlock, RelayError> {
    if !has_block(s, trusted) {
        Err(RelayError::HeightNotAvailable)
    } else if expired(block_at(s, trusted), trust_period, now) {
        Err(RelayError::ExpiredClient)
    } else if !has_block(s, target) {
        Err(RelayError::HeightNotAvailable)
    } else if !can_step(block_at(s, trusted), block_at(s, target)) {
        Err(RelayError::InsufficientTrust)
    } else {
        Ok(block_at(s, target))
    }
}

/// `c` is a chain of headers over blocks of `s` that leads from `start` to
/// the block at `target`.
pub open spec fn chain_from(s: Seq<LightBlock>, start: LightBlock, target: Height, c: Seq<Header>) -> bool {
    &&& c.len() > 0
    &&& links(c, start)
    &&& c.last().block == block_at(s, target)
    &&& forall|i: int| 0 <= i < c.len() ==> s.contains(#[trigger] c[i].block)
}

/// Some chain of headers over blocks of `s` leads from `start` to the block
/// at `target`.
#[verifier::opaque]
pub open spec fn reachable(s: Seq<LightBlock>, start: LightBlock, target: Height) -> bool {
    exists|c: Seq<Header>| chain_from(s, start, target, c)
}

/// Some chain of at most `n` headers over blocks of `s` leads from `start`
/// to the block at `target`.
#[verifier::opaque]
pub open spec fn reachable_within(s: Seq<LightBlock>, start: LightBlock, target: Height, n: nat) -> bool {
    exists|c: Seq<Header>| chain_from(s, start, target, c) && c.len() <= n
}

/// `a` comes before `b`: at the first position where their blocks differ,
/// the block of `a` is lower.
pub open spec fn chain_below(a: Seq<Header>, b: Seq<Header>) -> bool {
    exists|k: int|
        0 <= k < a.len() && k < b.len() && height_lt(a[k].block.height, b[k].block.height) && forall|
            j: int,
        | 0 <= j < k ==> a[j].block == b[j].block
}

proof fn lemma_within_mono(s: Seq<LightBlock>, start: LightBlock, target: Height, m: nat, n: nat)
    requires
        m <= n,
        reachable_within(s, start, target, m),
    ensures
        reachable_within(s, start, target, n),
{
    reveal(reachable_within);
    let c = choose|c: Seq<Header>| chain_from(s, start, target, c) && c.len() <= m;
    assert(chain_from(s, start, target, c) && c.len() <= n);
}

proof fn lemma_links_prepend(h: Header, rest: Seq<Header>, start: LightBlock)
    requires
        links(rest, h.block),
        h.trusted_height == start.height,
        can_step(start, h.block),
    ensures
        links(seq![h] + rest, start),
{
    let c = seq![h] + rest;
    assert forall|i: int| 0 <= i < c.len() implies (#[trigger] c[i]).trusted_height == pred_block(
        c,
        start,
        i,
    ).height && can_step(pred_block(c, start, i), c[i].block) by {
        if i > 0 {
            assert(c[i] == rest[i - 1]);
            let _ = rest[i - 1];
            if i > 1 {
                assert(c[i - 1] == rest[i - 2]);
            }
        }
    }
}

proof fn lemma_links_tail(c: Seq<Header>, start: LightBlock)
    requires
        links(c, start),
        c.len() > 1,
    ensures
        links(c.subrange(1, c.len() as int), c[0].block),
{
    let t = c.subrange(1, c.len() as int);
    assert forall|i: int| 0 <= i < t.len() implies (#[trigger] t[i]).trusted_height == pred_block(
        t,
        c[0].block,
        i,
    ).height && can_step(pred_block(t, c[0].block, i), t[i].block) by {
        assert(t[i] == c[i + 1]);
        let _ = c[i + 1];
        if i > 0 {
            assert(t[i - 1] == c[i]);
        }
    }
}

proof fn lemma_chain_rises(c: Seq<Header>, start: LightBlock, i: int)
    requires
        links(c, start),
        0 <= i < c.len(),
    ensures
        height_lt(start.height, c[i].block.height),
        c[i].block.height.revision_number == start.height.revision_number,
    decreases i,
{
    let _ = c[i];
    if i > 0 {
        lemma_chain_rises(c, start, i - 1);
    }
}

proof fn lemma_chain_prepend(
    s: Seq<LightBlock>,
    cur: LightBlock,
    target: Height,
    h: Header,
    rest: Seq<Header>,
)
    requires
        chain_from(s, h.block, target, rest),
        s.contains(h.block),
        h.trusted_height == cur.height,
        can_step(cur, h.block),
    ensures
        chain_from(s, cur, target, seq![h] + rest),
{
    let v = seq![h] + rest;
    lemma_links_prepend(h, rest, cur);
    assert(v.last() == rest.last());
    assert forall|i: int| 0 <= i < v.len() implies s.contains(#[trigger] v[i].block) by {
        if i > 0 {
            assert(v[i] == rest[i - 1]);
            let _ = rest[i - 1].block;
        }
    }
}

/// Where the target cannot be trusted from `cur` directly, and no chain of
/// at most `n - 1` headers leads on from any held block below the target
/// that can be, no chain of at most `n` headers leads from `cur`.
proof fn lemma_no_chain_within(s: Seq<LightBlock>, cur: LightBlock, target: Height, n: nat)
    requires
        n >= 1,
        !can_step(cur, block_at(s, target)),
        block_at(s, target).height == target,
        forall|k: int|
            0 <= k < s.len() && can_step(cur, #[trigger] s[k]) && height_lt(s[k].height, target)
                ==> !reachable_within(s, s[k], target, (n - 1) as nat),
    ensures
        !reachable_within(s, cur, target, n),
{
    reveal(reachable_within);
    if reachable_within(s, cur, target, n) {
        let c = choose|c: Seq<Header>| chain_from(s, cur, target, c) && c.len() <= n;
        let _ = c[0];
        if c.len() == 1 {
            assert(c[0] == c.last());
        } else {
            lemma_links_tail(c, cur);
            let t = c.subrange(1, c.len() as int);
            let b = c[0].block;
            assert(s.contains(b));
            let k = choose|k: int| 0 <= k < s.len() && s[k] == b;
            lemma_chain_rises(t, b, t.len() - 1);
            assert(t.last() == c.last());
            assert forall|i: int| 0 <= i < t.len() implies s.contains(#[trigger] t[i].block) by {
                assert(t[i] == c[i + 1]);
                let _ = c[i + 1].block;
            }
            assert(chain_from(s, b, target, t) && t.len() <= n - 1);
            assert(can_step(cur, s[k]) && height_lt(s[k].height, target));
            assert(!reachable_within(s, s[k], target, (n - 1) as nat));
        }
    }
}

/// Extending the latest chain from `b` by a first step to `b`, the highest
/// block from which a chain of at most `n - 1` headers leads on, gives the
/// latest chain of at most `n` headers from `cur`.
proof fn lemma_latest_prepend(
    s: Seq<LightBlock>,
    cur: LightBlock,
    target: Height,
    h: Header,
    rest: Seq<Header>,
    n: nat,
)
    requires
        n >= 1,
        heights_unique(s),
        s.contains(h.block),
        h.trusted_height == cur.height,
        can_step(cur, h.block),
        !can_step(cur, block_at(s, target)),
        block_at(s, target).height == target,
        chain_from(s, h.block, target, rest),
        forall|c: Seq<Header>| #[trigger]
            chain_from(s, h.block, target, c) && c.len() <= n - 1 ==> c == rest || chain_below(
                c,
                rest,
            ),
        forall|k: int|
            0 <= k < s.len() && can_step(cur, #[trigger] s[k]) && height_lt(s[k].height, target)
                && height_lt(h.block.height, s[k].height) ==> !reachable_within(
                s,
                s[k],
                target,
                (n - 1) as nat,
            ),
    ensures
        forall|c: Seq<Header>| #[trigger]
            chain_from(s, cur, target, c) && c.len() <= n ==> c == seq![h] + rest || chain_below(
                c,
                seq![h] + rest,
            ),
{
    let v = seq![h] + rest;
    let b = h.block;
    assert forall|c: Seq<Header>| #[trigger]
        chain_from(s, cur, target, c) && c.len() <= n implies c == v || chain_below(c, v) by {
        let _ = c[0];
        if c.len() == 1 {
            assert(c[0] == c.last());
        } else {
            lemma_links_tail(c, cur);
            let t = c.subrange(1, c.len() as int);
            let b2 = c[0].block;
            assert(s.contains(b2));
            let k = choose|k: int| 0 <= k < s.len() && s[k] == b2;
            lemma_chain_rises(t, b2, t.len() - 1);
            assert(t.last() == c.last());
            assert forall|i: int| 0 <= i < t.len() implies s.contains(#[trigger] t[i].block) by {
                assert(t[i] == c[i + 1]);
                let _ = c[i + 1].block;
            }
            assert(chain_from(s, b2, target, t));
            assert(v[0] == h);
            if height_lt(b.height, b2.height) {
                reveal(reachable_within);
                assert(chain_from(s, b2, target, t) && t.len() <= n - 1);
                assert(can_step(cur, s[k]) && height_lt(s[k].height, target));
                assert(false);
            } else if b2.height == b.height {
                let m = choose|m: int| 0 <= m < s.len() && s[m] == b;
                assert(k == m);
                assert(b2 == b);
                assert(c[0] == h);
                if t == rest {
                    assert(c =~= v);
                } else {
                    assert(chain_below(t, rest));
                    let kk = choose|kk: int|
                        0 <= kk < t.len() && kk < rest.len() && height_lt(
                            t[kk].block.height,
                            rest[kk].block.height,
                        ) && forall|j: int| 0 <= j < kk ==> t[j].block == rest[j].block;
                    assert(c[kk + 1] == t[kk]);
                    assert(v[kk + 1] == rest[kk]);
                    assert forall|j: int| 0 <= j < kk + 1 implies c[j].block == v[j].block by {
                        if j > 0 {
                            assert(c[j] == t[j - 1]);
                            assert(v[j] == rest[j - 1]);
                        }
                    }
                    assert(chain_below(c, v));
                }
            } else {
                assert(height_lt(c[0].block.height, v[0].block.height));
                assert(chain_below(c, v));
            }
        }
    }
}

/// At most one chain is the latest among the chains of its length from
/// `start` to the target: two such chains are equal. So the result of
/// `header_and_minimal_set` is fixed by its contract.
pub proof fn lemma_latest_unique(
    s: Seq<LightBlock>,
    start: LightBlock,
    target: Height,
    a: Seq<Header>,
    b: Seq<Header>,
)
    requires
        chain_from(s, start, target, a),
        chain_from(s, start, target, b),
        a.len() == b.len(),
        forall|c: Seq<Header>| #[trigger]
            chain_from(s, start, target, c) && c.len() == a.len() ==> c == a || chain_below(c, a),
        forall|c: Seq<Header>| #[trigger]
            chain_from(s, start, target, c) && c.len() == b.len() ==> c == b || chain_below(c, b),
    ensures
        a == b,
{
    if a != b {
        assert(chain_below(b, a));
        assert(chain_below(a, b));
        let k1 = choose|k: int|
            0 <= k < b.len() && k < a.len() && height_lt(b[k].block.height, a[k].block.height)
                && forall|j: int| 0 <= j < k ==> b[j].block == a[j].block;
        let k2 = choose|k: int|
            0 <= k < a.len() && k < b.len() && height_lt(a[k].block.height, b[k].block.height)
                && forall|j: int| 0 <= j < k ==> a[j].block == b[j].block;
        if k1 < k2 {
            assert(a[k1].block == b[k1].block);
        } else if k2 < k1 {
            assert(b[k2].block == a[k2].block);
        }
    }
}

proof fn lemma_chain_increasing(c: Seq<Header>, start: LightBlock, i: int, j: int)
    requires
        links(c, start),
        0 <= i < j < c.len(),
    ensures
        height_lt(c[i].block.height, c[j].block.height),
    decreases j - i,
{
    let _ = c[j];
    if j > i + 1 {
        lemma_chain_increasing(c, start, i, j - 1);
    }
}

/// A chain over the blocks of `s` holds at most as many headers as `s`
/// holds blocks: its blocks are distinct, as their heights rise.
proof fn lemma_chain_len_bound(s: Seq<LightBlock>, start: LightBlock, target: Height, c: Seq<Header>)
    requires
        chain_from(s, start, target, c),
    ensures
        c.len() <= s.len(),
{
    let idx = Seq::new(c.len(), |i: int| choose|k: int| 0 <= k < s.len() && s[k] == c[i].block);
    assert forall|i: int| 0 <= i < c.len() implies 0 <= #[trigger] idx[i] < s.len() && s[idx[i]]
        == c[i].block by {
        assert(s.contains(c[i].block));
    }
    assert forall|i: int, j: int| 0 <= i < idx.len() && 0 <= j < idx.len() && i != j implies idx[i]
        != idx[j] by {
        assert(0 <= idx[i] < s.len() && s[idx[i]] == c[i].block);
        assert(0 <= idx[j] < s.len() && s[idx[j]] == c[j].block);
        if i < j {
            lemma_chain_increasing(c, start, i, j);
        } else {
            lemma_chain_increasing(c, start, j, i);
        }
    }
    assert(idx.no_duplicates());
    idx.unique_seq_to_set();
    let range = vstd::set_lib::set_int_range(0, s.len() as int);
    vstd::set_lib::lemma_int_range(0, s.len() as int);
    assert forall|x: int| idx.to_set().contains(x) implies range.contains(x) by {
        let i = choose|i: int| 0 <= i < idx.len() && idx[i] == x;
        assert(0 <= idx[i] < s.len());
    }
    vstd::set_lib::lemma_len_subset(idx.to_set(), range);
}

/// The error `header_and_minimal_set` reports before it looks for a chain
/// of headers, if any.
pub open spec fn header_precheck(
    s: Seq<LightBlock>,
    trusted: Height,
    target: Height,
    trust_period: u64,
    now: u64,
) -> Option<RelayError> {
    if !has_block(s, trusted) {
        Some(RelayError::HeightNotAvailable)
    } else if expired(block_at(s, trusted), trust_period, now) {
        Some(RelayError::ExpiredClient)
    } else if !has_block(s, target) {
        Some(RelayError::HeightNotAvailable)
    } else {
        None
    }
}

fn is_expired(b: &LightBlock, trust_period: u64, now: u64) -> (r: bool)
    ensures
        r == expired(*b, trust_period, now),
{
    now >= b.time && now - b.time >= trust_period
}

fn step_ok(a: &LightBlock, b: &LightBlock) -> (r: bool)
    ensures
        r == can_step(*a, *b),
{
    a.height.same_revision(&b.height) && a.height.lt(&b.height) && b.validators_hash
        == a.next_validators_hash
}

proof fn lemma_revision_at(chain: Seq<Header>, start: LightBlock, i: int)
    requires
        links(chain, start),
        0 <= i < chain.len(),
    ensures
        chain[i].block.height.revision_number == start.height.revision_number,
        chain[i].trusted_height.revision_number == start.height.revision_number,
    decreases i,
{
    let _ = chain[i];
    if i > 0 {
        lemma_revision_at(chain, start, i - 1);
    }
}

/// A linked chain of headers stays within the revision of the block it
/// starts from: every header and every trusted height in it lie in that
/// revision, and the first header's trusted height is the start's height.
pub proof fn lemma_chain_within_revision(chain: Seq<Header>, start: LightBlock)
    requires
        links(chain, start),
        chain.len() > 0,
    ensures
        chain[0].trusted_height == start.height,
        forall|i: int|
            0 <= i < chain.len() ==> (#[trigger] chain[i]).block.height.revision_number
                == start.height.revision_number && chain[i].trusted_height.revision_number
                == start.height.revision_number,
{
    let _ = chain[0];
    assert forall|i: int| 0 <= i < chain.len() implies (#[trigger] chain[i]).block.height.revision_number
        == start.height.revision_number && chain[i].trusted_height.revision_number
        == start.height.revision_number by {
        lemma_revision_at(chain, start, i);
    }
}

impl LightClient {
    /// Valid state: one block per height.
    pub open spec fn wf(&self) -> bool {
        heights_unique(self.blocks@)
    }

    /// A client holding no block.
    pub fn new() -> (r: LightClient)
        ensures
            r.wf(),
            r.blocks@.len() == 0,
    {
        LightClient { blocks: Vec::new() }
    }

    /// Adds a block; a height already held keeps its block.
    pub fn add_block(&mut self, b: LightBlock) -> (r: bool)
        requires
            old(self).wf(),
        ensures
            final(self).wf(),
            r == !has_block(old(self).blocks@, b.height),
            r ==> final(self).blocks@ == old(self).blocks@.push(b),
            !r ==> final(self).blocks@ == old(self).blocks@,
    {
        if self.fetch(b.height).is_ok() {
            return false;
        }
        self.blocks.push(b);
        proof {
            let s = self.blocks@;
            assert forall|i: int, j: int|
                0 <= i < s.len() && 0 <= j < s.len() && i != j implies s[i].height
                != s[j].height by {
                if i == s.len() - 1 {
                    assert(old(self).blocks@[j].height != b.height);
                } else if j == s.len() - 1 {
                    assert(old(self).blocks@[i].height != b.height);
                }
            }
        }
        true
    }

    /// The block at height `h`; `HeightNotAvailable` where none is held.
    pub fn fetch(&self, h: Height) -> (r: Result<LightBlock, RelayError>)
        requires
            self.wf(),
        ensures
            r is Ok == has_block(self.blocks@, h),
            r is Ok ==> r->Ok_0 == block_at(self.blocks@, h) && r->Ok_0.height == h,
            r is Err ==> r->Err_0 == RelayError::HeightNotAvailable,
    {
        let mut i: usize = 0;
        while i < self.blocks.len()
            invariant
                0 <= i <= self.blocks@.len(),
                self.wf(),
                forall|j: int| 0 <= j < i ==> self.blocks@[j].height != h,
            decreases self.blocks@.len() - i,
        {
            if self.blocks[i].height == h {
                let ghost k = choose|k: int|
                    0 <= k < self.blocks@.len() && self.blocks@[k].height == h;
                assert(self.blocks@[i as int].height == h);
                assert(k == i);
                return Ok(self.blocks[i]);
            }
            i = i + 1;
        }
        Err(RelayError::HeightNotAvailable)
    }

    /// Verifies the block at `target` directly from the block at `trusted`.
    pub fn verify(&self, trusted: Height, target: Height, client_state: &ClientState, now: u64) -> (r:
        Result<LightBlock, RelayError>)
        requires
            self.wf(),
        ensures
            r == verify_spec(self.blocks@, trusted, target, client_state.trust_period, now),
    {
        let tb = match self.fetch(trusted) {
            Ok(b) => b,
            Err(e) => return Err(e),
        };
        if is_expired(&tb, client_state.trust_period, now) {
            return Err(RelayError::ExpiredClient);
        }
        let xb = match self.fetch(target) {
            Ok(b) => b,
            Err(e) => return Err(e),
        };
        if !step_ok(&tb, &xb) {
            return Err(RelayError::InsufficientTrust);
        }
        Ok(xb)
    }

    /// The highest block below `bound` that can be trusted from `cur`.
    fn highest_below(&self, cur: &LightBlock, bound: Height) -> (r: Option<usize>)
        ensures
            r is Some ==> r->Some_0 < self.blocks@.len() && can_step(
                *cur,
                self.blocks@[r->Some_0 as int],
            ) && height_lt(self.blocks@[r->Some_0 as int].height, bound) && forall|j: int|
                0 <= j < self.blocks@.len() && can_step(*cur, #[trigger] self.blocks@[j])
                    && height_lt(self.blocks@[j].height, bound) ==> height_le(
                    self.blocks@[j].height,
                    self.blocks@[r->Some_0 as int].height,
                ),
            r is None ==> forall|j: int|
                0 <= j < self.blocks@.len() ==> !(can_step(*cur, #[trigger] self.blocks@[j])
                    && height_lt(self.blocks@[j].height, bound)),
    {
        let mut best: Option<usize> = None;
        let mut i: usize = 0;
        while i < self.blocks.len()
            invariant
                0 <= i <= self.blocks@.len(),
                best is Some ==> best->Some_0 < i && can_step(
                    *cur,
                    self.blocks@[best->Some_0 as int],
                ) && height_lt(self.blocks@[best->Some_0 as int].height, bound),
                forall|j: int|
                    0 <= j < i && can_step(*cur, #[trigger] self.blocks@[j]) && height_lt(
                        self.blocks@[j].height,
                        bound,
                    ) ==> best is Some && height_le(
                        self.blocks@[j].height,
                        self.blocks@[best->Some_0 as int].height,
                    ),
            decreases self.blocks@.len() - i,
        {
            let b = self.blocks[i];
            if step_ok(cur, &b) && b.height.lt(&bound) {
                match best {
                    None => {
                        best = Some(i);
                    },
                    Some(k) => {
                        if self.blocks[k].height.lt(&b.height) {
                            best = Some(i);
                        }
                    },
                }
            }
            i = i + 1;
        }
        best
    }

    /// A chain of at most `budget` headers over the held blocks from `cur`
    /// to `xb`, the block at `target`, or `None` where there is none. From
    /// each block it tries the target first, then the blocks below it from
    /// the highest down, so the chain found is the latest of them. Entry
    /// `k` of `ruled_out` is a length up to which no chain leads on from
    /// block `k`; the search raises those it learns.
    fn search_within(
        &self,
        cur: LightBlock,
        xb: LightBlock,
        target: Height,
        budget: usize,
        ruled_out: &mut Vec<usize>,
    ) -> (r: Option<Vec<Header>>)
        requires
            self.wf(),
            budget >= 1,
            old(ruled_out)@.len() == self.blocks@.len(),
            forall|k: int|
                0 <= k < old(ruled_out)@.len() ==> !reachable_within(
                    self.blocks@,
                    self.blocks@[k],
                    target,
                    #[trigger] old(ruled_out)@[k] as nat,
                ),
            has_block(self.blocks@, target),
            xb == block_at(self.blocks@, target),
            xb.height == target,
            cur.height.revision_number == target.revision_number,
            height_lt(cur.height, target),
        ensures
            final(ruled_out)@.len() == self.blocks@.len(),
            forall|k: int|
                0 <= k < final(ruled_out)@.len() ==> !reachable_within(
                    self.blocks@,
                    self.blocks@[k],
                    target,
                    #[trigger] final(ruled_out)@[k] as nat,
                ),
            r is Some ==> chain_from(self.blocks@, cur, target, r->Some_0@) && r->Some_0@.len()
                <= budget,
            r is None ==> !reachable_within(self.blocks@, cur, target, budget as nat),
            r is Some ==> forall|c: Seq<Header>| #[trigger]
                chain_from(self.blocks@, cur, target, c) && c.len() <= budget ==> c
                    == r->Some_0@ || chain_below(c, r->Some_0@),
            can_step(cur, xb) ==> r is Some && r->Some_0@ == seq![
                Header { block: xb, trusted_height: cur.height },
            ],
        decreases budget,
    {
        let ghost s = self.blocks@;
        proof {
            let i = choose|i: int| 0 <= i < s.len() && s[i].height == target;
            assert(s[i] == xb);
            assert(s.contains(xb));
        }
        if step_ok(&cur, &xb) {
            let h = Header { block: xb, trusted_height: cur.height };
            let mut v: Vec<Header> = Vec::new();
            v.push(h);
            proof {
                assert(v@[0] == h);
                assert(links(v@, cur));
                assert(v@ =~= seq![h]);
                assert forall|c: Seq<Header>| #[trigger]
                    chain_from(s, cur, target, c) && c.len() <= budget implies c == v@
                        || chain_below(c, v@) by {
                    let _ = c[0];
                    if c.len() == 1 {
                        assert(c[0] == c.last());
                        assert(c[0] == h);
                        assert(c =~= v@);
                    } else {
                        lemma_links_tail(c, cur);
                        let t = c.subrange(1, c.len() as int);
                        lemma_chain_rises(t, c[0].block, t.len() - 1);
                        assert(t.last() == c.last());
                        assert(height_lt(c[0].block.height, v@[0].block.height));
                    }
                }
            }
            return Some(v);
        }
        let mut bound = target;
        loop
            invariant
                s == self.blocks@,
                self.wf(),
                budget >= 1,
                ruled_out@.len() == s.len(),
                forall|k: int|
                    0 <= k < ruled_out@.len() ==> !reachable_within(
                        s,
                        s[k],
                        target,
                        #[trigger] ruled_out@[k] as nat,
                    ),
                forall|k: int|
                    0 <= k < s.len() && can_step(cur, #[trigger] s[k]) && height_lt(
                        s[k].height,
                        target,
                    ) && !height_lt(s[k].height, bound) ==> !reachable_within(
                        s,
                        s[k],
                        target,
                        (budget - 1) as nat,
                    ),
                height_le(bound, target),
                bound.revision_number == target.revision_number,
                !can_step(cur, xb),
                s.contains(xb),
                has_block(s, target),
                xb == block_at(s, target),
                xb.height == target,
                cur.height.revision_number == target.revision_number,
                height_lt(cur.height, target),
            decreases bound.revision_height,
        {
            match self.highest_below(&cur, bound) {
                None => {
                    proof {
                        lemma_no_chain_within(s, cur, target, budget as nat);
                    }
                    return None;
                },
                Some(i) => {
                    let b = self.blocks[i];
                    if ruled_out[i] < budget - 1 {
                        match self.search_within(b, xb, target, budget - 1, ruled_out) {
                            Some(rest) => {
                                let h = Header { block: b, trusted_height: cur.height };
                                let mut v: Vec<Header> = Vec::new();
                                v.push(h);
                                let mut rest = rest;
                                let ghost rs = rest@;
                                v.append(&mut rest);
                                proof {
                                    assert(v@ =~= seq![h] + rs);
                                    assert(s.contains(b)) by {
                                        assert(s[i as int] == b);
                                    }
                                    lemma_chain_prepend(s, cur, target, h, rs);
                                    assert forall|k: int|
                                        0 <= k < s.len() && can_step(cur, #[trigger] s[k])
                                            && height_lt(s[k].height, target) && height_lt(
                                            b.height,
                                            s[k].height,
                                        ) implies !reachable_within(
                                        s,
                                        s[k],
                                        target,
                                        (budget - 1) as nat,
                                    ) by {
                                        if height_lt(s[k].height, bound) {
                                            assert(height_le(s[k].height, b.height));
                                        }
                                    }
                                    lemma_latest_prepend(s, cur, target, h, rs, budget as nat);
                                }
                                return Some(v);
                            },
                            None => {
                                ruled_out.set(i, budget - 1);
                            },
                        }
                    } else {
                        proof {
                            if reachable_within(s, b, target, (budget - 1) as nat) {
                                lemma_within_mono(
                                    s,
                                    b,
                                    target,
                                    (budget - 1) as nat,
                                    ruled_out@[i as int] as nat,
                                );
                            }
                        }
                    }
                    proof {
                        assert(!reachable_within(s, s[i as int], target, (budget - 1) as nat));
                        assert forall|k: int|
                            0 <= k < s.len() && can_step(cur, #[trigger] s[k]) && height_lt(
                                s[k].height,
                                target,
                            ) && !height_lt(s[k].height, b.height) implies !reachable_within(
                            s,
                            s[k],
                            target,
                            (budget - 1) as nat,
                        ) by {
                            if height_lt(s[k].height, bound) {
                                assert(height_le(s[k].height, b.height));
                                assert(s[k].height == b.height);
                                assert(k == i as int);
                            }
                        }
                    }
                    bound = b.height;
                },
            }
        }
    }

    /// A table that rules out, for each held block, chains of no header.
    fn nothing_ruled_out(&self, target: Height) -> (r: Vec<usize>)
        ensures
            r@.len() == self.blocks@.len(),
            forall|k: int|
                0 <= k < r@.len() ==> !reachable_within(
                    self.blocks@,
                    self.blocks@[k],
                    target,
                    #[trigger] r@[k] as nat,
                ),
    {
        let mut ruled_out: Vec<usize> = Vec::new();
        let mut k: usize = 0;
        while k < self.blocks.len()
            invariant
                0 <= k <= self.blocks@.len(),
                ruled_out@.len() == k,
                forall|i: int| 0 <= i < k ==> #[trigger] ruled_out@[i] == 0,
            decreases self.blocks@.len() - k,
        {
            ruled_out.push(0);
            k = k + 1;
        }
        proof {
            reveal(reachable_within);
            assert forall|i: int| 0 <= i < ruled_out@.len() implies !reachable_within(
                self.blocks@,
                self.blocks@[i],
                target,
                #[trigger] ruled_out@[i] as nat,
            ) by {
                assert(ruled_out@[i] == 0);
            }
        }
        ruled_out
    }

    /// A shortest chain of headers from `tb` to `xb`, the block at `target`,
    /// where one of at most `longest` headers is known to exist.
    fn shortest(&self, tb: LightBlock, xb: LightBlock, target: Height, longest: usize) -> (r: Vec<
        Header,
    >)
        requires
            self.wf(),
            reachable_within(self.blocks@, tb, target, longest as nat),
            has_block(self.blocks@, target),
            xb == block_at(self.blocks@, target),
            xb.height == target,
            tb.height.revision_number == target.revision_number,
            height_lt(tb.height, target),
        ensures
            chain_from(self.blocks@, tb, target, r@),
            forall|c: Seq<Header>| #[trigger]
                chain_from(self.blocks@, tb, target, c) ==> r@.len() <= c.len(),
            can_step(tb, xb) ==> r@ == seq![Header { block: xb, trusted_height: tb.height }],
            forall|c: Seq<Header>| #[trigger]
                chain_from(self.blocks@, tb, target, c) && c.len() == r@.len() ==> c == r@
                    || chain_below(c, r@),
    {
        let ghost s = self.blocks@;
        let mut ruled_out = self.nothing_ruled_out(target);
        proof {
            reveal(reachable_within);
        }
        let mut d: usize = 1;
        while d <= longest
            invariant
                1 <= d <= longest + 1,
                s == self.blocks@,
                self.wf(),
                reachable_within(s, tb, target, longest as nat),
                !reachable_within(s, tb, target, (d - 1) as nat),
                d > 1 ==> !can_step(tb, xb),
                ruled_out@.len() == s.len(),
                forall|i: int|
                    0 <= i < ruled_out@.len() ==> !reachable_within(
                        s,
                        s[i],
                        target,
                        #[trigger] ruled_out@[i] as nat,
                    ),
                has_block(s, target),
                xb == block_at(s, target),
                xb.height == target,
                tb.height.revision_number == target.revision_number,
                height_lt(tb.height, target),
            decreases longest + 1 - d,
        {
            match self.search_within(tb, xb, target, d, &mut ruled_out) {
                Some(chain) => {
                    proof {
                        reveal(reachable_within);
                        assert forall|c: Seq<Header>| #[trigger]
                            chain_from(s, tb, target, c) implies chain@.len() <= c.len() by {
                            if c.len() <= d - 1 {
                                assert(reachable_within(s, tb, target, (d - 1) as nat));
                            }
                        }
                    }
                    return chain;
                },
                None => {},
            }
            d = d + 1;
        }
        proof {
            assert(false);
        }
        Vec::new()
    }

    /// A shortest chain of headers that connects `trusted` to `target`, each
    /// header trusted from its predecessor; the last one is the target's.
    /// Among shortest chains it is the latest: at the first position where
    /// another differs, this one's block is higher. Fails
    /// with `HeightNotAvailable` where either block is not held,
    /// `ExpiredClient` where the trusted block is out of the trust period,
    /// and `InsufficientTrust` exactly where no such chain exists over the
    /// held blocks. Where the target can be trusted directly, no supporting
    /// header is needed.
    pub fn header_and_minimal_set(
        &self,
        trusted: Height,
        target: Height,
        client_state: &ClientState,
        now: u64,
    ) -> (r: Result<Verified, RelayError>)
        requires
            self.wf(),
        ensures
            ({
                let s = self.blocks@;
                let pre = header_precheck(s, trusted, target, client_state.trust_period, now);
                &&& pre is Some ==> r is Err && r->Err_0 == pre->Some_0
                &&& pre is None ==> (r is Ok == reachable(s, block_at(s, trusted), target))
                &&& pre is None && r is Err ==> r->Err_0 == RelayError::InsufficientTrust
                &&& pre is None && can_step(block_at(s, trusted), block_at(s, target)) ==> r is Ok
                    && r->Ok_0.supporting@.len() == 0 && r->Ok_0.target == (Header {
                    block: block_at(s, target),
                    trusted_height: trusted,
                })
            }),
            r is Ok ==> chain_from(
                self.blocks@,
                block_at(self.blocks@, trusted),
                target,
                full_chain(r->Ok_0.supporting@, r->Ok_0.target),
            ),
            r is Ok ==> forall|c: Seq<Header>| #[trigger]
                chain_from(self.blocks@, block_at(self.blocks@, trusted), target, c) ==> full_chain(
                    r->Ok_0.supporting@,
                    r->Ok_0.target,
                ).len() <= c.len(),
            r is Ok ==> forall|c: Seq<Header>| #[trigger]
                chain_from(self.blocks@, block_at(self.blocks@, trusted), target, c) && c.len()
                    == r->Ok_0.supporting@.len() + 1 ==> c == full_chain(
                    r->Ok_0.supporting@,
                    r->Ok_0.target,
                ) || chain_below(c, full_chain(r->Ok_0.supporting@, r->Ok_0.target)),
            r is Ok ==> full_chain(r->Ok_0.supporting@, r->Ok_0.target)[0].trusted_height == trusted,
            r is Ok ==> forall|i: int|
                0 <= i < r->Ok_0.supporting@.len() + 1 ==> (#[trigger] full_chain(
                    r->Ok_0.supporting@,
                    r->Ok_0.target,
                )[i]).block.height.revision_number == trusted.revision_number,
    {
        let tb = match self.fetch(trusted) {
            Ok(b) => b,
            Err(e) => return Err(e),
        };
        if is_expired(&tb, client_state.trust_period, now) {
            return Err(RelayError::ExpiredClient);
        }
        let xb = match self.fetch(target) {
            Ok(b) => b,
            Err(e) => return Err(e),
        };
        let ghost s = self.blocks@;
        if !(tb.height.same_revision(&xb.height) && tb.height.lt(&xb.height)) {
            proof {
                reveal(reachable);
                if reachable(s, tb, target) {
                    let c = choose|c: Seq<Header>| chain_from(s, tb, target, c);
                    lemma_chain_rises(c, tb, c.len() - 1);
                }
            }
            return Err(RelayError::InsufficientTrust);
        }
        let mut ruled_out = self.nothing_ruled_out(target);
        let n = self.blocks.len();
        proof {
            let i = choose|i: int| 0 <= i < s.len() && s[i].height == trusted;
            assert(n >= 1);
        }
        match self.search_within(tb, xb, target, n, &mut ruled_out) {
            None => {
                proof {
                    reveal(reachable);
                    reveal(reachable_within);
                    if reachable(s, tb, target) {
                        let c = choose|c: Seq<Header>| chain_from(s, tb, target, c);
                        lemma_chain_len_bound(s, tb, target, c);
                        assert(chain_from(s, tb, target, c) && c.len() <= n);
                    }
                }
                Err(RelayError::InsufficientTrust)
            },
            Some(found) => {
                proof {
                    reveal(reachable_within);
                    assert(chain_from(s, tb, target, found@) && found@.len() <= found.len());
                }
                let chain = self.shortest(tb, xb, target, found.len());
                let ghost c = chain@;
                let mut chain = chain;
                let last = chain.pop();
                match last {
                    Some(t) => {
                        proof {
                            reveal(reachable);
                            assert(full_chain(chain@, t) =~= c);
                            lemma_chain_within_revision(c, tb);
                            let _ = c[0];
                            if can_step(tb, xb) {
                                assert(chain@.len() == 0);
                            }
                        }
                        Ok(Verified { target: t, supporting: chain })
                    },
                    None => Err(RelayError::InsufficientTrust),
                }
            },
        }
    }

    /// Checks a received update against the block this client holds at the
    /// update's height: evidence comes back exactly when they conflict, name
    /// the same validator set, and the update is validly signed by it.
    /// Fails with `HeightNotAvailable` where no block is held there. The
    /// client state is part of the uniform interface and is not read.
    pub fn check_misbehaviour(&self, update: &SignedHeader, _client_state: &ClientState) -> (r:
        Result<Option<MisbehaviourEvidence>, RelayError>)
        requires
            self.wf(),
        ensures
            r is Err == !has_block(self.blocks@, update.header.block.height),
            r is Err ==> r->Err_0 == RelayError::HeightNotAvailable,
            r is Ok ==> ({
                let held = Header {
                    block: block_at(self.blocks@, update.header.block.height),
                    trusted_height: update.header.trusted_height,
                };
                &&& r->Ok_0 is Some == misbehaves(*update, held)
                &&& r->Ok_0 is Some ==> r->Ok_0->Some_0 == (MisbehaviourEvidence {
                    height: update.header.block.height,
                    header1: update.header,
                    header2: held,
                })
            }),
    {
        let b = match self.fetch(update.header.block.height) {
            Ok(b) => b,
            Err(e) => return Err(e),
        };
        Ok(evidence_against(update, Header { block: b, trusted_height: update.header.trusted_height }))
    }
}

/// The light client of a chain backend that mirrors its chain into an
/// auxiliary store. It forwards every call, unchanged, to the light client
/// it holds.
#[derive(Debug)]
pub struct PsqlLightClient(pub LightClient);

impl PsqlLightClient {
    pub open spec fn wf(&self) -> bool {
        self.0.wf()
    }

    /// Forwards to the held client's `header_and_minimal_set`.
    pub fn header_and_minimal_set(
        &self,
        trusted: Height,
        target: Height,
        client_state: &ClientState,
        now: u64,
    ) -> (r: Result<Verified, RelayError>)
        requires
            self.wf(),
        ensures
            ({
                let s = self.0.blocks@;
                let pre = header_precheck(s, trusted, target, client_state.trust_period, now);
                &&& pre is Some ==> r is Err && r->Err_0 == pre->Some_0
                &&& pre is None ==> (r is Ok == reachable(s, block_at(s, trusted), target))
                &&& pre is None && r is Err ==> r->Err_0 == RelayError::InsufficientTrust
                &&& pre is None && can_step(block_at(s, trusted), block_at(s, target)) ==> r is Ok
                    && r->Ok_0.supporting@.len() == 0 && r->Ok_0.target == (Header {
                    block: block_at(s, target),
                    trusted_height: trusted,
                })
            }),
            r is Ok ==> chain_from(
                self.0.blocks@,
                block_at(self.0.blocks@, trusted),
                target,
                full_chain(r->Ok_0.supporting@, r->Ok_0.target),
            ),
            r is Ok ==> forall|c: Seq<Header>| #[trigger]
                chain_from(self.0.blocks@, block_at(self.0.blocks@, trusted), target, c) ==> full_chain(
                    r->Ok_0.supporting@,
                    r->Ok_0.target,
                ).len() <= c.len(),
            r is Ok ==> forall|c: Seq<Header>| #[trigger]
                chain_from(self.0.blocks@, block_at(self.0.blocks@, trusted), target, c) && c.len()
                    == r->Ok_0.supporting@.len() + 1 ==> c == full_chain(
                    r->Ok_0.supporting@,
                    r->Ok_0.target,
                ) || chain_below(c, full_chain(r->Ok_0.supporting@, r->Ok_0.target)),
            r is Ok ==> full_chain(r->Ok_0.supporting@, r->Ok_0.target)[0].trusted_height == trusted,
            r is Ok ==> forall|i: int|
                0 <= i < r->Ok_0.supporting@.len() + 1 ==> (#[trigger] full_chain(
                    r->Ok_0.supporting@,
                    r->Ok_0.target,
                )[i]).block.height.revision_number == trusted.revision_number,
    {
        self.0.header_and_minimal_set(trusted, target, client_state, now)
    }

    /// Forwards to the held client's `verify`.
    pub fn verify(&self, trusted: Height, target: Height, client_state: &ClientState, now: u64) -> (r:
        Result<LightBlock, RelayError>)
        requires
            self.wf(),
        ensures
            r == verify_spec(self.0.blocks@, trusted, target, client_state.trust_period, now),
    {
        self.0.verify(trusted, target, client_state, now)
    }

    /// Forwards to the held client's `check_misbehaviour`.
    pub fn check_misbehaviour(&self, update: &SignedHeader, client_state: &ClientState) -> (r:
        Result<Option<MisbehaviourEvidence>, RelayError>)
        requires
            self.wf(),
        ensures
            r is Err == !has_block(self.0.blocks@, update.header.block.height),
            r is Err ==> r->Err_0 == RelayError::HeightNotAvailable,
            r is Ok ==> ({
                let held = Header {
                    block: block_at(self.0.blocks@, update.header.block.height),
                    trusted_height: update.header.trusted_height,
                };
                &&& r->Ok_0 is Some == misbehaves(*update, held)
                &&& r->Ok_0 is Some ==> r->Ok_0->Some_0 == (MisbehaviourEvidence {
                    height: update.header.block.height,
                    header1: update.header,
                    header2: held,
                })
            }),
    {
        self.0.check_misbehaviour(update, client_state)
    }

    /// Forwards to the held client's `fetch`.
    pub fn fetch(&self, h: Height) -> (r: Result<LightBlock, RelayError>)
        requires
            self.wf(),
        ensures
            r is Ok == has_block(self.0.blocks@, h),
            r is Ok ==> r->Ok_0 == block_at(self.0.blocks@, h) && r->Ok_0.height == h,
            r is Err ==> r->Err_0 == RelayError::HeightNotAvailable,
    {
        self.0.fetch(h)
    }
}

} // verus!
