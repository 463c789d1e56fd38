//! Fork choice over a DAG of blocks: vote tallies, head selection with a
//! proposer boost, ancestor and descendant queries, checkpoint advancement
//! and pruning below finalization.

use crate::assoc::{assoc_contains, assoc_find, assoc_unique};
use crate::types::block::{spec_block_hash, Block};
use crate::types::consensus::Checkpoint;
use crate::types::transaction::spec_sat_add;
use crate::types::{hash_eq, zero_hash, ConsensusError, Slot};
use vstd::prelude::*;

verus! {

/// The fork-choice state: the unpruned blocks keyed by their identity,
/// unit-vote tallies, each validator's latest vote, the two checkpoints,
/// and the boost for the most recently inserted block.
#[derive(Debug, Clone)]
pub struct ForkChoice {
    pub blocks: Vec<([u8; 32], Block)>,
    pub votes: Vec<([u8; 32], u64)>,
    pub latest_messages: Vec<(u64, [u8; 32])>,
    pub justified_checkpoint: Checkpoint,
    pub finalized_checkpoint: Checkpoint,
    pub proposer_boost_root: Option<[u8; 32]>,
}

/// Whether walking parents from `descendant` reaches `ancestor` within
/// `fuel` steps: true at once for the ancestor itself, false where the
/// chain leaves the store or ends at the all-zero genesis parent.
pub open spec fn spec_reaches(
    blocks: Seq<([u8; 32], Block)>,
    ancestor: [u8; 32],
    descendant: [u8; 32],
    fuel: nat,
) -> bool
    decreases fuel,
{
    if ancestor == descendant {
        true
    } else {
        match assoc_find(blocks, descendant) {
            None => false,
            Some(b) => {
                if b.header.previous_hash == ancestor {
                    true
                } else if b.header.previous_hash@ == crate::types::spec_zero_hash() {
                    false
                } else if fuel == 0 {
                    false
                } else {
                    spec_reaches(blocks, ancestor, b.header.previous_hash, (fuel - 1) as nat)
                }
            },
        }
    }
}

/// More fuel never turns a reachable ancestor unreachable.
pub proof fn lemma_reaches_fuel_monotone(
    blocks: Seq<([u8; 32], Block)>,
    ancestor: [u8; 32],
    descendant: [u8; 32],
    fuel1: nat,
    fuel2: nat,
)
    requires
        spec_reaches(blocks, ancestor, descendant, fuel1),
        fuel1 <= fuel2,
    ensures
        spec_reaches(blocks, ancestor, descendant, fuel2),
    decreases fuel1,
{
    if ancestor != descendant {
        let b = assoc_find(blocks, descendant)->0;
        if b.header.previous_hash != ancestor && b.header.previous_hash@
            != crate::types::spec_zero_hash() {
            lemma_reaches_fuel_monotone(
                blocks,
                ancestor,
                b.header.previous_hash,
                (fuel1 - 1) as nat,
                (fuel2 - 1) as nat,
            );
        }
    }
}

/// Every block reaches itself.
pub proof fn lemma_reaches_reflexive(
    blocks: Seq<([u8; 32], Block)>,
    root: [u8; 32],
    fuel: nat,
)
    ensures
        spec_reaches(blocks, root, root, fuel),
{
}

/// A stored block reaches whatever its parent reaches: a descendant of a
/// descendant is a descendant. The parent must not carry the all-zero
/// genesis sentinel, where the walk stops.
pub proof fn lemma_reaches_step(
    blocks: Seq<([u8; 32], Block)>,
    ancestor: [u8; 32],
    child: [u8; 32],
    fuel: nat,
)
    requires
        assoc_find(blocks, child) is Some,
        spec_reaches(blocks, ancestor, assoc_find(blocks, child)->0.header.previous_hash, fuel),
        assoc_find(blocks, child)->0.header.previous_hash == ancestor || assoc_find(
            blocks,
            child,
        )->0.header.previous_hash@ != crate::types::spec_zero_hash(),
    ensures
        spec_reaches(blocks, ancestor, child, fuel + 1),
{
    let b = assoc_find(blocks, child)->0;
    if ancestor == child {
    } else if b.header.previous_hash == ancestor {
    } else {
        assert(spec_reaches(blocks, ancestor, child, fuel + 1));
    }
}

/// The keys of the stored children of a block, in storage order.
pub open spec fn spec_children(blocks: Seq<([u8; 32], Block)>, parent: [u8; 32]) -> Seq<[u8; 32]>
    decreases blocks.len(),
{
    if blocks.len() == 0 {
        Seq::empty()
    } else {
        let rest = spec_children(blocks.drop_last(), parent);
        if blocks.last().1.header.previous_hash == parent {
            rest.push(blocks.last().0)
        } else {
            rest
        }
    }
}

/// The tally of a block: its unit votes, or zero where none are recorded.
pub open spec fn spec_vote_of(votes: Seq<([u8; 32], u64)>, root: [u8; 32]) -> u64 {
    match assoc_find(votes, root) {
        Some(w) => w,
        None => 0u64,
    }
}

/// The own weight of a block: its tally, plus the proposer boost when the
/// boost points at it.
pub open spec fn spec_base_weight(
    votes: Seq<([u8; 32], u64)>,
    boost: Option<[u8; 32]>,
    root: [u8; 32],
) -> u64 {
    if boost == Some(root) {
        spec_sat_add(spec_vote_of(votes, root), 100)
    } else {
        spec_vote_of(votes, root)
    }
}

/// The descendant-inclusive weight of a block: its own weight plus the
/// weights of its children, computed with bounded descent and saturating
/// sums.
pub open spec fn spec_weight(
    blocks: Seq<([u8; 32], Block)>,
    votes: Seq<([u8; 32], u64)>,
    boost: Option<[u8; 32]>,
    root: [u8; 32],
    fuel: nat,
) -> u64
    decreases fuel, 0int,
{
    let base = spec_base_weight(votes, boost, root);
    if fuel == 0 {
        base
    } else {
        spec_sat_add(
            base,
            spec_weight_list(blocks, votes, boost, spec_children(blocks, root), (fuel - 1) as nat),
        )
    }
}

/// The saturating sum of the weights of a list of blocks.
pub open spec fn spec_weight_list(
    blocks: Seq<([u8; 32], Block)>,
    votes: Seq<([u8; 32], u64)>,
    boost: Option<[u8; 32]>,
    list: Seq<[u8; 32]>,
    fuel: nat,
) -> u64
    decreases fuel, 1int, list.len(),
{
    if list.len() == 0 {
        0u64
    } else {
        spec_sat_add(
            spec_weight_list(blocks, votes, boost, list.drop_last(), fuel),
            spec_weight(blocks, votes, boost, list.last(), fuel),
        )
    }
}

/// Whether `a` is lexicographically greater than `b`, byte by byte.
pub open spec fn spec_lex_gt(a: Seq<u8>, b: Seq<u8>) -> bool
    decreases a.len(),
{
    if a.len() == 0 || b.len() == 0 {
        false
    } else if a.first() > b.first() {
        true
    } else if a.first() < b.first() {
        false
    } else {
        spec_lex_gt(a.drop_first(), b.drop_first())
    }
}

/// Whether the challenger displaces the best so far: strictly heavier, or
/// as heavy with the lexicographically greater hash.
pub open spec fn spec_displaces(
    blocks: Seq<([u8; 32], Block)>,
    votes: Seq<([u8; 32], u64)>,
    boost: Option<[u8; 32]>,
    challenger: [u8; 32],
    best: [u8; 32],
    fuel: nat,
) -> bool {
    let wc = spec_weight(blocks, votes, boost, challenger, fuel);
    let wb = spec_weight(blocks, votes, boost, best, fuel);
    wc > wb || (wc == wb && spec_lex_gt(challenger@, best@))
}

/// The best child among the rest of a list, starting from a champion: each
/// candidate in turn displaces the champion when it is heavier, or as heavy
/// with the lexicographically greater hash.
pub open spec fn spec_best_from(
    blocks: Seq<([u8; 32], Block)>,
    votes: Seq<([u8; 32], u64)>,
    boost: Option<[u8; 32]>,
    list: Seq<[u8; 32]>,
    best: [u8; 32],
    fuel: nat,
) -> [u8; 32]
    decreases list.len(),
{
    if list.len() == 0 {
        best
    } else {
        let next = if spec_displaces(blocks, votes, boost, list.first(), best, fuel) {
            list.first()
        } else {
            best
        };
        spec_best_from(blocks, votes, boost, list.drop_first(), next, fuel)
    }
}

/// Whether `a` is lexicographically greater than `b`.
pub fn lex_gt(a: &[u8; 32], b: &[u8; 32]) -> (r: bool)
    ensures
        r == spec_lex_gt(a@, b@),
{
    proof {
        assert(a@.skip(0) =~= a@);
        assert(b@.skip(0) =~= b@);
    }
    let mut i: usize = 0;
    while i < 32
        invariant
            i <= 32,
            spec_lex_gt(a@, b@) == spec_lex_gt(a@.skip(i as int), b@.skip(i as int)),
        decreases 32 - i,
    {
        proof {
            assert(a@.skip(i as int).first() == a@[i as int]);
            assert(b@.skip(i as int).first() == b@[i as int]);
            assert(a@.skip(i as int).drop_first() =~= a@.skip(i as int + 1));
            assert(b@.skip(i as int).drop_first() =~= b@.skip(i as int + 1));
        }
        if a[i] > b[i] {
            return true;
        }
        if a[i] < b[i] {
            return false;
        }
        i += 1;
    }
    proof {
        assert(a@.skip(32).len() == 0);
    }
    false
}

/// The first block at or below a slot on the parent chain from `root`.
pub open spec fn spec_ancestor_at(
    blocks: Seq<([u8; 32], Block)>,
    root: [u8; 32],
    slot: Slot,
    fuel: nat,
) -> Option<[u8; 32]>
    decreases fuel,
{
    match assoc_find(blocks, root) {
        None => None,
        Some(b) => {
            if b.header.slot <= slot {
                Some(root)
            } else if b.header.previous_hash@ == crate::types::spec_zero_hash() {
                None
            } else if fuel == 0 {
                None
            } else {
                spec_ancestor_at(blocks, b.header.previous_hash, slot, (fuel - 1) as nat)
            }
        },
    }
}

/// The number of stored blocks on the parent chain from `cur`, inclusive,
/// counted with a bounded walk and a saturating sum.
pub open spec fn spec_chain_length(
    blocks: Seq<([u8; 32], Block)>,
    cur: [u8; 32],
    fuel: nat,
) -> u64
    decreases fuel,
{
    match assoc_find(blocks, cur) {
        None => 0u64,
        Some(b) => {
            if b.header.previous_hash@ == crate::types::spec_zero_hash() {
                1u64
            } else if fuel == 0 {
                1u64
            } else {
                spec_sat_add(
                    1,
                    spec_chain_length(blocks, b.header.previous_hash, (fuel - 1) as nat),
                )
            }
        },
    }
}

/// Whether pruning below `root` keeps `k`: the root itself, or a stored
/// block that reaches the root by its parent chain.
pub open spec fn spec_retained(
    blocks: Seq<([u8; 32], Block)>,
    root: [u8; 32],
    k: [u8; 32],
) -> bool {
    k == root || (assoc_contains(blocks, k) && spec_reaches(blocks, root, k, blocks.len() as nat))
}

/// The shape of the gathered set while pruning: the root first, no
/// duplicates, and every later member a stored block whose parent stands
/// earlier in the set (and is the root or no genesis sentinel).
pub open spec fn spec_retained_inv(
    r: Seq<[u8; 32]>,
    blocks: Seq<([u8; 32], Block)>,
    root: [u8; 32],
) -> bool {
    &&& r.len() >= 1
    &&& r[0] == root
    &&& r.no_duplicates()
    &&& forall|m: int|
        1 <= m < r.len() ==> exists|j: int|
            0 <= j < m && (#[trigger] assoc_find(blocks, r[m])) is Some && assoc_find(
                blocks,
                r[m],
            )->0.header.previous_hash == r[j] && (r[j] == root || r[j]@
                != crate::types::spec_zero_hash())
}

/// Every gathered member reaches the root: walking the chain recorded by
/// the gathered set, with as much fuel as the member's position.
proof fn lemma_chain_reaches(
    blocks: Seq<([u8; 32], Block)>,
    root: [u8; 32],
    chain: Seq<[u8; 32]>,
    idx: int,
)
    requires
        chain.len() >= 1,
        chain[0] == root,
        0 <= idx < chain.len(),
        forall|m: int|
            1 <= m < chain.len() ==> exists|j: int|
                0 <= j < m && (#[trigger] assoc_find(blocks, chain[m])) is Some && assoc_find(
                    blocks,
                    chain[m],
                )->0.header.previous_hash == chain[j] && (chain[j] == root || chain[j]@
                    != crate::types::spec_zero_hash()),
    ensures
        spec_reaches(blocks, root, chain[idx], idx as nat),
    decreases idx,
{
    if idx == 0 {
    } else {
        let j = choose|j: int|
            0 <= j < idx && (#[trigger] assoc_find(blocks, chain[idx])) is Some && assoc_find(
                blocks,
                chain[idx],
            )->0.header.previous_hash == chain[j] && (chain[j] == root || chain[j]@
                != crate::types::spec_zero_hash());
        lemma_chain_reaches(blocks, root, chain, j);
        lemma_reaches_fuel_monotone(blocks, root, chain[j], j as nat, (idx - 1) as nat);
        lemma_reaches_step(blocks, root, chain[idx], (idx - 1) as nat);
    }
}

/// Distinct keys that are all bound in a store fit within it.
proof fn lemma_unique_keys_fit(blocks: Seq<([u8; 32], Block)>, keys: Seq<[u8; 32]>)
    requires
        keys.no_duplicates(),
        forall|i: int| 0 <= i < keys.len() ==> assoc_contains(blocks, #[trigger] keys[i]),
    ensures
        keys.len() <= blocks.len(),
{
    broadcast use vstd::seq_lib::seq_to_set_is_finite;

    let key_seq = blocks.map_values(|p: ([u8; 32], Block)| p.0);
    assert forall|x: [u8; 32]| keys.to_set().contains(x) implies key_seq.to_set().contains(x) by {
        assert(keys.contains(x));
        let i = choose|i: int| 0 <= i < keys.len() && keys[i] == x;
        crate::assoc::lemma_assoc_find_some_index(blocks, x);
        let j = choose|j: int|
            0 <= j < blocks.len() && (#[trigger] blocks[j]).0 == x && blocks[j].1 == assoc_find(
                blocks,
                x,
            )->0;
        assert(key_seq[j] == x);
        assert(key_seq.contains(x));
    }
    keys.unique_seq_to_set();
    key_seq.lemma_cardinality_of_set();
    vstd::set_lib::lemma_len_subset(keys.to_set(), key_seq.to_set());
}

/// One more gathering pass extends coverage by one step of fuel: whatever
/// reached the root within `pass` steps before is gathered after.
proof fn lemma_pass_extends_coverage(
    blocks: Seq<([u8; 32], Block)>,
    root: [u8; 32],
    before: Seq<[u8; 32]>,
    after: Seq<[u8; 32]>,
    pass: nat,
)
    requires
        assoc_unique(blocks),
        before.len() >= 1,
        before[0] == root,
        forall|x: [u8; 32]| before.contains(x) ==> #[trigger] after.contains(x),
        forall|m: int|
            0 <= m < blocks.len() && before.contains(
                #[trigger] blocks[m].1.header.previous_hash,
            ) && (blocks[m].1.header.previous_hash == root || blocks[m].1.header.previous_hash@
                != crate::types::spec_zero_hash()) ==> after.contains(blocks[m].0),
        pass >= 1 ==> forall|k: [u8; 32]|
            assoc_contains(blocks, k) && spec_reaches(blocks, root, k, (pass - 1) as nat)
                ==> #[trigger] before.contains(k),
    ensures
        forall|k: [u8; 32]|
            assoc_contains(blocks, k) && spec_reaches(blocks, root, k, pass) ==> #[trigger]
                after.contains(k),
{
    assert forall|k: [u8; 32]|
        assoc_contains(blocks, k) && spec_reaches(blocks, root, k, pass) implies #[trigger]
        after.contains(k) by {
        if k == root {
            assert(before.contains(root));
        } else {
            let b = assoc_find(blocks, k)->0;
            crate::assoc::lemma_assoc_find_some_index(blocks, k);
            let m = choose|m: int|
                0 <= m < blocks.len() && (#[trigger] blocks[m]).0 == k && blocks[m].1 == assoc_find(
                    blocks,
                    k,
                )->0;
            let parent = b.header.previous_hash;
            if parent == root {
                assert(before.contains(parent));
            } else {
                // the walk went on through the parent, so the parent is a
                // stored block that reached the root one step sooner
                assert(parent@ != crate::types::spec_zero_hash());
                assert(pass >= 1);
                assert(spec_reaches(blocks, root, parent, (pass - 1) as nat));
                if parent != root {
                    assert(assoc_find(blocks, parent) is Some);
                }
                assert(before.contains(parent));
            }
        }
    }
}

/// Whether a gathered set holds a hash.
fn contains_hash(v: &Vec<[u8; 32]>, x: &[u8; 32]) -> (r: bool)
    ensures
        r == v@.contains(*x),
{
    let mut i: usize = 0;
    while i < v.len()
        invariant
            i <= v@.len(),
            forall|j: int| 0 <= j < i ==> v@[j] != *x,
        decreases v@.len() - i,
    {
        if hash_eq(&v[i], x) {
            proof {
                assert(v@[i as int] =~= *x);
            }
            return true;
        }
        proof {
            if v@[i as int] == *x {
                assert(v@[i as int]@ == x@);
                assert(false);
            }
        }
        i += 1;
    }
    false
}

/// The head walk: from the current block, step to the best child until a
/// childless block is reached or the descent budget runs out.
pub open spec fn spec_head_from(
    blocks: Seq<([u8; 32], Block)>,
    votes: Seq<([u8; 32], u64)>,
    boost: Option<[u8; 32]>,
    current: [u8; 32],
    weight_fuel: nat,
    fuel: nat,
) -> [u8; 32]
    decreases fuel,
{
    let children = spec_children(blocks, current);
    if children.len() == 0 || fuel == 0 {
        current
    } else {
        let best = spec_best_from(
            blocks,
            votes,
            boost,
            children.drop_first(),
            children.first(),
            weight_fuel,
        );
        spec_head_from(blocks, votes, boost, best, weight_fuel, (fuel - 1) as nat)
    }
}

/// The head of the fork choice: the walk from the finalized root; no head
/// while no block is stored.
pub open spec fn spec_get_head(fc: ForkChoice) -> Option<[u8; 32]> {
    if fc.blocks@.len() == 0 {
        None
    } else {
        Some(
            spec_head_from(
                fc.blocks@,
                fc.votes@,
                fc.proposer_boost_root,
                fc.finalized_checkpoint.root,
                fc.blocks@.len() as nat,
                fc.blocks@.len() as nat,
            ),
        )
    }
}


/// What inserting a block leaves behind: the block stored under its
/// identity, the boost on it, and everything else untouched.
pub open spec fn spec_block_added(pre: ForkChoice, post: ForkChoice, block: Block) -> bool {
    &&& forall|k: [u8; 32]|
        k@ == spec_block_hash(block) ==> #[trigger] assoc_find(post.blocks@, k) == Some(block)
    &&& forall|k: [u8; 32]|
        k@ != spec_block_hash(block) ==> #[trigger] assoc_find(post.blocks@, k) == assoc_find(
            pre.blocks@,
            k,
        )
    &&& post.proposer_boost_root is Some && (post.proposer_boost_root->0)@ == spec_block_hash(
        block,
    )
    &&& post.votes == pre.votes
    &&& post.latest_messages == pre.latest_messages
    &&& post.justified_checkpoint == pre.justified_checkpoint
    &&& post.finalized_checkpoint == pre.finalized_checkpoint
    &&& post.blocks@.len() <= pre.blocks@.len() + 1
}

/// What recording a vote leaves behind: an unchanged vote is a no-op;
/// otherwise the old target's tally drops by one, the new target's rises by
/// one, and the validator's latest message moves.
pub open spec fn spec_attestation_applied(
    pre: ForkChoice,
    post: ForkChoice,
    attestation: crate::types::consensus::Attestation,
) -> bool {
    let i = attestation.validator_index;
    let t = attestation.target_root;
    let prev = assoc_find(pre.latest_messages@, i);
    &&& post.blocks == pre.blocks
    &&& post.justified_checkpoint == pre.justified_checkpoint
    &&& post.finalized_checkpoint == pre.finalized_checkpoint
    &&& post.proposer_boost_root == pre.proposer_boost_root
    &&& if prev == Some(t) {
        post == pre
    } else {
        &&& assoc_find(post.latest_messages@, i) == Some(t)
        &&& forall|i2: u64|
            i2 != i ==> #[trigger] assoc_find(post.latest_messages@, i2) == assoc_find(
                pre.latest_messages@,
                i2,
            )
        &&& spec_vote_of(post.votes@, t) == spec_sat_add(spec_vote_of(pre.votes@, t), 1)
        &&& (prev is Some ==> spec_vote_of(post.votes@, prev->0) == if spec_vote_of(
            pre.votes@,
            prev->0,
        ) > 0 {
            (spec_vote_of(pre.votes@, prev->0) - 1) as u64
        } else {
            0u64
        })
        &&& forall|k: [u8; 32]|
            k != t && (prev is Some ==> k != prev->0) ==> #[trigger] spec_vote_of(post.votes@, k)
                == spec_vote_of(pre.votes@, k)
    }
}

impl ForkChoice {
    /// Every store keys its entries uniquely.
    pub open spec fn wf(&self) -> bool {
        assoc_unique(self.blocks@) && assoc_unique(self.votes@) && assoc_unique(
            self.latest_messages@,
        )
    }

    /// The block stored under a hash.
    pub open spec fn spec_block(&self, hash: [u8; 32]) -> Option<Block> {
        assoc_find(self.blocks@, hash)
    }

    pub fn new() -> (r: Self)
        ensures
            r.wf(),
            r.blocks@.len() == 0,
            r.votes@.len() == 0,
            r.latest_messages@.len() == 0,
            r.justified_checkpoint.epoch == 0,
            r.justified_checkpoint.root@ == crate::types::spec_zero_hash(),
            r.finalized_checkpoint.epoch == 0,
            r.finalized_checkpoint.root@ == crate::types::spec_zero_hash(),
            r.proposer_boost_root is None,
    {
        ForkChoice {
            blocks: Vec::new(),
            votes: Vec::new(),
            latest_messages: Vec::new(),
            justified_checkpoint: Checkpoint { epoch: 0, root: zero_hash() },
            finalized_checkpoint: Checkpoint { epoch: 0, root: zero_hash() },
            proposer_boost_root: None,
        }
    }

    /// The position of a block's entry.
    fn find_block_index(&self, hash: &[u8; 32]) -> (r: Option<usize>)
        requires
            assoc_unique(self.blocks@),
        ensures
            match r {
                Some(i) => i < self.blocks@.len() && self.blocks@[i as int].0 == *hash
                    && assoc_find(self.blocks@, *hash) == Some(self.blocks@[i as int].1),
                None => assoc_find(self.blocks@, *hash) is None,
            },
    {
        let mut i: usize = 0;
        while i < self.blocks.len()
            invariant
                assoc_unique(self.blocks@),
                i <= self.blocks@.len(),
                forall|j: int| 0 <= j < i ==> (#[trigger] self.blocks@[j]).0 != *hash,
            decreases self.blocks@.len() - i,
        {
            if hash_eq(&self.blocks[i].0, hash) {
                proof {
                    assert(self.blocks@[i as int].0 =~= *hash);
                    crate::assoc::lemma_assoc_unique_at(self.blocks@, i as int);
                }
                return Some(i);
            }
            proof {
                if self.blocks@[i as int].0 == *hash {
                    assert(self.blocks@[i as int].0@ == hash@);
                    assert(false);
                }
            }
            i += 1;
        }
        proof {
            crate::assoc::lemma_assoc_find_none(self.blocks@, *hash);
        }
        None
    }

    /// The block stored under a hash, if any.
    pub fn get_block(&self, hash: &[u8; 32]) -> (r: Option<&Block>)
        requires
            self.wf(),
        ensures
            match r {
                Some(b) => self.spec_block(*hash) == Some(*b),
                None => self.spec_block(*hash) is None,
            },
    {
        match self.find_block_index(hash) {
            Some(i) => Some(&self.blocks[i].1),
            None => None,
        }
    }

    /// Whether a block is stored under a hash.
    pub fn has_block(&self, hash: &[u8; 32]) -> (r: bool)
        requires
            self.wf(),
        ensures
            r == (self.spec_block(*hash) is Some),
    {
        self.find_block_index(hash).is_some()
    }

    /// Inserts a block under its identity, replacing any previous entry,
    /// and hands the boost to it. Tallies, messages and checkpoints stay.
    pub fn add_block(&mut self, block: Block)
        requires
            old(self).wf(),
        ensures
            final(self).wf(),
            spec_block_added(*old(self), *final(self), block),
    {
        let block_hash = block.hash();
        match self.find_block_index(&block_hash) {
            Some(i) => {
                let ghost prev = self.blocks@;
                self.blocks.set(i, (block_hash, block));
                proof {
                    assert(prev[i as int].0 == block_hash);
                    assert(self.blocks@ == prev.update(i as int, (block_hash, self.blocks@[i as int].1)));
                    crate::assoc::lemma_assoc_find_update(
                        prev,
                        i as int,
                        self.blocks@[i as int].1,
                        block_hash,
                    );
                    assert forall|k: [u8; 32]| k != block_hash implies #[trigger] assoc_find(
                        self.blocks@,
                        k,
                    ) == assoc_find(prev, k) by {
                        crate::assoc::lemma_assoc_find_update(
                            prev,
                            i as int,
                            self.blocks@[i as int].1,
                            k,
                        );
                    }
                    assert(assoc_unique(self.blocks@));
                    assert forall|k: [u8; 32]| k@ == spec_block_hash(block) implies #[trigger]
                        assoc_find(self.blocks@, k) == Some(block) by {
                        assert(k =~= block_hash);
                    }
                    assert forall|k: [u8; 32]| k@ != spec_block_hash(block) implies #[trigger]
                        assoc_find(self.blocks@, k) == assoc_find(old(self).blocks@, k) by {
                        assert(k != block_hash);
                    }
                }
            },
            None => {
                let ghost prev = self.blocks@;
                self.blocks.push((block_hash, block));
                proof {
                    crate::assoc::lemma_assoc_find_push(prev, block_hash, block, block_hash);
                    crate::assoc::lemma_assoc_find_none(prev, block_hash);
                    assert forall|k: [u8; 32]| k != block_hash implies #[trigger] assoc_find(
                        self.blocks@,
                        k,
                    ) == assoc_find(prev, k) by {
                        crate::assoc::lemma_assoc_find_push(prev, block_hash, block, k);
                    }
                    assert forall|i2: int, j2: int|
                        0 <= i2 < j2 < self.blocks@.len() implies self.blocks@[i2].0
                        != self.blocks@[j2].0 by {
                        if j2 == self.blocks@.len() - 1 {
                            assert(self.blocks@[i2] == prev[i2]);
                        }
                    }
                    assert forall|k: [u8; 32]| k@ == spec_block_hash(block) implies #[trigger]
                        assoc_find(self.blocks@, k) == Some(block) by {
                        assert(k =~= block_hash);
                    }
                    assert forall|k: [u8; 32]| k@ != spec_block_hash(block) implies #[trigger]
                        assoc_find(self.blocks@, k) == assoc_find(old(self).blocks@, k) by {
                        assert(k != block_hash);
                    }
                }
            },
        }
        self.proposer_boost_root = Some(block_hash);
    }

    /// The position of a tally entry.
    fn find_vote_index(&self, root: &[u8; 32]) -> (r: Option<usize>)
        requires
            assoc_unique(self.votes@),
        ensures
            match r {
                Some(i) => i < self.votes@.len() && self.votes@[i as int].0 == *root && assoc_find(
                    self.votes@,
                    *root,
                ) == Some(self.votes@[i as int].1),
                None => assoc_find(self.votes@, *root) is None,
            },
    {
        let mut i: usize = 0;
        while i < self.votes.len()
            invariant
                assoc_unique(self.votes@),
                i <= self.votes@.len(),
                forall|j: int| 0 <= j < i ==> (#[trigger] self.votes@[j]).0 != *root,
            decreases self.votes@.len() - i,
        {
            if hash_eq(&self.votes[i].0, root) {
                proof {
                    assert(self.votes@[i as int].0 =~= *root);
                    crate::assoc::lemma_assoc_unique_at(self.votes@, i as int);
                }
                return Some(i);
            }
            proof {
                if self.votes@[i as int].0 == *root {
                    assert(self.votes@[i as int].0@ == root@);
                    assert(false);
                }
            }
            i += 1;
        }
        proof {
            crate::assoc::lemma_assoc_find_none(self.votes@, *root);
        }
        None
    }

    /// The position of a validator's latest message.
    fn find_message_index(&self, validator_index: u64) -> (r: Option<usize>)
        requires
            assoc_unique(self.latest_messages@),
        ensures
            match r {
                Some(i) => i < self.latest_messages@.len() && self.latest_messages@[i as int].0
                    == validator_index && assoc_find(self.latest_messages@, validator_index)
                    == Some(self.latest_messages@[i as int].1),
                None => assoc_find(self.latest_messages@, validator_index) is None,
            },
    {
        let mut i: usize = 0;
        while i < self.latest_messages.len()
            invariant
                assoc_unique(self.latest_messages@),
                i <= self.latest_messages@.len(),
                forall|j: int|
                    0 <= j < i ==> (#[trigger] self.latest_messages@[j]).0 != validator_index,
            decreases self.latest_messages@.len() - i,
        {
            if self.latest_messages[i].0 == validator_index {
                proof {
                    crate::assoc::lemma_assoc_unique_at(self.latest_messages@, i as int);
                }
                return Some(i);
            }
            i += 1;
        }
        proof {
            crate::assoc::lemma_assoc_find_none(self.latest_messages@, validator_index);
        }
        None
    }

    /// Records a validator's vote for a target: an unchanged vote is a
    /// no-op; otherwise the previous target's tally goes down by one, the
    /// new target's goes up by one, and the vote is remembered.
    #[verifier::rlimit(50)]
    pub fn add_attestation(&mut self, attestation: crate::types::consensus::Attestation)
        requires
            old(self).wf(),
        ensures
            final(self).wf(),
            spec_attestation_applied(*old(self), *final(self), attestation),
    {
        let validator_index = attestation.validator_index;
        let target_root = attestation.target_root;

        match self.find_message_index(validator_index) {
            Some(mi) => {
                let previous_vote = self.latest_messages[mi].1;
                if hash_eq(&previous_vote, &target_root) {
                    proof {
                        assert(previous_vote =~= target_root);
                    }
                    return ;
                }
                proof {
                    if previous_vote == target_root {
                        assert(previous_vote@ == target_root@);
                        assert(false);
                    }
                }
                // take the old vote's weight back
                match self.find_vote_index(&previous_vote) {
                    Some(vi) => {
                        let ghost prev_votes = self.votes@;
                        let w = self.votes[vi].1;
                        self.votes.set(vi, (previous_vote, w.saturating_sub(1)));
                        proof {
                            assert(prev_votes[vi as int].0 == previous_vote);
                            crate::assoc::lemma_assoc_find_update(
                                prev_votes,
                                vi as int,
                                w.saturating_sub(1),
                                previous_vote,
                            );
                            assert forall|k: [u8; 32]| k != previous_vote implies #[trigger]
                                assoc_find(self.votes@, k) == assoc_find(prev_votes, k) by {
                                crate::assoc::lemma_assoc_find_update(
                                    prev_votes,
                                    vi as int,
                                    w.saturating_sub(1),
                                    k,
                                );
                            }
                            assert(assoc_unique(self.votes@));
                        }
                    },
                    None => {
                    },
                }
                // record the new vote
                let ghost prev_lm = self.latest_messages@;
                self.latest_messages.set(mi, (validator_index, target_root));
                proof {
                    assert(prev_lm[mi as int].0 == validator_index);
                    crate::assoc::lemma_assoc_find_update(
                        prev_lm,
                        mi as int,
                        target_root,
                        validator_index,
                    );
                    assert forall|i2: u64| i2 != validator_index implies #[trigger] assoc_find(
                        self.latest_messages@,
                        i2,
                    ) == assoc_find(prev_lm, i2) by {
                        crate::assoc::lemma_assoc_find_update(prev_lm, mi as int, target_root, i2);
                    }
                    assert(assoc_unique(self.latest_messages@));
                }
                self.bump_vote(&target_root);
            },
            None => {
                let ghost prev_lm = self.latest_messages@;
                self.latest_messages.push((validator_index, target_root));
                proof {
                    crate::assoc::lemma_assoc_find_push(
                        prev_lm,
                        validator_index,
                        target_root,
                        validator_index,
                    );
                    crate::assoc::lemma_assoc_find_none(prev_lm, validator_index);
                    assert forall|i2: u64| i2 != validator_index implies #[trigger] assoc_find(
                        self.latest_messages@,
                        i2,
                    ) == assoc_find(prev_lm, i2) by {
                        crate::assoc::lemma_assoc_find_push(
                            prev_lm,
                            validator_index,
                            target_root,
                            i2,
                        );
                    }
                    assert forall|i2: int, j2: int|
                        0 <= i2 < j2 < self.latest_messages@.len() implies self.latest_messages@[
                        i2].0 != self.latest_messages@[j2].0 by {
                        if j2 == self.latest_messages@.len() - 1 {
                            assert(self.latest_messages@[i2] == prev_lm[i2]);
                        }
                    }
                }
                self.bump_vote(&target_root);
            },
        }
    }

    /// Raises a tally by one, creating the entry where none exists.
    fn bump_vote(&mut self, root: &[u8; 32])
        requires
            assoc_unique(old(self).votes@),
        ensures
            assoc_unique(final(self).votes@),
            spec_vote_of(final(self).votes@, *root) == spec_sat_add(
                spec_vote_of(old(self).votes@, *root),
                1,
            ),
            forall|k: [u8; 32]|
                k != *root ==> #[trigger] assoc_find(final(self).votes@, k) == assoc_find(
                    old(self).votes@,
                    k,
                ),
            final(self).blocks == old(self).blocks,
            final(self).latest_messages == old(self).latest_messages,
            final(self).justified_checkpoint == old(self).justified_checkpoint,
            final(self).finalized_checkpoint == old(self).finalized_checkpoint,
            final(self).proposer_boost_root == old(self).proposer_boost_root,
    {
        match self.find_vote_index(root) {
            Some(vi) => {
                let ghost prev_votes = self.votes@;
                let w = self.votes[vi].1;
                let root_key = self.votes[vi].0;
                self.votes.set(vi, (root_key, w.saturating_add(1)));
                proof {
                    assert(prev_votes[vi as int].0 == *root);
                    crate::assoc::lemma_assoc_find_update(
                        prev_votes,
                        vi as int,
                        w.saturating_add(1),
                        *root,
                    );
                    assert forall|k: [u8; 32]| k != *root implies #[trigger] assoc_find(
                        self.votes@,
                        k,
                    ) == assoc_find(prev_votes, k) by {
                        crate::assoc::lemma_assoc_find_update(
                            prev_votes,
                            vi as int,
                            w.saturating_add(1),
                            k,
                        );
                    }
                    assert(assoc_unique(self.votes@));
                }
            },
            None => {
                let ghost prev_votes = self.votes@;
                self.votes.push((*root, 1));
                proof {
                    crate::assoc::lemma_assoc_find_push(prev_votes, *root, 1u64, *root);
                    crate::assoc::lemma_assoc_find_none(prev_votes, *root);
                    assert forall|k: [u8; 32]| k != *root implies #[trigger] assoc_find(
                        self.votes@,
                        k,
                    ) == assoc_find(prev_votes, k) by {
                        crate::assoc::lemma_assoc_find_push(prev_votes, *root, 1u64, k);
                    }
                    assert forall|i2: int, j2: int|
                        0 <= i2 < j2 < self.votes@.len() implies self.votes@[i2].0
                        != self.votes@[j2].0 by {
                        if j2 == self.votes@.len() - 1 {
                            assert(self.votes@[i2] == prev_votes[i2]);
                        }
                    }
                }
            },
        }
    }

    /// The stored children of a block, in storage order.
    fn get_children(&self, parent_root: &[u8; 32]) -> (r: Vec<[u8; 32]>)
        ensures
            r@ == spec_children(self.blocks@, *parent_root),
    {
        let mut r: Vec<[u8; 32]> = Vec::new();
        let mut i: usize = 0;
        while i < self.blocks.len()
            invariant
                i <= self.blocks@.len(),
                r@ == spec_children(self.blocks@.take(i as int), *parent_root),
            decreases self.blocks@.len() - i,
        {
            proof {
                assert(self.blocks@.take(i as int + 1).drop_last() =~= self.blocks@.take(i as int));
                assert(self.blocks@.take(i as int + 1).last() == self.blocks@[i as int]);
            }
            let hit = hash_eq(&self.blocks[i].1.header.previous_hash, parent_root);
            proof {
                if self.blocks@[i as int].1.header.previous_hash@ == parent_root@ {
                    assert(self.blocks@[i as int].1.header.previous_hash =~= *parent_root);
                } else {
                    assert(self.blocks@[i as int].1.header.previous_hash != *parent_root);
                }
            }
            if hit {
                r.push(self.blocks[i].0);
            }
            i += 1;
        }
        proof {
            assert(self.blocks@.take(self.blocks@.len() as int) =~= self.blocks@);
        }
        r
    }

    /// The tally recorded for a block, zero where none is.
    fn vote_of(&self, root: &[u8; 32]) -> (r: u64)
        requires
            assoc_unique(self.votes@),
        ensures
            r == spec_vote_of(self.votes@, *root),
    {
        match self.find_vote_index(root) {
            Some(vi) => self.votes[vi].1,
            None => 0,
        }
    }

    /// The descendant-inclusive weight of a block, with a descent budget.
    fn weight_with_fuel(&self, root: [u8; 32], fuel: usize) -> (r: u64)
        requires
            self.wf(),
        ensures
            r == spec_weight(self.blocks@, self.votes@, self.proposer_boost_root, root, fuel as nat),
        decreases fuel,
    {
        let mut weight = self.vote_of(&root);
        // apply the proposer boost
        let boosted = match &self.proposer_boost_root {
            Some(b) => hash_eq(b, &root),
            None => false,
        };
        proof {
            match self.proposer_boost_root {
                Some(b) => {
                    if b@ == root@ {
                        assert(b =~= root);
                    } else {
                        assert(b != root);
                    }
                },
                None => {},
            }
        }
        if boosted {
            weight = weight.saturating_add(100);
        }
        if fuel == 0 {
            return weight;
        }

        let children = self.get_children(&root);
        let ghost child_fuel = (fuel - 1) as nat;
        let mut sum: u64 = 0;
        let mut i: usize = 0;
        while i < children.len()
            invariant
                self.wf(),
                i <= children@.len(),
                fuel >= 1,
                children@ == spec_children(self.blocks@, root),
                sum == spec_weight_list(
                    self.blocks@,
                    self.votes@,
                    self.proposer_boost_root,
                    children@.take(i as int),
                    child_fuel,
                ),
                child_fuel == (fuel - 1) as nat,
            decreases children@.len() - i,
        {
            proof {
                assert(children@.take(i as int + 1).drop_last() =~= children@.take(i as int));
                assert(children@.take(i as int + 1).last() == children@[i as int]);
            }
            let child_weight = self.weight_with_fuel(children[i], fuel - 1);
            sum = sum.saturating_add(child_weight);
            i += 1;
        }
        proof {
            assert(children@.take(children@.len() as int) =~= children@);
        }
        weight.saturating_add(sum)
    }

    /// The weight a head query sees for a block.
    pub fn get_weight(&self, block_root: [u8; 32]) -> (r: u64)
        requires
            self.wf(),
        ensures
            r == spec_weight(
                self.blocks@,
                self.votes@,
                self.proposer_boost_root,
                block_root,
                self.blocks@.len() as nat,
            ),
    {
        self.weight_with_fuel(block_root, self.blocks.len())
    }

    /// The head: from the finalized root, step to the heaviest child (ties
    /// to the lexicographically greater hash) until a childless block.
    pub fn get_head(&self) -> (r: Option<[u8; 32]>)
        requires
            self.wf(),
        ensures
            r == spec_get_head(*self),
    {
        if self.blocks.len() == 0 {
            return None;
        }
        let ghost m = self.blocks@;
        let ghost v = self.votes@;
        let ghost bst = self.proposer_boost_root;
        let ghost wfuel = self.blocks@.len() as nat;

        let mut current_root = self.finalized_checkpoint.root;
        let mut fuel = self.blocks.len();
        while fuel > 0
            invariant
                self.wf(),
                m == self.blocks@,
                v == self.votes@,
                bst == self.proposer_boost_root,
                wfuel == self.blocks@.len() as nat,
                self.blocks@.len() > 0,
                fuel <= self.blocks@.len(),
                spec_head_from(m, v, bst, self.finalized_checkpoint.root, wfuel, wfuel)
                    == spec_head_from(m, v, bst, current_root, wfuel, fuel as nat),
            decreases fuel,
        {
            let children = self.get_children(&current_root);
            if children.len() == 0 {
                return Some(current_root);
            }

            // pick the child of greatest weight, ties to the greater hash
            let mut best = children[0];
            let mut best_weight = self.get_weight(best);
            let mut ci: usize = 1;
            while ci < children.len()
                invariant
                    self.wf(),
                    m == self.blocks@,
                    v == self.votes@,
                    bst == self.proposer_boost_root,
                    wfuel == self.blocks@.len() as nat,
                    1 <= ci <= children@.len(),
                    best_weight == spec_weight(m, v, bst, best, wfuel),
                    spec_best_from(m, v, bst, children@.drop_first(), children@[0], wfuel)
                        == spec_best_from(m, v, bst, children@.skip(ci as int), best, wfuel),
                decreases children@.len() - ci,
            {
                proof {
                    assert(children@.skip(ci as int).first() == children@[ci as int]);
                    assert(children@.skip(ci as int).drop_first() =~= children@.skip(
                        ci as int + 1,
                    ));
                }
                let challenger = children[ci];
                let challenger_weight = self.get_weight(challenger);
                let displaces = challenger_weight > best_weight || (challenger_weight
                    == best_weight && lex_gt(&challenger, &best));
                if displaces {
                    best = challenger;
                    best_weight = challenger_weight;
                }
                ci += 1;
            }
            proof {
                assert(children@.skip(children@.len() as int) =~= Seq::<[u8; 32]>::empty());
                assert(children@.drop_first() =~= children@.skip(1));
            }
            current_root = best;
            fuel -= 1;
        }
        Some(current_root)
    }

    /// Whether walking parents from `descendant` reaches `ancestor`.
    pub fn is_descendant(&self, ancestor: [u8; 32], descendant: [u8; 32]) -> (r: bool)
        requires
            self.wf(),
        ensures
            r == spec_reaches(self.blocks@, ancestor, descendant, self.blocks@.len() as nat),
    {
        if hash_eq(&ancestor, &descendant) {
            proof {
                assert(ancestor =~= descendant);
            }
            return true;
        }
        proof {
            if ancestor == descendant {
                assert(ancestor@ == descendant@);
                assert(false);
            }
        }
        let mut current = descendant;
        let mut fuel = self.blocks.len();
        loop
            invariant
                self.wf(),
                ancestor != current,
                fuel <= self.blocks@.len(),
                spec_reaches(self.blocks@, ancestor, descendant, self.blocks@.len() as nat)
                    == spec_reaches(self.blocks@, ancestor, current, fuel as nat),
            decreases fuel,
        {
            let previous_hash = match self.get_block(&current) {
                Some(b) => b.header.previous_hash,
                None => {
                    return false;
                },
            };
            if hash_eq(&previous_hash, &ancestor) {
                proof {
                    assert(previous_hash =~= ancestor);
                }
                return true;
            }
            proof {
                if previous_hash == ancestor {
                    assert(previous_hash@ == ancestor@);
                    assert(false);
                }
            }
            let zero = zero_hash();
            if hash_eq(&previous_hash, &zero) {
                return false;
            }
            if fuel == 0 {
                return false;
            }
            current = previous_hash;
            fuel -= 1;
        }
    }

    /// The first block at or below a slot on the parent chain from `root`;
    /// None where the chain leaves the store or ends at genesis first.
    pub fn get_ancestor(&self, root: [u8; 32], slot: Slot) -> (r: Option<[u8; 32]>)
        requires
            self.wf(),
        ensures
            r == spec_ancestor_at(self.blocks@, root, slot, self.blocks@.len() as nat),
    {
        let mut current_root = root;
        let mut fuel = self.blocks.len();
        loop
            invariant
                self.wf(),
                fuel <= self.blocks@.len(),
                spec_ancestor_at(self.blocks@, root, slot, self.blocks@.len() as nat)
                    == spec_ancestor_at(self.blocks@, current_root, slot, fuel as nat),
            decreases fuel,
        {
            let block = match self.get_block(&current_root) {
                Some(b) => b,
                None => {
                    return None;
                },
            };
            if block.header.slot <= slot {
                return Some(current_root);
            }
            let previous_hash = block.header.previous_hash;
            let zero = zero_hash();
            if hash_eq(&previous_hash, &zero) {
                return None;
            }
            if fuel == 0 {
                return None;
            }
            current_root = previous_hash;
            fuel -= 1;
        }
    }

    /// The number of blocks on the parent chain from `head`, inclusive.
    pub fn get_chain_length(&self, head: [u8; 32]) -> (r: u64)
        requires
            self.wf(),
        ensures
            r == spec_chain_length(self.blocks@, head, self.blocks@.len() as nat),
    {
        let mut length: u64 = 0;
        let mut current = head;
        let mut fuel = self.blocks.len();
        loop
            invariant
                self.wf(),
                fuel <= self.blocks@.len(),
                spec_chain_length(self.blocks@, head, self.blocks@.len() as nat) == spec_sat_add(
                    length,
                    spec_chain_length(self.blocks@, current, fuel as nat),
                ),
            decreases fuel,
        {
            let block = match self.get_block(&current) {
                Some(b) => b,
                None => {
                    return length;
                },
            };
            let previous_hash = block.header.previous_hash;
            let zero = zero_hash();
            if hash_eq(&previous_hash, &zero) {
                return length.saturating_add(1);
            }
            if fuel == 0 {
                return length.saturating_add(1);
            }
            length = length.saturating_add(1);
            current = previous_hash;
            fuel -= 1;
        }
    }

    /// Advances the justified checkpoint; fails when the epoch does not
    /// strictly grow. The justified epoch never decreases.
    pub fn update_justified_checkpoint(&mut self, checkpoint: Checkpoint) -> (r: Result<
        (),
        ConsensusError,
    >)
        ensures
            r is Ok <==> checkpoint.epoch > old(self).justified_checkpoint.epoch,
            r is Ok ==> final(self).justified_checkpoint == checkpoint,
            r is Err ==> *final(self) == *old(self) && r->Err_0 == ConsensusError::NonMonotonic,
            final(self).justified_checkpoint.epoch >= old(self).justified_checkpoint.epoch,
            final(self).finalized_checkpoint == old(self).finalized_checkpoint,
            final(self).blocks == old(self).blocks,
            final(self).votes == old(self).votes,
            final(self).latest_messages == old(self).latest_messages,
            final(self).proposer_boost_root == old(self).proposer_boost_root,
    {
        if checkpoint.epoch <= self.justified_checkpoint.epoch {
            return Err(ConsensusError::NonMonotonic);
        }
        self.justified_checkpoint = checkpoint;
        Ok(())
    }

    /// Advances the finalized checkpoint and prunes everything that does not
    /// descend from its root; fails when the epoch does not strictly grow or
    /// overtakes the justified epoch. Neither checkpoint epoch ever
    /// decreases, and every retained block descends from the new root.
    pub fn update_finalized_checkpoint(&mut self, checkpoint: Checkpoint) -> (r: Result<
        (),
        ConsensusError,
    >)
        requires
            old(self).wf(),
        ensures
            final(self).wf(),
            r is Ok <==> (checkpoint.epoch > old(self).finalized_checkpoint.epoch
                && checkpoint.epoch <= old(self).justified_checkpoint.epoch),
            r is Err ==> *final(self) == *old(self) && r->Err_0 == ConsensusError::NonMonotonic,
            final(self).finalized_checkpoint.epoch >= old(self).finalized_checkpoint.epoch,
            final(self).justified_checkpoint == old(self).justified_checkpoint,
            r is Ok ==> {
                let root = checkpoint.root;
                let blocks0 = old(self).blocks@;
                &&& final(self).finalized_checkpoint == checkpoint
                &&& final(self).proposer_boost_root == old(self).proposer_boost_root
                &&& forall|k: [u8; 32]|
                    #[trigger] assoc_find(final(self).blocks@, k) == (
                    if spec_retained(blocks0, root, k) {
                        assoc_find(blocks0, k)
                    } else {
                        None
                    })
                &&& forall|k: [u8; 32]|
                    #[trigger] assoc_find(final(self).votes@, k) == (
                    if spec_retained(blocks0, root, k) {
                        assoc_find(old(self).votes@, k)
                    } else {
                        None
                    })
                &&& forall|i: u64|
                    #[trigger] assoc_find(final(self).latest_messages@, i) == (
                    if assoc_find(old(self).latest_messages@, i) is Some && spec_retained(
                        blocks0,
                        root,
                        assoc_find(old(self).latest_messages@, i)->0,
                    ) {
                        assoc_find(old(self).latest_messages@, i)
                    } else {
                        None
                    })
                &&& forall|k: [u8; 32]|
                    assoc_contains(final(self).blocks@, k) ==> k == root || #[trigger] spec_reaches(
                        final(self).blocks@,
                        root,
                        k,
                        final(self).blocks@.len() as nat,
                    )
            },
    {
        if checkpoint.epoch <= self.finalized_checkpoint.epoch {
            return Err(ConsensusError::NonMonotonic);
        }
        // a checkpoint can only be finalized once justified
        if checkpoint.epoch > self.justified_checkpoint.epoch {
            return Err(ConsensusError::NonMonotonic);
        }

        self.finalized_checkpoint = checkpoint;
        self.prune_finalized_blocks();
        Ok(())
    }

    /// Drops every block that does not descend from the finalized root, and
    /// every tally and latest message that points at a dropped block.
    #[verifier::rlimit(100)]
    fn prune_finalized_blocks(&mut self)
        requires
            old(self).wf(),
        ensures
            final(self).wf(),
            final(self).justified_checkpoint == old(self).justified_checkpoint,
            final(self).finalized_checkpoint == old(self).finalized_checkpoint,
            final(self).proposer_boost_root == old(self).proposer_boost_root,
            ({
                let root = old(self).finalized_checkpoint.root;
                let blocks0 = old(self).blocks@;
                &&& forall|k: [u8; 32]|
                    #[trigger] assoc_find(final(self).blocks@, k) == (
                    if spec_retained(blocks0, root, k) {
                        assoc_find(blocks0, k)
                    } else {
                        None
                    })
                &&& forall|k: [u8; 32]|
                    #[trigger] assoc_find(final(self).votes@, k) == (
                    if spec_retained(blocks0, root, k) {
                        assoc_find(old(self).votes@, k)
                    } else {
                        None
                    })
                &&& forall|i: u64|
                    #[trigger] assoc_find(final(self).latest_messages@, i) == (
                    if assoc_find(old(self).latest_messages@, i) is Some && spec_retained(
                        blocks0,
                        root,
                        assoc_find(old(self).latest_messages@, i)->0,
                    ) {
                        assoc_find(old(self).latest_messages@, i)
                    } else {
                        None
                    })
                &&& forall|k: [u8; 32]|
                    assoc_contains(final(self).blocks@, k) ==> k == root || #[trigger] spec_reaches(
                        final(self).blocks@,
                        root,
                        k,
                        final(self).blocks@.len() as nat,
                    )
            }),
    {
        let finalized_root = self.finalized_checkpoint.root;
        let ghost blocks0 = self.blocks@;
        let ghost root = finalized_root;

        // gather the finalized root and all its descendants
        let mut retained: Vec<[u8; 32]> = Vec::new();
        retained.push(finalized_root);
        proof {
            assert(spec_retained_inv(retained@, blocks0, root));
        }
        let mut pass: usize = 0;
        while pass < self.blocks.len()
            invariant
                *self == *old(self),
                blocks0 == self.blocks@,
                root == self.finalized_checkpoint.root,
                finalized_root == root,
                assoc_unique(blocks0),
                pass <= self.blocks@.len(),
                spec_retained_inv(retained@, blocks0, root),
                pass >= 1 ==> forall|k: [u8; 32]|
                    assoc_contains(blocks0, k) && spec_reaches(blocks0, root, k, (pass - 1) as nat)
                        ==> #[trigger] retained@.contains(k),
            decreases self.blocks@.len() - pass,
        {
            let ghost before = retained@;
            self.retain_pass(&finalized_root, &mut retained);
            proof {
                lemma_pass_extends_coverage(blocks0, root, before, retained@, pass as nat);
            }
            pass += 1;
        }
        let ghost before = retained@;
        self.retain_pass(&finalized_root, &mut retained);
        proof {
            if self.blocks@.len() > 0 {
                lemma_pass_extends_coverage(
                    blocks0,
                    root,
                    before,
                    retained@,
                    self.blocks@.len() as nat,
                );
            } else {
                assert forall|k: [u8; 32]|
                    assoc_contains(blocks0, k) && spec_reaches(
                        blocks0,
                        root,
                        k,
                        blocks0.len() as nat,
                    ) implies #[trigger] retained@.contains(k) by {
                    crate::assoc::lemma_assoc_find_some_index(blocks0, k);
                }
            }
            // everything gathered descends from the root
            assert forall|x: [u8; 32]| retained@.contains(x) implies spec_retained(
                blocks0,
                root,
                x,
            ) by {
                let idx = choose|idx: int| 0 <= idx < retained@.len() && retained@[idx] == x;
                if idx > 0 {
                    lemma_chain_reaches(blocks0, root, retained@, idx);
                    lemma_unique_keys_fit(blocks0, retained@.skip(1));
                    lemma_reaches_fuel_monotone(blocks0, root, x, idx as nat, blocks0.len() as nat);
                }
            }
        }

        // keep only the gathered blocks, tallies and messages
        let ghost votes0 = self.votes@;
        let ghost lm0 = self.latest_messages@;

        let mut source: Vec<([u8; 32], Block)> = Vec::new();
        core::mem::swap(&mut self.blocks, &mut source);
        let mut new_blocks: Vec<([u8; 32], Block)> = Vec::new();
        let mut i: usize = 0;
        while i < source.len()
            invariant
                source@.len() == blocks0.len(),
                forall|j: int| i <= j < blocks0.len() ==> source@[j] == blocks0[j],
                assoc_unique(blocks0),
                i <= blocks0.len(),
                assoc_unique(new_blocks@),
                forall|k: [u8; 32]|
                    !retained@.contains(k) ==> #[trigger] assoc_find(new_blocks@, k) is None,
                forall|k: [u8; 32]|
                    retained@.contains(k) ==> #[trigger] assoc_find(new_blocks@, k) == assoc_find(
                        blocks0.take(i as int),
                        k,
                    ),
            decreases blocks0.len() - i,
        {
            let key = source[i].0;
            proof {
                assert(source@[i as int] == blocks0[i as int]);
                assert(blocks0.take(i as int + 1) =~= blocks0.take(i as int).push(
                    blocks0[i as int],
                ));
            }
            if contains_hash(&retained, &key) {
                let ghost prev = new_blocks@;
                let mut entry: ([u8; 32], Block) = (zero_hash(), Block::default());
                source.set_and_swap(i, &mut entry);
                proof {
                    assert(entry == blocks0[i as int]);
                }
                new_blocks.push(entry);
                proof {
                    assert forall|j: int| 0 <= j < i implies blocks0[j].0 != key by {
                        assert(blocks0[j].0 != blocks0[i as int].0);
                    }
                    crate::assoc::lemma_assoc_find_none(blocks0.take(i as int), key);
                    assert(assoc_find(blocks0.take(i as int), key) is None);
                    assert(retained@.contains(key));
                    assert(assoc_find(prev, key) is None);
                    crate::assoc::lemma_assoc_find_none(prev, key);
                    assert forall|k: [u8; 32]| retained@.contains(k) implies #[trigger] assoc_find(
                        new_blocks@,
                        k,
                    ) == assoc_find(blocks0.take(i as int + 1), k) by {
                        crate::assoc::lemma_assoc_find_push(prev, key, blocks0[i as int].1, k);
                        crate::assoc::lemma_assoc_find_push(
                            blocks0.take(i as int),
                            blocks0[i as int].0,
                            blocks0[i as int].1,
                            k,
                        );
                        if k == key {
                            crate::assoc::lemma_assoc_find_none(blocks0.take(i as int), k);
                        }
                    }
                    assert forall|k: [u8; 32]| !retained@.contains(k) implies #[trigger] assoc_find(
                        new_blocks@,
                        k,
                    ) is None by {
                        crate::assoc::lemma_assoc_find_push(prev, key, blocks0[i as int].1, k);
                    }
                    assert forall|i2: int, j2: int|
                        0 <= i2 < j2 < new_blocks@.len() implies new_blocks@[i2].0
                        != new_blocks@[j2].0 by {
                        if j2 == new_blocks@.len() - 1 {
                            assert(new_blocks@[i2] == prev[i2]);
                            crate::assoc::lemma_assoc_find_none(prev, key);
                        }
                    }
                }
            } else {
                proof {
                    assert forall|k: [u8; 32]| retained@.contains(k) implies #[trigger] assoc_find(
                        new_blocks@,
                        k,
                    ) == assoc_find(blocks0.take(i as int + 1), k) by {
                        crate::assoc::lemma_assoc_find_push(
                            blocks0.take(i as int),
                            blocks0[i as int].0,
                            blocks0[i as int].1,
                            k,
                        );
                        assert(k != key);
                    }
                }
            }
            i += 1;
        }
        proof {
            assert(blocks0.take(blocks0.len() as int) =~= blocks0);
        }
        self.blocks = new_blocks;

        let mut new_votes: Vec<([u8; 32], u64)> = Vec::new();
        let mut vi: usize = 0;
        while vi < self.votes.len()
            invariant
                self.votes@ == votes0,
                assoc_unique(votes0),
                vi <= votes0.len(),
                assoc_unique(new_votes@),
                forall|k: [u8; 32]|
                    !retained@.contains(k) ==> #[trigger] assoc_find(new_votes@, k) is None,
                forall|k: [u8; 32]|
                    retained@.contains(k) ==> #[trigger] assoc_find(new_votes@, k) == assoc_find(
                        votes0.take(vi as int),
                        k,
                    ),
            decreases votes0.len() - vi,
        {
            let key = self.votes[vi].0;
            proof {
                assert(votes0.take(vi as int + 1) =~= votes0.take(vi as int).push(
                    votes0[vi as int],
                ));
            }
            if contains_hash(&retained, &key) {
                let ghost prev = new_votes@;
                let entry = (self.votes[vi].0, self.votes[vi].1);
                new_votes.push(entry);
                proof {
                    assert forall|j: int| 0 <= j < vi implies votes0[j].0 != key by {
                        assert(votes0[j].0 != votes0[vi as int].0);
                    }
                    crate::assoc::lemma_assoc_find_none(votes0.take(vi as int), key);
                    assert(assoc_find(votes0.take(vi as int), key) is None);
                    assert(retained@.contains(key));
                    assert(assoc_find(prev, key) is None);
                    crate::assoc::lemma_assoc_find_none(prev, key);
                    assert forall|k: [u8; 32]| retained@.contains(k) implies #[trigger] assoc_find(
                        new_votes@,
                        k,
                    ) == assoc_find(votes0.take(vi as int + 1), k) by {
                        crate::assoc::lemma_assoc_find_push(prev, key, entry.1, k);
                        crate::assoc::lemma_assoc_find_push(
                            votes0.take(vi as int),
                            votes0[vi as int].0,
                            votes0[vi as int].1,
                            k,
                        );
                        if k == key {
                            crate::assoc::lemma_assoc_find_none(votes0.take(vi as int), k);
                        }
                    }
                    assert forall|k: [u8; 32]| !retained@.contains(k) implies #[trigger] assoc_find(
                        new_votes@,
                        k,
                    ) is None by {
                        crate::assoc::lemma_assoc_find_push(prev, key, entry.1, k);
                    }
                    assert forall|i2: int, j2: int|
                        0 <= i2 < j2 < new_votes@.len() implies new_votes@[i2].0
                        != new_votes@[j2].0 by {
                        if j2 == new_votes@.len() - 1 {
                            assert(new_votes@[i2] == prev[i2]);
                            crate::assoc::lemma_assoc_find_none(prev, key);
                        }
                    }
                }
            } else {
                proof {
                    assert forall|k: [u8; 32]| retained@.contains(k) implies #[trigger] assoc_find(
                        new_votes@,
                        k,
                    ) == assoc_find(votes0.take(vi as int + 1), k) by {
                        crate::assoc::lemma_assoc_find_push(
                            votes0.take(vi as int),
                            votes0[vi as int].0,
                            votes0[vi as int].1,
                            k,
                        );
                        assert(k != key);
                    }
                }
            }
            vi += 1;
        }
        proof {
            assert(votes0.take(votes0.len() as int) =~= votes0);
        }
        self.votes = new_votes;

        let mut new_lm: Vec<(u64, [u8; 32])> = Vec::new();
        let mut li: usize = 0;
        while li < self.latest_messages.len()
            invariant
                self.latest_messages@ == lm0,
                assoc_unique(lm0),
                li <= lm0.len(),
                assoc_unique(new_lm@),
                forall|i2: u64|
                    #[trigger] assoc_find(new_lm@, i2) == (
                    if assoc_find(lm0.take(li as int), i2) is Some && retained@.contains(
                        assoc_find(lm0.take(li as int), i2)->0,
                    ) {
                        assoc_find(lm0.take(li as int), i2)
                    } else {
                        None
                    }),
            decreases lm0.len() - li,
        {
            let key = self.latest_messages[li].0;
            let target = self.latest_messages[li].1;
            proof {
                assert(lm0.take(li as int + 1) =~= lm0.take(li as int).push(lm0[li as int]));
                assert forall|j: int| 0 <= j < li implies lm0[j].0 != key by {
                    assert(lm0[j].0 != lm0[li as int].0);
                }
                crate::assoc::lemma_assoc_find_none(lm0.take(li as int), key);
            }
            if contains_hash(&retained, &target) {
                let ghost prev = new_lm@;
                new_lm.push((key, target));
                proof {
                    assert(assoc_find(lm0.take(li as int), key) is None);
                    assert(assoc_find(prev, key) is None);
                    crate::assoc::lemma_assoc_find_none(prev, key);
                    assert forall|i2: u64| true implies #[trigger] assoc_find(new_lm@, i2) == (
                    if assoc_find(lm0.take(li as int + 1), i2) is Some && retained@.contains(
                        assoc_find(lm0.take(li as int + 1), i2)->0,
                    ) {
                        assoc_find(lm0.take(li as int + 1), i2)
                    } else {
                        None
                    }) by {
                        crate::assoc::lemma_assoc_find_push(prev, key, target, i2);
                        crate::assoc::lemma_assoc_find_push(
                            lm0.take(li as int),
                            lm0[li as int].0,
                            lm0[li as int].1,
                            i2,
                        );
                    }
                    assert forall|i2: int, j2: int|
                        0 <= i2 < j2 < new_lm@.len() implies new_lm@[i2].0 != new_lm@[j2].0 by {
                        if j2 == new_lm@.len() - 1 {
                            assert(new_lm@[i2] == prev[i2]);
                            crate::assoc::lemma_assoc_find_none(prev, key);
                        }
                    }
                }
            } else {
                proof {
                    assert forall|i2: u64| true implies #[trigger] assoc_find(new_lm@, i2) == (
                    if assoc_find(lm0.take(li as int + 1), i2) is Some && retained@.contains(
                        assoc_find(lm0.take(li as int + 1), i2)->0,
                    ) {
                        assoc_find(lm0.take(li as int + 1), i2)
                    } else {
                        None
                    }) by {
                        crate::assoc::lemma_assoc_find_push(
                            lm0.take(li as int),
                            lm0[li as int].0,
                            lm0[li as int].1,
                            i2,
                        );
                    }
                }
            }
            li += 1;
        }
        proof {
            assert(lm0.take(lm0.len() as int) =~= lm0);
        }
        self.latest_messages = new_lm;

        proof {
            // the gathered set is exactly what pruning keeps
            assert forall|k: [u8; 32]| true implies (retained@.contains(k) <==> spec_retained(
                blocks0,
                root,
                k,
            )) by {
                if k == root {
                    assert(retained@[0] == root);
                    assert(retained@.contains(root));
                }
            }
            assert forall|k: [u8; 32]| true implies #[trigger] assoc_find(self.blocks@, k) == (
            if spec_retained(blocks0, root, k) {
                assoc_find(blocks0, k)
            } else {
                None
            }) by {
                if spec_retained(blocks0, root, k) {
                    assert(retained@.contains(k));
                } else {
                    assert(!retained@.contains(k));
                }
            }
            assert forall|k: [u8; 32]| true implies #[trigger] assoc_find(self.votes@, k) == (
            if spec_retained(blocks0, root, k) {
                assoc_find(votes0, k)
            } else {
                None
            }) by {
                if spec_retained(blocks0, root, k) {
                    assert(retained@.contains(k));
                } else {
                    assert(!retained@.contains(k));
                }
            }
            assert forall|i2: u64| true implies #[trigger] assoc_find(self.latest_messages@, i2)
                == (
            if assoc_find(lm0, i2) is Some && spec_retained(blocks0, root, assoc_find(lm0, i2)->0) {
                assoc_find(lm0, i2)
            } else {
                None
            }) by {
                if assoc_find(lm0, i2) is Some {
                    let t = assoc_find(lm0, i2)->0;
                    assert(retained@.contains(t) <==> spec_retained(blocks0, root, t));
                }
            }
            // every retained block still reaches the root among what is kept
            assert forall|k: [u8; 32]| assoc_contains(self.blocks@, k) implies k == root
                || #[trigger] spec_reaches(
                self.blocks@,
                root,
                k,
                self.blocks@.len() as nat,
            ) by {
                if k != root {
                    assert(retained@.contains(k));
                    let idx = choose|idx: int| 0 <= idx < retained@.len() && retained@[idx] == k;
                    assert(idx > 0);
                    assert forall|m: int|
                        1 <= m < retained@.len() implies exists|j: int|
                        0 <= j < m && (#[trigger] assoc_find(self.blocks@, retained@[m])) is Some
                            && assoc_find(self.blocks@, retained@[m])->0.header.previous_hash
                            == retained@[j] && (retained@[j] == root || retained@[j]@
                            != crate::types::spec_zero_hash()) by {
                        let j = choose|j: int|
                            0 <= j < m && (#[trigger] assoc_find(blocks0, retained@[m])) is Some
                                && assoc_find(blocks0, retained@[m])->0.header.previous_hash
                                == retained@[j] && (retained@[j] == root || retained@[j]@
                                != crate::types::spec_zero_hash());
                        assert(retained@.contains(retained@[m]));
                        assert(spec_retained(blocks0, root, retained@[m]));
                        assert(assoc_find(self.blocks@, retained@[m]) == assoc_find(
                            blocks0,
                            retained@[m],
                        ));
                    }
                    assert forall|i3: int|
                        0 <= i3 < retained@.skip(1).len() implies assoc_contains(
                        self.blocks@,
                        #[trigger] retained@.skip(1)[i3],
                    ) by {
                        assert(retained@.skip(1)[i3] == retained@[i3 + 1]);
                        assert(retained@.contains(retained@[i3 + 1]));
                        assert(spec_retained(blocks0, root, retained@[i3 + 1]));
                        assert(assoc_find(blocks0, retained@[i3 + 1]) is Some);
                    }
                    assert(retained@.skip(1).no_duplicates()) by {
                        assert forall|a: int, b: int|
                            0 <= a < b < retained@.skip(1).len() implies retained@.skip(1)[a]
                            != retained@.skip(1)[b] by {
                            assert(retained@.skip(1)[a] == retained@[a + 1]);
                            assert(retained@.skip(1)[b] == retained@[b + 1]);
                        }
                    }
                    lemma_chain_reaches(self.blocks@, root, retained@, idx);
                    lemma_unique_keys_fit(self.blocks@, retained@.skip(1));
                    lemma_reaches_fuel_monotone(
                        self.blocks@,
                        root,
                        k,
                        idx as nat,
                        self.blocks@.len() as nat,
                    );
                }
            }
        }
    }

    /// One gathering pass: every block whose parent is already gathered (and
    /// is the root or no genesis sentinel) joins the gathered set.
    fn retain_pass(&self, root: &[u8; 32], retained: &mut Vec<[u8; 32]>)
        requires
            assoc_unique(self.blocks@),
            spec_retained_inv(old(retained)@, self.blocks@, *root),
        ensures
            spec_retained_inv(final(retained)@, self.blocks@, *root),
            forall|x: [u8; 32]|
                old(retained)@.contains(x) ==> #[trigger] final(retained)@.contains(x),
            forall|m: int|
                0 <= m < self.blocks@.len() && old(retained)@.contains(
                    #[trigger] self.blocks@[m].1.header.previous_hash,
                ) && (self.blocks@[m].1.header.previous_hash == *root
                    || self.blocks@[m].1.header.previous_hash@
                    != crate::types::spec_zero_hash()) ==> final(retained)@.contains(
                    self.blocks@[m].0,
                ),
    {
        let zero = zero_hash();
        let mut m: usize = 0;
        while m < self.blocks.len()
            invariant
                zero@ == crate::types::spec_zero_hash(),
                assoc_unique(self.blocks@),
                m <= self.blocks@.len(),
                spec_retained_inv(retained@, self.blocks@, *root),
                forall|x: [u8; 32]| old(retained)@.contains(x) ==> #[trigger] retained@.contains(x),
                forall|m2: int|
                    0 <= m2 < m && old(retained)@.contains(
                        #[trigger] self.blocks@[m2].1.header.previous_hash,
                    ) && (self.blocks@[m2].1.header.previous_hash == *root
                        || self.blocks@[m2].1.header.previous_hash@
                        != crate::types::spec_zero_hash()) ==> retained@.contains(
                        self.blocks@[m2].0,
                    ),
            decreases self.blocks@.len() - m,
        {
            let parent = self.blocks[m].1.header.previous_hash;
            let key = self.blocks[m].0;
            let parent_is_root = hash_eq(&parent, root);
            let parent_is_zero = hash_eq(&parent, &zero);
            proof {
                if parent@ == root@ {
                    assert(parent =~= *root);
                } else {
                    assert(parent != *root);
                }
            }
            if contains_hash(retained, &parent) && (parent_is_root || !parent_is_zero) {
                if !contains_hash(retained, &key) {
                    let ghost prev = retained@;
                    let ghost parent_idx = choose|j: int|
                        0 <= j < prev.len() && prev[j] == parent;
                    retained.push(key);
                    proof {
                        assert(retained@.len() == prev.len() + 1);
                        assert(forall|j: int| 0 <= j < prev.len() ==> retained@[j] == prev[j]);
                        assert(retained@[prev.len() as int] == key);
                        assert forall|x: [u8; 32]| prev.contains(x) implies retained@.contains(
                            x,
                        ) by {
                            let j = choose|j: int| 0 <= j < prev.len() && prev[j] == x;
                            assert(retained@[j] == x);
                        }
                        crate::assoc::lemma_assoc_unique_at(self.blocks@, m as int);
                        assert(assoc_find(self.blocks@, key) == Some(self.blocks@[m as int].1));
                        assert forall|m3: int|
                            1 <= m3 < retained@.len() implies exists|j: int|
                            0 <= j < m3 && (#[trigger] assoc_find(self.blocks@, retained@[m3]))
                                is Some && assoc_find(
                                self.blocks@,
                                retained@[m3],
                            )->0.header.previous_hash == retained@[j] && (retained@[j] == *root
                                || retained@[j]@ != crate::types::spec_zero_hash()) by {
                            if m3 == retained@.len() - 1 {
                                assert(retained@[m3] == key);
                                assert(0 <= parent_idx < m3);
                                assert(retained@[parent_idx] == parent);
                                assert(assoc_find(self.blocks@, retained@[m3]) is Some);
                                assert(assoc_find(
                                    self.blocks@,
                                    retained@[m3],
                                )->0.header.previous_hash == retained@[parent_idx]);
                                assert(retained@[parent_idx] == *root || retained@[parent_idx]@
                                    != crate::types::spec_zero_hash());
                            } else {
                                assert(1 <= m3 < prev.len());
                                assert(retained@[m3] == prev[m3]);
                                let j = choose|j: int|
                                    0 <= j < m3 && (#[trigger] assoc_find(self.blocks@, prev[m3]))
                                        is Some && assoc_find(
                                        self.blocks@,
                                        prev[m3],
                                    )->0.header.previous_hash == prev[j] && (prev[j] == *root
                                        || prev[j]@ != crate::types::spec_zero_hash());
                                assert(retained@[j] == prev[j]);
                            }
                        }
                        assert(retained@.no_duplicates()) by {
                            assert forall|i2: int, j2: int|
                                0 <= i2 < j2 < retained@.len() implies retained@[i2]
                                != retained@[j2] by {
                                if j2 == retained@.len() - 1 {
                                    assert(retained@[i2] == prev[i2]);
                                    assert(!prev.contains(key));
                                    if retained@[i2] == key {
                                        assert(prev.contains(key));
                                    }
                                }
                            }
                        }
                        assert forall|x: [u8; 32]| old(retained)@.contains(x) implies retained@
                            .contains(x) by {
                            assert(prev.contains(x));
                            let j = choose|j: int| 0 <= j < prev.len() && prev[j] == x;
                            assert(retained@[j] == x);
                        }
                        assert(retained@.contains(key)) by {
                            assert(retained@[prev.len() as int] == key);
                        }
                        assert forall|m2: int|
                            0 <= m2 < m + 1 && old(retained)@.contains(
                                #[trigger] self.blocks@[m2].1.header.previous_hash,
                            ) && (self.blocks@[m2].1.header.previous_hash == *root
                                || self.blocks@[m2].1.header.previous_hash@
                                != crate::types::spec_zero_hash()) implies retained@.contains(
                            self.blocks@[m2].0,
                        ) by {
                            if m2 < m {
                                assert(prev.contains(self.blocks@[m2].0));
                                let j = choose|j: int|
                                    0 <= j < prev.len() && prev[j] == self.blocks@[m2].0;
                                assert(retained@[j] == self.blocks@[m2].0);
                            }
                        }
                    }
                } else {
                    proof {
                        assert(retained@.contains(key));
                    }
                }
            } else {
                proof {
                    // a block whose parent was gathered before this pass would
                    // have been gathered here
                    if old(retained)@.contains(self.blocks@[m as int].1.header.previous_hash) && (
                    self.blocks@[m as int].1.header.previous_hash == *root
                        || self.blocks@[m as int].1.header.previous_hash@
                        != crate::types::spec_zero_hash()) {
                        assert(retained@.contains(parent));
                        assert(parent == *root || parent@ != crate::types::spec_zero_hash());
                        assert(parent_is_root || !parent_is_zero);
                        assert(false);
                    }
                }
            }
            m += 1;
        }
    }

    /// Forgets the proposer boost.
    pub fn clear_proposer_boost(&mut self)
        ensures
            final(self).proposer_boost_root is None,
            final(self).blocks == old(self).blocks,
            final(self).votes == old(self).votes,
            final(self).latest_messages == old(self).latest_messages,
            final(self).justified_checkpoint == old(self).justified_checkpoint,
            final(self).finalized_checkpoint == old(self).finalized_checkpoint,
    {
        self.proposer_boost_root = None;
    }
}

impl Default for ForkChoice {
    fn default() -> (r: Self)
        ensures
            r.wf(),
            r.blocks@.len() == 0,
            r.votes@.len() == 0,
            r.latest_messages@.len() == 0,
    {
        Self::new()
    }
}

} // verus!
