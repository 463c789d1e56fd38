//! Merkle trees over 32-byte leaves: the full tree with per-index proofs,
//! and a sparse tree of fixed depth with lazy default hashes.

use crate::assoc::assoc_find;
use crate::crypto::hash::{sha256_of, spec_hash_two, Hasher};
use crate::types::{hash_eq, spec_zero_hash, zero_hash, ConsensusError};
use vstd::prelude::*;

verus! {

/// The byte sequences behind a sequence of hashes.
pub open spec fn view_hashes(s: Seq<[u8; 32]>) -> Seq<Seq<u8>> {
    s.map_values(|h: [u8; 32]| h@)
}

/// One level up: adjacent nodes hashed pairwise, an odd node paired with
/// itself.
pub open spec fn spec_next_level(level: Seq<Seq<u8>>) -> Seq<Seq<u8>> {
    Seq::new(
        ((level.len() + 1) / 2) as nat,
        |i: int|
            if 2 * i + 1 < level.len() {
                spec_hash_two(level[2 * i], level[2 * i + 1])
            } else {
                spec_hash_two(level[2 * i], level[2 * i])
            },
    )
}

/// All levels of the tree over a non-empty bottom level, bottom first.
pub open spec fn spec_levels_from(level: Seq<Seq<u8>>) -> Seq<Seq<Seq<u8>>>
    decreases level.len(),
{
    if level.len() <= 1 {
        seq![level]
    } else {
        seq![level] + spec_levels_from(spec_next_level(level))
    }
}

/// The Merkle root of a leaf sequence; the all-zero hash for no leaves.
pub open spec fn spec_merkle_root(leaves: Seq<Seq<u8>>) -> Seq<u8> {
    if leaves.len() == 0 {
        spec_zero_hash()
    } else {
        spec_levels_from(leaves).last()[0]
    }
}

/// The shape of the level stack: the bottom level is the input, each level
/// is the pairwise hash of the one below, and the top holds the root alone.
pub proof fn lemma_levels_facts(level: Seq<Seq<u8>>)
    requires
        level.len() >= 1,
    ensures
        spec_levels_from(level).len() >= 1,
        spec_levels_from(level)[0] == level,
        spec_levels_from(level).last().len() == 1,
        forall|k: int|
            0 <= k < spec_levels_from(level).len() ==> 1 <= #[trigger] spec_levels_from(
                level,
            )[k].len(),
        forall|k: int|
            0 <= k < spec_levels_from(level).len() - 1 ==> #[trigger] spec_levels_from(
                level,
            )[k].len() >= 2,
        forall|k: int|
            1 <= k < spec_levels_from(level).len() ==> #[trigger] spec_levels_from(level)[k]
                == spec_next_level(spec_levels_from(level)[k - 1]),
    decreases level.len(),
{
    let ls = spec_levels_from(level);
    if level.len() == 1 {
        assert(ls == seq![level]);
    } else {
        let next = spec_next_level(level);
        assert(next.len() == (level.len() + 1) / 2);
        lemma_levels_facts(next);
        let tail = spec_levels_from(next);
        assert(ls == seq![level] + tail);
        assert(forall|k: int| 0 <= k < tail.len() ==> #[trigger] ls[k + 1] == tail[k]);
        assert(ls.last() == tail.last());
        assert forall|k: int| 1 <= k < ls.len() implies #[trigger] ls[k] == spec_next_level(
            ls[k - 1],
        ) by {
            if k == 1 {
                assert(ls[1] == tail[0]);
                assert(tail[0] == next);
            } else {
                assert(ls[k] == tail[k - 1]);
                assert(ls[k - 1] == tail[k - 2]);
                assert(tail[k - 1] == spec_next_level(tail[k - 2]));
            }
        }
    }
}

/// Mapping to byte sequences distributes over appending a hash.
pub proof fn lemma_view_hashes_push(s: Seq<[u8; 32]>, h: [u8; 32])
    ensures
        view_hashes(s.push(h)) == view_hashes(s).push(h@),
{
    assert(view_hashes(s.push(h)) =~= view_hashes(s).push(h@));
}

/// A Merkle tree: the leaves, every internal level, and the root.
#[derive(Debug, Clone, PartialEq, Eq)]
pub struct MerkleTree {
    pub root: [u8; 32],
    pub leaves: Vec<[u8; 32]>,
    pub levels: Vec<Vec<[u8; 32]>>,
}

/// The byte sequences behind a stack of levels.
pub open spec fn view_levels(s: Seq<Vec<[u8; 32]>>) -> Seq<Seq<Seq<u8>>> {
    s.map_values(|v: Vec<[u8; 32]>| view_hashes(v@))
}

/// Copies a vector of hashes.
fn clone_hashes(v: &Vec<[u8; 32]>) -> (r: Vec<[u8; 32]>)
    ensures
        r@ == v@,
{
    let mut r: Vec<[u8; 32]> = Vec::new();
    let mut i: usize = 0;
    while i < v.len()
        invariant
            i <= v@.len(),
            r@ == v@.take(i as int),
        decreases v@.len() - i,
    {
        r.push(v[i]);
        proof {
            assert(v@.take(i as int).push(v@[i as int]) =~= v@.take(i as int + 1));
        }
        i += 1;
    }
    proof {
        assert(v@.take(v@.len() as int) =~= v@);
    }
    r
}

impl MerkleTree {
    /// The tree is built from its leaves: every level is recorded and the
    /// root is the single node of the top level.
    pub open spec fn wf(&self) -> bool {
        if self.leaves@.len() == 0 {
            self.levels@.len() == 0 && self.root@ == spec_zero_hash()
        } else {
            view_levels(self.levels@) == spec_levels_from(view_hashes(self.leaves@))
                && self.root@ == spec_merkle_root(view_hashes(self.leaves@))
        }
    }

    #[verifier::rlimit(50)]
    pub fn new(leaves: Vec<[u8; 32]>) -> (r: Self)
        ensures
            r.wf(),
            r.leaves@ == leaves@,
            r.root@ == spec_merkle_root(view_hashes(leaves@)),
    {
        if leaves.len() == 0 {
            return MerkleTree { root: zero_hash(), leaves: Vec::new(), levels: Vec::new() };
        }
        let ghost full = spec_levels_from(view_hashes(leaves@));
        proof {
            lemma_levels_facts(view_hashes(leaves@));
        }

        let mut levels: Vec<Vec<[u8; 32]>> = Vec::new();
        let mut current_level: Vec<[u8; 32]> = clone_hashes(&leaves);
        levels.push(clone_hashes(&current_level));
        proof {
            assert(view_levels(levels@) =~= full.take(1));
        }

        while current_level.len() > 1
            invariant
                full.len() >= 1,
                full[0] == view_hashes(leaves@),
                full.last().len() == 1,
                forall|k: int| 0 <= k < full.len() ==> 1 <= #[trigger] full[k].len(),
                forall|k: int| 0 <= k < full.len() - 1 ==> #[trigger] full[k].len() >= 2,
                forall|k: int|
                    1 <= k < full.len() ==> #[trigger] full[k] == spec_next_level(full[k - 1]),
                1 <= levels@.len() <= full.len(),
                view_levels(levels@) == full.take(levels@.len() as int),
                view_hashes(current_level@) == full[levels@.len() - 1],
                current_level@.len() >= 1,
                current_level@.len() == 1 ==> levels@.len() == full.len(),
            decreases current_level@.len(),
        {
            proof {
                // the current level has at least two nodes, so it is not the top
                if levels@.len() == full.len() {
                    assert(full[levels@.len() - 1] == full.last());
                    assert(false);
                }
            }
            let ghost cur_v = view_hashes(current_level@);
            let n = current_level.len();
            let mut next_level: Vec<[u8; 32]> = Vec::new();
            let half = n / 2 + n % 2;
            let mut i: usize = 0;
            while i < half
                invariant
                    i <= half,
                    n == cur_v.len(),
                    half == (cur_v.len() + 1) / 2,
                    cur_v == view_hashes(current_level@),
                    cur_v.len() == current_level@.len(),
                    current_level@.len() >= 1,
                    view_hashes(next_level@) == spec_next_level(cur_v).take(i as int),
                decreases half - i,
            {
                proof {
                    assert(2 * i < n);
                }
                let j = 2 * i;
                let node = if j + 1 < n {
                    Hasher::hash_two(&current_level[j], &current_level[j + 1])
                } else {
                    Hasher::hash_two(&current_level[j], &current_level[j])
                };
                let ghost prev = next_level@;
                next_level.push(node);
                proof {
                    lemma_view_hashes_push(prev, node);
                    assert(spec_next_level(cur_v)[i as int] == node@);
                    assert(view_hashes(prev).push(node@) =~= spec_next_level(cur_v).take(
                        i as int + 1,
                    ));
                }
                i += 1;
            }
            proof {
                assert(spec_next_level(cur_v).take(half as int) =~= spec_next_level(cur_v));
            }
            let stored = clone_hashes(&next_level);
            let ghost prev_levels = levels@;
            levels.push(stored);
            proof {
                assert(view_levels(levels@) =~= view_levels(prev_levels).push(
                    view_hashes(next_level@),
                ));
                let k = levels@.len() - 1;
                assert(full[k] == spec_next_level(full[k - 1]));
                assert(view_levels(levels@) =~= full.take(k + 1));
                if view_hashes(next_level@).len() == 1 && k < full.len() - 1 {
                    assert(full[k].len() >= 2);
                    assert(false);
                }
            }
            current_level = next_level;
        }

        let root = current_level[0];
        proof {
            assert(view_levels(levels@) =~= full);
            assert(view_hashes(current_level@)[0] == full.last()[0]);
        }
        MerkleTree { root, leaves, levels }
    }

    /// The proof for the leaf at `index`: one sibling per level, an odd
    /// tail node paired with itself. A proof exists exactly for indices
    /// under the leaf count, and folding it from the leaf gives the root.
    #[verifier::rlimit(50)]
    pub fn get_proof(&self, index: usize) -> (r: Option<MerkleProof>)
        requires
            self.wf(),
        ensures
            r is Some <==> index < self.leaves@.len(),
            r is Some ==> {
                let p = r->0;
                &&& p.leaf_hash == self.leaves@[index as int]
                &&& p.root == self.root
                &&& spec_fold_proof(p.leaf_hash@, p.proof@) == p.root@
            },
    {
        if index >= self.leaves.len() {
            return None;
        }
        let ghost full = spec_levels_from(view_hashes(self.leaves@));
        proof {
            lemma_levels_facts(view_hashes(self.leaves@));
        }

        let mut proof: Vec<MerkleProofElement> = Vec::new();
        let mut current_index = index;
        let mut k: usize = 0;
        while k < self.levels.len() - 1
            invariant
                self.leaves@.len() >= 1,
                index < self.leaves@.len(),
                view_levels(self.levels@) == full,
                self.root@ == full.last()[0],
                full.len() >= 1,
                full.last().len() == 1,
                forall|m: int| 0 <= m < full.len() ==> 1 <= #[trigger] full[m].len(),
                forall|m: int|
                    1 <= m < full.len() ==> #[trigger] full[m] == spec_next_level(full[m - 1]),
                self.levels@.len() == full.len(),
                0 <= k < full.len(),
                current_index < full[k as int].len(),
                spec_fold_proof(self.leaves@[index as int]@, proof@) == full[k as int][
                    current_index as int],
            decreases full.len() - k,
        {
            let level = &self.levels[k];
            proof {
                assert(view_levels(self.levels@)[k as int] == view_hashes(level@));
                assert(view_hashes(level@) == full[k as int]);
            }
            let element = if current_index % 2 == 0 {
                let sibling_index = current_index + 1;
                if sibling_index < level.len() {
                    MerkleProofElement { hash: level[sibling_index], is_left: false }
                } else {
                    // odd tail: the node is hashed with itself
                    MerkleProofElement { hash: level[current_index], is_left: false }
                }
            } else {
                MerkleProofElement { hash: level[current_index - 1], is_left: true }
            };
            let ghost prev = proof@;
            proof.push(element);
            proof {
                lemma_fold_push(self.leaves@[index as int]@, prev, element);
                let ci = current_index as int;
                let parent = full[k + 1][ci / 2];
                assert(full[k + 1] == spec_next_level(full[k as int]));
                assert(parent == spec_next_level(full[k as int])[ci / 2]);
                if ci % 2 == 0 {
                    assert(2 * (ci / 2) == ci);
                } else {
                    assert(2 * (ci / 2) == ci - 1);
                }
                assert(spec_fold_proof(self.leaves@[index as int]@, proof@) == parent);
                assert(ci / 2 < full[k + 1].len());
            }
            current_index = current_index / 2;
            k += 1;
        }
        proof {
            assert(k == full.len() - 1);
            assert(current_index == 0);
            assert(full[k as int] == full.last());
        }
        Some(MerkleProof { leaf_hash: self.leaves[index], proof, root: self.root })
    }

    /// Whether folding the proof from its leaf reproduces its root.
    pub fn verify_proof(proof: &MerkleProof) -> (r: bool)
        ensures
            r == (spec_fold_proof(proof.leaf_hash@, proof.proof@) == proof.root@),
    {
        let mut current_hash = proof.leaf_hash;
        proof {
            assert(proof.proof@.skip(0) =~= proof.proof@);
        }
        let mut i: usize = 0;
        while i < proof.proof.len()
            invariant
                i <= proof.proof@.len(),
                spec_fold_proof(current_hash@, proof.proof@.skip(i as int)) == spec_fold_proof(
                    proof.leaf_hash@,
                    proof.proof@,
                ),
            decreases proof.proof@.len() - i,
        {
            let ghost rest = proof.proof@.skip(i as int);
            let element = &proof.proof[i];
            current_hash = if element.is_left {
                Hasher::hash_two(&element.hash, &current_hash)
            } else {
                Hasher::hash_two(&current_hash, &element.hash)
            };
            proof {
                assert(rest.first() == proof.proof@[i as int]);
                assert(rest.drop_first() =~= proof.proof@.skip(i as int + 1));
            }
            i += 1;
        }
        proof {
            assert(proof.proof@.skip(proof.proof@.len() as int) =~= Seq::<
                MerkleProofElement,
            >::empty());
        }
        hash_eq(&current_hash, &proof.root)
    }

    /// Replaces the leaf at `index` and rebuilds the tree; fails only when
    /// the index is past the leaves.
    pub fn update_leaf(&mut self, index: usize, new_leaf: [u8; 32]) -> (r: Result<
        (),
        ConsensusError,
    >)
        requires
            old(self).wf(),
        ensures
            r is Ok <==> index < old(self).leaves@.len(),
            r is Ok ==> {
                &&& final(self).wf()
                &&& final(self).leaves@ == old(self).leaves@.update(index as int, new_leaf)
                &&& final(self).root@ == spec_merkle_root(view_hashes(final(self).leaves@))
            },
            r is Err ==> *final(self) == *old(self) && r->Err_0 == ConsensusError::NotFound,
    {
        if index >= self.leaves.len() {
            return Err(ConsensusError::NotFound);
        }
        let mut leaves = clone_hashes(&self.leaves);
        leaves.set(index, new_leaf);
        *self = Self::new(leaves);
        Ok(())
    }

    /// Appends a leaf and rebuilds the tree.
    pub fn add_leaf(&mut self, leaf: [u8; 32])
        ensures
            final(self).wf(),
            final(self).leaves@ == old(self).leaves@.push(leaf),
            final(self).root@ == spec_merkle_root(view_hashes(final(self).leaves@)),
    {
        let mut leaves = clone_hashes(&self.leaves);
        leaves.push(leaf);
        *self = Self::new(leaves);
    }

    /// The tree over the hashes of the given byte chunks.
    pub fn from_data(data: &[&[u8]]) -> (r: Self)
        ensures
            r.wf(),
            r.leaves@.len() == data@.len(),
            forall|i: int| 0 <= i < data@.len() ==> #[trigger] r.leaves@[i]@ == sha256_of(
                data@[i]@,
            ),
            r.root@ == spec_merkle_root(view_hashes(r.leaves@)),
    {
        let mut leaves: Vec<[u8; 32]> = Vec::new();
        let mut i: usize = 0;
        while i < data.len()
            invariant
                i <= data@.len(),
                leaves@.len() == i,
                forall|j: int| 0 <= j < i ==> #[trigger] leaves@[j]@ == sha256_of(data@[j]@),
            decreases data@.len() - i,
        {
            leaves.push(Hasher::hash(data[i]));
            i += 1;
        }
        Self::new(leaves)
    }

    /// The number of leaves.
    pub fn size(&self) -> (r: usize)
        ensures
            r == self.leaves@.len(),
    {
        self.leaves.len()
    }

    /// Whether the tree has no leaves.
    pub fn is_empty(&self) -> (r: bool)
        ensures
            r == (self.leaves@.len() == 0),
    {
        self.leaves.is_empty()
    }
}

/// One step of a Merkle proof: a sibling hash and the side it stands on.
#[derive(Debug, Clone, PartialEq, Eq)]
pub struct MerkleProofElement {
    pub hash: [u8; 32],
    pub is_left: bool,
}

/// A Merkle proof: the leaf, the sibling path, and the root it leads to.
#[derive(Debug, Clone, PartialEq, Eq)]
pub struct MerkleProof {
    pub leaf_hash: [u8; 32],
    pub proof: Vec<MerkleProofElement>,
    pub root: [u8; 32],
}

/// The hash obtained by folding the proof elements over a starting node,
/// hashing the sibling on the side it stands on.
pub open spec fn spec_fold_proof(start: Seq<u8>, elems: Seq<MerkleProofElement>) -> Seq<u8>
    decreases elems.len(),
{
    if elems.len() == 0 {
        start
    } else {
        let e = elems.first();
        let next = if e.is_left {
            spec_hash_two(e.hash@, start)
        } else {
            spec_hash_two(start, e.hash@)
        };
        spec_fold_proof(next, elems.drop_first())
    }
}

/// Folding one more element hashes it onto the folded value so far.
pub proof fn lemma_fold_push(start: Seq<u8>, elems: Seq<MerkleProofElement>, e: MerkleProofElement)
    ensures
        spec_fold_proof(start, elems.push(e)) == if e.is_left {
            spec_hash_two(e.hash@, spec_fold_proof(start, elems))
        } else {
            spec_hash_two(spec_fold_proof(start, elems), e.hash@)
        },
    decreases elems.len(),
{
    if elems.len() == 0 {
        assert(elems.push(e).first() == e);
        assert(elems.push(e).drop_first() =~= Seq::<MerkleProofElement>::empty());
        let next = if e.is_left {
            spec_hash_two(e.hash@, start)
        } else {
            spec_hash_two(start, e.hash@)
        };
        assert(spec_fold_proof(next, Seq::<MerkleProofElement>::empty()) == next);
        assert(spec_fold_proof(start, elems) == start);
    } else {
        assert(elems.push(e).first() == elems.first());
        assert(elems.push(e).drop_first() =~= elems.drop_first().push(e));
        let first = elems.first();
        let next = if first.is_left {
            spec_hash_two(first.hash@, start)
        } else {
            spec_hash_two(start, first.hash@)
        };
        lemma_fold_push(next, elems.drop_first(), e);
        assert(spec_fold_proof(start, elems.push(e)) == spec_fold_proof(
            next,
            elems.drop_first().push(e),
        ));
        assert(spec_fold_proof(start, elems) == spec_fold_proof(next, elems.drop_first()));
    }
}

/// The node index reached from `x` after halving `steps` times: the index
/// of the ancestor that many levels up.
pub open spec fn spec_ni(x: nat, steps: nat) -> nat
    decreases steps,
{
    if steps == 0 {
        x
    } else {
        spec_ni(x, (steps - 1) as nat) / 2
    }
}

/// An index whose ancestor at the root is node 0 lies under the tree:
/// it is smaller than two to the number of levels walked.
pub proof fn lemma_spec_ni_zero_bound(x: nat, steps: nat)
    requires
        spec_ni(x, steps) == 0,
    ensures
        x < vstd::arithmetic::power2::pow2(steps),
    decreases steps,
{
    vstd::arithmetic::power2::lemma_pow2_pos(steps);
    if steps == 0 {
    } else {
        let prev = spec_ni(x, (steps - 1) as nat);
        assert(prev / 2 == 0);
        assert(prev <= 1);
        if prev == 0 {
            lemma_spec_ni_zero_bound(x, (steps - 1) as nat);
            vstd::arithmetic::power2::lemma_pow2_strictly_increases((steps - 1) as nat, steps);
        } else {
            lemma_spec_ni_le_pow2(x, (steps - 1) as nat);
            vstd::arithmetic::power2::lemma_pow2_unfold(steps);
            assert(x < 2 * vstd::arithmetic::power2::pow2((steps - 1) as nat));
        }
    }
}

/// After `steps` halvings the remainder below the reached node is bounded.
proof fn lemma_spec_ni_le_pow2(x: nat, steps: nat)
    ensures
        x < (spec_ni(x, steps) + 1) * vstd::arithmetic::power2::pow2(steps),
    decreases steps,
{
    vstd::arithmetic::power2::lemma_pow2_pos(steps);
    if steps == 0 {
        vstd::arithmetic::power2::lemma2_to64();
        assert(vstd::arithmetic::power2::pow2(0) == 1);
        assert((spec_ni(x, 0) + 1) * 1 == x + 1);
    } else {
        lemma_spec_ni_le_pow2(x, (steps - 1) as nat);
        let prev = spec_ni(x, (steps - 1) as nat);
        let cur = spec_ni(x, steps);
        let p = vstd::arithmetic::power2::pow2((steps - 1) as nat);
        vstd::arithmetic::power2::lemma_pow2_unfold(steps);
        assert(prev + 1 <= 2 * cur + 2);
        assert((prev + 1) * p <= (2 * cur + 2) * p) by (nonlinear_arith)
            requires
                prev + 1 <= 2 * cur + 2,
                p > 0,
        ;
        assert((2 * cur + 2) * p == (cur + 1) * (2 * p)) by (nonlinear_arith);
        assert(2 * p == vstd::arithmetic::power2::pow2(steps));
        assert(x < (prev + 1) * p);
        assert(x < (cur + 1) * vstd::arithmetic::power2::pow2(steps));
    }
}

/// A sparse Merkle tree of fixed depth: only touched nodes are stored,
/// every other node at a level carries that level's default hash. Nodes are
/// keyed by (level, node index within the level); the root sits at level 0.
#[derive(Debug, Clone, PartialEq, Eq)]
pub struct SparseMerkleTree {
    pub root: [u8; 32],
    pub depth: usize,
    pub nodes: Vec<((usize, u64), [u8; 32])>,
    pub default_hashes: Vec<[u8; 32]>,
}

impl SparseMerkleTree {
    /// The value of the node at (level, index): the stored hash, or the
    /// level's default where none is stored.
    pub open spec fn spec_node(&self, level: usize, index: u64) -> Seq<u8> {
        match assoc_find(self.nodes@, (level, index)) {
            Some(h) => h@,
            None => self.default_hashes@[level as int]@,
        }
    }

    /// The defaults chain from the zero leaf, every stored node sits at a
    /// level, keys are unique, and the root is node (0, 0).
    pub open spec fn wf(&self) -> bool {
        &&& self.depth <= 63
        &&& self.default_hashes@.len() == self.depth + 1
        &&& self.default_hashes@[self.depth as int]@ == spec_zero_hash()
        &&& forall|l: int|
            0 <= l < self.depth ==> #[trigger] self.default_hashes@[l]@ == spec_hash_two(
                self.default_hashes@[l + 1]@,
                self.default_hashes@[l + 1]@,
            )
        &&& crate::assoc::assoc_unique(self.nodes@)
        &&& forall|i: int|
            0 <= i < self.nodes@.len() ==> (#[trigger] self.nodes@[i].0).0 <= self.depth
        &&& self.root@ == self.spec_node(0, 0)
    }

    /// An empty tree: every node defaults, level by level, from zero leaves.
    pub fn new(depth: usize) -> (r: Self)
        requires
            depth <= 63,
        ensures
            r.wf(),
            r.depth == depth,
            r.nodes@.len() == 0,
    {
        let mut default_hashes: Vec<[u8; 32]> = Vec::new();
        let mut i: usize = 0;
        while i <= depth
            invariant
                depth <= 63,
                i <= depth + 1,
                default_hashes@.len() == i,
                forall|k: int| 0 <= k < i ==> #[trigger] default_hashes@[k]@ == spec_zero_hash(),
            decreases depth + 1 - i,
        {
            default_hashes.push(zero_hash());
            i += 1;
        }
        // fill in the defaults bottom-up
        let mut l = depth;
        while l > 0
            invariant
                depth <= 63,
                default_hashes@.len() == depth + 1,
                l <= depth,
                default_hashes@[depth as int]@ == spec_zero_hash(),
                forall|k: int|
                    l <= k < depth ==> #[trigger] default_hashes@[k]@ == spec_hash_two(
                        default_hashes@[k + 1]@,
                        default_hashes@[k + 1]@,
                    ),
            decreases l,
        {
            let h = Hasher::hash_two(&default_hashes[l], &default_hashes[l]);
            default_hashes.set(l - 1, h);
            l -= 1;
        }
        let root = default_hashes[0];
        SparseMerkleTree { root, depth, nodes: Vec::new(), default_hashes }
    }

    /// The stored hash at (level, index), or the level's default.
    pub fn get_node(&self, level: usize, index: u64) -> (r: [u8; 32])
        requires
            self.wf(),
            level <= self.depth,
        ensures
            r@ == self.spec_node(level, index),
    {
        self.find_node(level, index)
    }

    /// The lookup behind `get_node`, usable while the root is being rebuilt.
    fn find_node(&self, level: usize, index: u64) -> (r: [u8; 32])
        requires
            crate::assoc::assoc_unique(self.nodes@),
            level < self.default_hashes@.len(),
        ensures
            r@ == self.spec_node(level, index),
    {
        let mut i: usize = 0;
        while i < self.nodes.len()
            invariant
                crate::assoc::assoc_unique(self.nodes@),
                level < self.default_hashes@.len(),
                i <= self.nodes@.len(),
                forall|j: int| 0 <= j < i ==> #[trigger] self.nodes@[j].0 != (level, index),
            decreases self.nodes@.len() - i,
        {
            let entry = &self.nodes[i];
            if entry.0.0 == level && entry.0.1 == index {
                proof {
                    crate::assoc::lemma_assoc_unique_at(self.nodes@, i as int);
                }
                return entry.1;
            }
            i += 1;
        }
        proof {
            crate::assoc::lemma_assoc_find_none(self.nodes@, (level, index));
        }
        self.default_hashes[level]
    }

    /// Stores a hash at (level, index), replacing any previous one; every
    /// other node keeps its value.
    fn set_node(&mut self, level: usize, index: u64, value: [u8; 32])
        requires
            crate::assoc::assoc_unique(old(self).nodes@),
            level <= old(self).depth,
            forall|i: int|
                0 <= i < old(self).nodes@.len() ==> (#[trigger] old(self).nodes@[i].0).0 <= old(
                    self,
                ).depth,
        ensures
            crate::assoc::assoc_unique(final(self).nodes@),
            assoc_find(final(self).nodes@, (level, index)) == Some(value),
            forall|k: (usize, u64)|
                k != (level, index) ==> #[trigger] assoc_find(final(self).nodes@, k) == assoc_find(
                    old(self).nodes@,
                    k,
                ),
            forall|i: int|
                0 <= i < final(self).nodes@.len() ==> (#[trigger] final(self).nodes@[i].0).0 <= old(
                    self,
                ).depth,
            final(self).root == old(self).root,
            final(self).depth == old(self).depth,
            final(self).default_hashes == old(self).default_hashes,
    {
        let n = self.nodes.len();
        let mut i: usize = 0;
        while i < n
            invariant
                n == self.nodes@.len(),
                i <= n,
                crate::assoc::assoc_unique(self.nodes@),
                *self == *old(self),
                level <= old(self).depth,
                forall|j: int|
                    0 <= j < old(self).nodes@.len() ==> (#[trigger] old(self).nodes@[j].0).0 <= old(
                        self,
                    ).depth,
                forall|j: int| 0 <= j < i ==> #[trigger] self.nodes@[j].0 != (level, index),
            decreases n - i,
        {
            let hit = {
                let entry = &self.nodes[i];
                entry.0.0 == level && entry.0.1 == index
            };
            if hit {
                proof {
                    crate::assoc::lemma_assoc_find_update(self.nodes@, i as int, value, (level, index));
                }
                let ghost prev = self.nodes@;
                self.nodes.set(i, ((level, index), value));
                proof {
                    assert forall|k: (usize, u64)| k != (level, index) implies #[trigger] assoc_find(
                        self.nodes@,
                        k,
                    ) == assoc_find(prev, k) by {
                        crate::assoc::lemma_assoc_find_update(prev, i as int, value, k);
                    }
                    assert(crate::assoc::assoc_unique(self.nodes@));
                    assert forall|j: int| 0 <= j < self.nodes@.len() implies (#[trigger] self
                        .nodes@[j].0).0 <= self.depth by {
                        if j == i as int {
                            assert(self.nodes@[j] == ((level, index), value));
                        } else {
                            assert(self.nodes@[j] == prev[j]);
                            assert(prev == old(self).nodes@);
                            assert((old(self).nodes@[j].0).0 <= old(self).depth);
                        }
                    }
                }
                return ;
            }
            i += 1;
        }
        proof {
            crate::assoc::lemma_assoc_find_none(self.nodes@, (level, index));
        }
        let ghost prev = self.nodes@;
        self.nodes.push(((level, index), value));
        proof {
            assert forall|k: (usize, u64)| k != (level, index) implies #[trigger] assoc_find(
                self.nodes@,
                k,
            ) == assoc_find(prev, k) by {
                crate::assoc::lemma_assoc_find_push(prev, (level, index), value, k);
            }
            crate::assoc::lemma_assoc_find_push(prev, (level, index), value, (level, index));
            crate::assoc::lemma_assoc_find_none(prev, (level, index));
            assert forall|i2: int, j2: int|
                0 <= i2 < j2 < self.nodes@.len() implies self.nodes@[i2].0 != self.nodes@[j2].0 by {
                if j2 == self.nodes@.len() - 1 {
                    assert(self.nodes@[i2] == prev[i2]);
                }
            }
        }
    }
}

/// The index of the ancestor of leaf `index` that sits `steps` levels up.
pub open spec fn spec_path_index(index: u64, steps: int) -> u64 {
    spec_ni(index as nat, steps as nat) as u64
}

/// The index of the sibling of node `i`: its neighbour in the same pair.
pub open spec fn spec_sibling(i: u64) -> u64 {
    if i % 2 == 0 {
        (i + 1) as u64
    } else {
        (i - 1) as u64
    }
}

/// The root obtained by folding sibling hashes up from leaf `index`.
pub open spec fn spec_smt_fold(index: u64, value: Seq<u8>, elems: Seq<[u8; 32]>) -> Seq<u8>
    decreases elems.len(),
{
    if elems.len() == 0 {
        value
    } else {
        let next = if index % 2 == 0 {
            spec_hash_two(value, elems.first()@)
        } else {
            spec_hash_two(elems.first()@, value)
        };
        spec_smt_fold(index / 2, next, elems.drop_first())
    }
}

impl SparseMerkleTree {
    /// Sets the leaf at `index` and recomputes the hashes on its path to the
    /// root; every node off that path keeps its value.
    #[verifier::rlimit(100)]
    pub fn update(&mut self, index: u64, value: [u8; 32])
        requires
            old(self).wf(),
            spec_ni(index as nat, old(self).depth as nat) == 0,
        ensures
            final(self).wf(),
            final(self).depth == old(self).depth,
            final(self).default_hashes == old(self).default_hashes,
            final(self).spec_node(old(self).depth, index) == value@,
            forall|l: usize, i: u64|
                l <= old(self).depth && i != spec_path_index(index, old(self).depth - l)
                    ==> #[trigger] final(self).spec_node(l, i) == old(self).spec_node(l, i),
            forall|l: usize|
                l < old(self).depth ==> #[trigger] final(self).spec_node(
                    l,
                    spec_path_index(index, old(self).depth - l),
                ) == spec_hash_two(
                    final(self).spec_node(
                        (l + 1) as usize,
                        (2 * spec_path_index(index, old(self).depth - l)) as u64,
                    ),
                    final(self).spec_node(
                        (l + 1) as usize,
                        (2 * spec_path_index(index, old(self).depth - l) + 1) as u64,
                    ),
                ),
    {
        let depth = self.depth;
        // node indices on the path, leaf first: rev[s] is the ancestor s levels up
        let mut rev: Vec<u64> = Vec::new();
        rev.push(index);
        let mut s: usize = 1;
        while s <= depth
            invariant
                depth <= 63,
                1 <= s <= depth + 1,
                rev@.len() == s,
                rev@[0] == index,
                forall|k: int| 0 <= k < s ==> #[trigger] rev@[k] as nat == spec_ni(
                    index as nat,
                    k as nat,
                ),
            decreases depth + 1 - s,
        {
            let prev = rev[s - 1];
            rev.push(prev / 2);
            s += 1;
        }

        self.set_node(depth, index, value);
        let ghost mid = *self;
        let mut l = depth;
        while l > 0
            invariant
                depth == old(self).depth,
                depth <= 63,
                l <= depth,
                rev@.len() == depth + 1,
                forall|k: int| 0 <= k <= depth ==> #[trigger] rev@[k] as nat == spec_ni(
                    index as nat,
                    k as nat,
                ),
                self.depth == old(self).depth,
                self.default_hashes == old(self).default_hashes,
                self.root == old(self).root,
                old(self).default_hashes@.len() == depth + 1,
                crate::assoc::assoc_unique(self.nodes@),
                forall|i: int|
                    0 <= i < self.nodes@.len() ==> (#[trigger] self.nodes@[i].0).0 <= depth,
                self.spec_node(depth, index) == value@,
                forall|l2: usize, i2: u64|
                    l2 <= depth && (l2 < l || i2 != spec_path_index(index, depth - l2))
                        ==> #[trigger] self.spec_node(l2, i2) == old(self).spec_node(l2, i2),
                forall|l2: usize|
                    l <= l2 < depth ==> #[trigger] self.spec_node(
                        l2,
                        spec_path_index(index, depth - l2),
                    ) == spec_hash_two(
                        self.spec_node(
                            (l2 + 1) as usize,
                            (2 * spec_path_index(index, depth - l2)) as u64,
                        ),
                        self.spec_node(
                            (l2 + 1) as usize,
                            (2 * spec_path_index(index, depth - l2) + 1) as u64,
                        ),
                    ),
            decreases l,
        {
            l -= 1;
            let ni = rev[depth - l];
            proof {
                assert(rev@[depth - l] as nat == spec_ni(index as nat, (depth - l) as nat));
                assert(spec_ni(index as nat, (depth - l) as nat) == spec_ni(
                    index as nat,
                    (depth - l - 1) as nat,
                ) / 2);
                assert(rev@[depth - l - 1] as nat == spec_ni(index as nat, (depth - l - 1) as nat));
                assert(ni as nat == rev@[depth - l - 1] as nat / 2);
            }
            let left = self.find_node(l + 1, 2 * ni);
            let right = self.find_node(l + 1, 2 * ni + 1);
            let h = Hasher::hash_two(&left, &right);
            let ghost before = *self;
            self.set_node(l, ni, h);
            proof {
                let d = depth as int;
                assert forall|l2: usize, i2: u64|
                    l2 <= depth && (l2 < l || i2 != spec_path_index(index, d - l2))
                        implies #[trigger] self.spec_node(l2, i2) == old(self).spec_node(
                    l2,
                    i2,
                ) by {
                    assert((l2, i2) != (l, ni));
                    assert(self.spec_node(l2, i2) == before.spec_node(l2, i2));
                }
                assert(self.spec_node(depth, index) == value@) by {
                    assert((depth, index) != (l, ni));
                }
                assert forall|l2: usize|
                    l <= l2 < depth implies #[trigger] self.spec_node(
                    l2,
                    spec_path_index(index, d - l2),
                ) == spec_hash_two(
                    self.spec_node((l2 + 1) as usize, (2 * spec_path_index(index, d - l2)) as u64),
                    self.spec_node(
                        (l2 + 1) as usize,
                        (2 * spec_path_index(index, d - l2) + 1) as u64,
                    ),
                ) by {
                    if l2 == l {
                        assert(self.spec_node(l, ni) == h@);
                        assert(((l2 + 1) as usize, (2 * spec_path_index(index, d - l2)) as u64) != ((l, ni)));
                        assert(self.spec_node(
                            (l2 + 1) as usize,
                            (2 * spec_path_index(index, d - l2)) as u64,
                        ) == before.spec_node(
                            (l2 + 1) as usize,
                            (2 * spec_path_index(index, d - l2)) as u64,
                        ));
                        assert(2 * ni <= rev@[d - l - 1] <= 2 * ni + 1);
                        assert(left@ == before.spec_node((l + 1) as usize, (2 * ni) as u64));
                        assert(right@ == before.spec_node((l + 1) as usize, (2 * ni + 1) as u64));
                    } else {
                        assert(self.spec_node(l2, spec_path_index(index, d - l2))
                            == before.spec_node(l2, spec_path_index(index, d - l2)));
                    }
                }
            }
        }
        let new_root = self.find_node(0, 0);
        let ghost s1 = *self;
        self.root = new_root;
        proof {
            let d = depth as int;
            assert(self.nodes@ == s1.nodes@);
            assert(self.default_hashes@ == s1.default_hashes@);
            assert(spec_path_index(index, d) == 0);
            assert(self.spec_node(depth, index) == s1.spec_node(depth, index));
            assert forall|l: usize, i: u64|
                l <= depth && i != spec_path_index(index, d - l) implies #[trigger] self.spec_node(
                l,
                i,
            ) == old(self).spec_node(l, i) by {
                assert(s1.spec_node(l, i) == old(self).spec_node(l, i));
                assert(self.spec_node(l, i) == s1.spec_node(l, i));
            }
            assert forall|l: usize|
                l < depth implies #[trigger] self.spec_node(l, spec_path_index(index, d - l))
                == spec_hash_two(
                self.spec_node((l + 1) as usize, (2 * spec_path_index(index, d - l)) as u64),
                self.spec_node((l + 1) as usize, (2 * spec_path_index(index, d - l) + 1) as u64),
            ) by {
                assert(s1.spec_node(l, spec_path_index(index, d - l)) == spec_hash_two(
                    s1.spec_node((l + 1) as usize, (2 * spec_path_index(index, d - l)) as u64),
                    s1.spec_node((l + 1) as usize, (2 * spec_path_index(index, d - l) + 1) as u64),
                ));
                assert(self.spec_node(l, spec_path_index(index, d - l)) == s1.spec_node(
                    l,
                    spec_path_index(index, d - l),
                ));
                assert(self.spec_node((l + 1) as usize, (2 * spec_path_index(index, d - l)) as u64)
                    == s1.spec_node(
                    (l + 1) as usize,
                    (2 * spec_path_index(index, d - l)) as u64,
                ));
                assert(self.spec_node(
                    (l + 1) as usize,
                    (2 * spec_path_index(index, d - l) + 1) as u64,
                ) == s1.spec_node((l + 1) as usize, (2 * spec_path_index(index, d - l) + 1) as u64));
            }
        }
    }

    /// The sibling hashes on the path from leaf `index` to the root, leaf
    /// level first.
    pub fn get_proof(&self, index: u64) -> (r: Vec<[u8; 32]>)
        requires
            self.wf(),
            spec_ni(index as nat, self.depth as nat) == 0,
        ensures
            r@.len() == self.depth,
            forall|k: int|
                0 <= k < self.depth ==> #[trigger] r@[k]@ == self.spec_node(
                    (self.depth - k) as usize,
                    spec_sibling(spec_path_index(index, k)),
                ),
    {
        proof {
            lemma_spec_ni_zero_bound(index as nat, self.depth as nat);
            vstd::arithmetic::power2::lemma2_to64_rest();
            if self.depth < 63 {
                vstd::arithmetic::power2::lemma_pow2_strictly_increases(
                    self.depth as nat,
                    63,
                );
            }
            assert(vstd::arithmetic::power2::pow2(self.depth as nat) <= u64::MAX);
        }
        let mut proof: Vec<[u8; 32]> = Vec::new();
        let mut current_index = index;
        let mut k: usize = 0;
        while k < self.depth
            invariant
                self.wf(),
                spec_ni(index as nat, self.depth as nat) == 0,
                k <= self.depth,
                current_index as nat == spec_ni(index as nat, k as nat),
                current_index as nat <= index as nat,
                (index as nat) < vstd::arithmetic::power2::pow2(self.depth as nat),
                vstd::arithmetic::power2::pow2(self.depth as nat) <= u64::MAX,
                proof@.len() == k,
                forall|m: int|
                    0 <= m < k ==> #[trigger] proof@[m]@ == self.spec_node(
                        (self.depth - m) as usize,
                        spec_sibling(spec_path_index(index, m)),
                    ),
            decreases self.depth - k,
        {
            let level = self.depth - k;
            let sibling_index = if current_index % 2 == 0 {
                current_index + 1
            } else {
                current_index - 1
            };
            proof {
                assert(sibling_index == spec_sibling(spec_path_index(index, k as int)));
            }
            let node = self.find_node(level, sibling_index);
            proof.push(node);
            current_index = current_index / 2;
            k += 1;
        }
        proof
    }

    /// Whether folding the sibling hashes up from `(index, value)` leads to
    /// this tree's root.
    pub fn verify_proof(&self, index: u64, value: [u8; 32], proof: &[[u8; 32]]) -> (r: bool)
        ensures
            r == (spec_smt_fold(index, value@, proof@) == self.root@),
    {
        let mut current_hash = value;
        let mut current_index = index;
        proof {
            assert(proof@.skip(0) =~= proof@);
        }
        let mut i: usize = 0;
        while i < proof.len()
            invariant
                i <= proof@.len(),
                spec_smt_fold(current_index, current_hash@, proof@.skip(i as int))
                    == spec_smt_fold(index, value@, proof@),
            decreases proof@.len() - i,
        {
            let ghost rest = proof@.skip(i as int);
            let sibling_hash = proof[i];
            current_hash = if current_index % 2 == 0 {
                Hasher::hash_two(&current_hash, &sibling_hash)
            } else {
                Hasher::hash_two(&sibling_hash, &current_hash)
            };
            proof {
                assert(rest.first() == proof@[i as int]);
                assert(rest.drop_first() =~= proof@.skip(i as int + 1));
            }
            current_index = current_index / 2;
            i += 1;
        }
        proof {
            assert(proof@.skip(proof@.len() as int) =~= Seq::<[u8; 32]>::empty());
        }
        hash_eq(&current_hash, &self.root)
    }
}

impl MerkleProof {
    /// Whether folding this proof from its leaf reproduces its root.
    pub fn verify(&self) -> (r: bool)
        ensures
            r == (spec_fold_proof(self.leaf_hash@, self.proof@) == self.root@),
    {
        MerkleTree::verify_proof(self)
    }

    /// Whether the proof carries the expected root and folds to it.
    pub fn verify_with_root(&self, expected_root: &[u8; 32]) -> (r: bool)
        ensures
            r == (self.root@ == expected_root@ && spec_fold_proof(self.leaf_hash@, self.proof@)
                == self.root@),
    {
        if hash_eq(&self.root, expected_root) {
            self.verify()
        } else {
            false
        }
    }
}

} // verus!
