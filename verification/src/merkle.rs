//! Append-only Merkle commitment accumulator.
//!
//! A tree of fixed depth `D` holds up to `2^D` leaves.  Level `0` mirrors
//! the leaves; level `l + 1` holds the parents of level `l`.  Only the nodes
//! above inserted leaves are materialised: a missing sibling reads as the
//! fixed zero element.  An even index hashes as the left operand, an odd one
//! as the right, and proof verification uses the same convention, so a proof
//! produced by `get_proof` recomputes exactly the stored root.

use vstd::prelude::*;
use vstd::arithmetic::power2::{pow2, lemma_pow2_adds, lemma_pow2_pos, lemma2_to64};
use vstd::arithmetic::div_mod::{
    lemma_fundamental_div_mod, lemma_div_is_ordered, lemma_div_multiples_vanish,
    lemma_div_denominator, lemma_div_basics,
};
use crate::field::FieldElement;
use crate::codec::fe_vals;
use crate::hashing::{hash_pair, hash_pair_val};

verus! {

/// The tree already holds `2^D` leaves.
#[derive(Clone, Copy, PartialEq, Eq, Structural, Debug)]
pub struct CapacityError;

/// A leaf index at or beyond the number of inserted leaves.
#[derive(Clone, Copy, PartialEq, Eq, Structural, Debug)]
pub struct BoundsError;

/// The number of materialised nodes at level `l` once `k` leaves are in.
pub open spec fn level_len(k: nat, l: nat) -> nat {
    if k == 0 {
        0
    } else {
        (k - 1) as nat / pow2(l) + 1
    }
}

/// The value of the materialised node `(l, i)` given the leaf values.  The
/// right child of a materialised node may be missing and then reads as zero;
/// the left child of a materialised node is always materialised.
pub open spec fn node_at(leaves: Seq<nat>, l: nat, i: nat) -> nat
    decreases 2 * l,
{
    if l == 0 {
        if i < leaves.len() {
            leaves[i as int]
        } else {
            0
        }
    } else {
        hash_pair_val(
            node_or_zero(leaves, (l - 1) as nat, 2 * i),
            node_or_zero(leaves, (l - 1) as nat, 2 * i + 1),
        )
    }
}

/// The node value where materialised, the zero default otherwise.
pub open spec fn node_or_zero(leaves: Seq<nat>, l: nat, i: nat) -> nat
    decreases 2 * l + 1,
{
    if i * pow2(l) < leaves.len() {
        node_at(leaves, l, i)
    } else {
        0
    }
}

/// The root of a tree of depth `depth` over the given leaves: the zero
/// element while empty, the single node of the top level otherwise.
pub open spec fn spec_root(leaves: Seq<nat>, depth: nat) -> nat {
    if leaves.len() == 0 {
        0
    } else {
        node_at(leaves, depth, 0)
    }
}

/// The sibling of node index `j` within one level.
pub open spec fn sibling_index(j: nat) -> nat {
    if j % 2 == 0 {
        j + 1
    } else {
        (j - 1) as nat
    }
}

/// The sibling values a proof for leaf `i` carries, one per level.
pub open spec fn spec_proof_sibs(leaves: Seq<nat>, depth: nat, i: nat) -> Seq<nat> {
    Seq::new(depth, |l: int| node_or_zero(leaves, l as nat, sibling_index(i / pow2(l as nat))))
}

/// The left/right record a proof for leaf `i` carries: `true` where the
/// current node is the left child.
pub open spec fn spec_proof_bits(depth: nat, i: nat) -> Seq<bool> {
    Seq::new(depth, |l: int| (i / pow2(l as nat)) % 2 == 0)
}

/// Recomputes a root candidate from a leaf and a proof, bottom up.
pub open spec fn merkle_fold(cur: nat, sibs: Seq<nat>, bits: Seq<bool>) -> nat
    decreases sibs.len(),
{
    if sibs.len() == 0 || bits.len() == 0 {
        cur
    } else {
        merkle_fold(
            if bits[0] {
                hash_pair_val(cur, sibs[0])
            } else {
                hash_pair_val(sibs[0], cur)
            },
            sibs.skip(1),
            bits.skip(1),
        )
    }
}

/// An append-only Merkle accumulator of fixed depth.
pub struct MerkleTree {
    depth: usize,
    capacity: usize,
    leaves: Vec<FieldElement>,
    nodes: Vec<Vec<FieldElement>>,
}

impl MerkleTree {
    /// The fixed depth chosen at construction.
    pub closed spec fn spec_depth(&self) -> nat {
        self.depth as nat
    }

    /// The values of the inserted leaves, in insertion order.
    pub closed spec fn leaf_vals(&self) -> Seq<nat> {
        fe_vals(self.leaves@)
    }

    /// Structural invariant: every materialised node holds the hash of its
    /// subtree as `node_at` states it.
    pub closed spec fn wf(&self) -> bool {
        &&& self.depth <= 30
        &&& self.capacity == pow2(self.depth as nat)
        &&& self.leaves@.len() <= self.capacity
        &&& self.nodes@.len() == self.depth + 1
        &&& forall|l: int|
            0 <= l <= self.depth ==> (#[trigger] self.nodes@[l])@.len() == level_len(
                self.leaf_vals().len(),
                l as nat,
            )
        &&& forall|l: int, i: int|
            0 <= l <= self.depth && 0 <= i < level_len(self.leaf_vals().len(), l as nat)
                ==> (#[trigger] self.nodes@[l]@[i])@ == node_at(self.leaf_vals(), l as nat, i as nat)
    }

    /// The root the tree currently attests to.
    pub open spec fn root_val(&self) -> nat {
        spec_root(self.leaf_vals(), self.spec_depth())
    }

    /// Creates an empty tree of the given depth (capacity `2^depth`).
    pub fn new(depth: usize) -> (r: MerkleTree)
        requires
            depth <= 30,
        ensures
            r.wf(),
            r.spec_depth() == depth,
            r.leaf_vals() =~= Seq::<nat>::empty(),
    {
        let mut capacity: usize = 1;
        let mut j: usize = 0;
        proof {
            lemma2_to64();
        }
        while j < depth
            invariant
                j <= depth,
                depth <= 30,
                capacity == pow2(j as nat),
            decreases depth - j,
        {
            proof {
                lemma_pow2_adds(j as nat, 1);
                lemma2_to64();
                assert(pow2((j + 1) as nat) == pow2(j as nat) * 2);
                lemma_pow2_le(j as nat, 30);
                lemma2_to64();
            }
            capacity = capacity * 2;
            j = j + 1;
        }
        let mut nodes: Vec<Vec<FieldElement>> = Vec::new();
        let mut l: usize = 0;
        while l < depth + 1
            invariant
                l <= depth + 1,
                depth <= 30,
                nodes@.len() == l,
                forall|m: int| 0 <= m < l ==> (#[trigger] nodes@[m])@.len() == 0,
            decreases depth + 1 - l,
        {
            nodes.push(Vec::new());
            l = l + 1;
        }
        let r = MerkleTree { depth, capacity, leaves: Vec::new(), nodes };
        proof {
            assert(r.leaf_vals() =~= Seq::<nat>::empty());
            assert(forall|l: int|
                0 <= l <= depth ==> #[trigger] level_len(r.leaf_vals().len(), l as nat) == 0);
        }
        r
    }

    /// The single top-level node, or the zero element while the tree is
    /// empty.
    pub fn get_root(&self) -> (r: FieldElement)
        requires
            self.wf(),
        ensures
            r@ == self.root_val(),
    {
        if self.leaves.len() == 0 {
            FieldElement::zero()
        } else {
            proof {
                let k = self.leaf_vals().len();
                lemma_pow2_pos(self.depth as nat);
                lemma_div_is_ordered(
                    (k - 1) as int,
                    (self.capacity - 1) as int,
                    pow2(self.depth as nat) as int,
                );
                lemma_div_bound_small((self.capacity - 1) as nat, pow2(self.depth as nat));
                assert(level_len(k, self.depth as nat) == 1);
            }
            self.nodes[self.depth][0]
        }
    }

    /// Compares a candidate against the current root.
    pub fn verify_root(&self, root: FieldElement) -> (r: bool)
        requires
            self.wf(),
        ensures
            r == (root@ == self.root_val()),
    {
        let own = self.get_root();
        proof {
            crate::field::lemma_fe_view_injective(own, root);
        }
        own == root
    }
}

/// `n / d == 0` for `n < d`.
proof fn lemma_div_bound_small(n: nat, d: nat)
    requires
        n < d,
        d > 0,
    ensures
        n / d == 0,
{
    vstd::arithmetic::div_mod::lemma_basic_div(n as int, d as int);
}

/// `pow2` is monotone.
proof fn lemma_pow2_le(a: nat, b: nat)
    requires
        a <= b,
    ensures
        pow2(a) <= pow2(b),
{
    if a < b {
        lemma_pow2_adds(a, (b - a) as nat);
        lemma_pow2_pos((b - a) as nat);
        assert(pow2(a) * pow2((b - a) as nat) >= pow2(a) * 1) by (nonlinear_arith)
            requires
                pow2((b - a) as nat) >= 1,
                pow2(a) >= 0,
        ;
    }
}

/// Dividing by `pow2(l)` and then by two is dividing by `pow2(l + 1)`.
proof fn lemma_div_pow2_succ(k: nat, l: nat)
    ensures
        k / pow2(l) / 2 == k / pow2((l + 1) as nat),
{
    lemma2_to64();
    lemma_pow2_pos(l);
    lemma_pow2_adds(l, 1);
    lemma_div_denominator(k as int, pow2(l) as int, 2);
}

/// A node is materialised exactly when its index is below the level length.
proof fn lemma_present_iff(k: nat, l: nat, i: nat)
    ensures
        i * pow2(l) < k <==> i < level_len(k, l),
{
    lemma_pow2_pos(l);
    let p = pow2(l);
    if k == 0 {
        assert(i * p >= 0) by (nonlinear_arith)
            requires
                p > 0,
        ;
    } else {
        let q = (k - 1) as int / (p as int);
        if i <= q {
            lemma_fundamental_div_mod((k - 1) as int, p as int);
            assert((i as int) * (p as int) <= q * (p as int)) by (nonlinear_arith)
                requires
                    i <= q,
                    p > 0,
            ;
        }
        if (i as int) * (p as int) <= k - 1 {
            lemma_div_is_ordered((i as int) * (p as int), (k - 1) as int, p as int);
            lemma_div_multiples_vanish(i as int, p as int);
        }
    }
}

/// Appending a leaf leaves every node off the new leaf's path unchanged.
proof fn lemma_node_append(leaves: Seq<nat>, v: nat, l: nat, i: nat)
    requires
        i != leaves.len() / pow2(l),
    ensures
        node_or_zero(leaves.push(v), l, i) == node_or_zero(leaves, l, i),
    decreases l,
{
    let k = leaves.len();
    let nl = leaves.push(v);
    lemma2_to64();
    lemma_pow2_pos(l);
    let p = pow2(l);
    if (i as int) * (p as int) < k + 1 {
        if i * p == k {
            lemma_div_multiples_vanish(i as int, p as int);
            assert(false);
        }
        assert(i * p < k);
        if l == 0 {
            lemma_div_basics(k as int);
        } else {
            let c0 = 2 * i;
            let c1 = 2 * i + 1;
            let pl = pow2((l - 1) as nat);
            lemma_pow2_pos((l - 1) as nat);
            lemma_div_pow2_succ(k, (l - 1) as nat);
            if c0 == k / pl {
                lemma_div_multiples_vanish(i as int, 2);
                assert(false);
            }
            if c1 == k / pl {
                vstd::arithmetic::div_mod::lemma_fundamental_div_mod_converse(
                    c1 as int,
                    2,
                    i as int,
                    1,
                );
                assert(false);
            }
            lemma_node_append(leaves, v, (l - 1) as nat, c0);
            lemma_node_append(leaves, v, (l - 1) as nat, c1);
        }
    }
}

/// `(k / p) * p <= k`.
proof fn lemma_div_mul_le(k: nat, p: nat)
    requires
        p > 0,
    ensures
        (k / p) * p <= k,
{
    lemma_fundamental_div_mod(k as int, p as int);
    assert((k as int / p as int) * (p as int) <= k) by (nonlinear_arith)
        requires
            k as int == (p as int) * (k as int / p as int) + (k as int % p as int),
            k as int % p as int >= 0,
    ;
}

/// Every node strictly left of the new leaf's path keeps its value when the
/// leaf is appended.
proof fn lemma_row_append(leaves: Seq<nat>, v: nat, l: nat)
    ensures
        forall|i: nat|
            i < leaves.len() / pow2(l) ==> #[trigger] node_at(leaves.push(v), l, i) == node_at(
                leaves,
                l,
                i,
            ),
{
    let k = leaves.len();
    let p = pow2(l);
    lemma_pow2_pos(l);
    assert forall|i: nat| i < k / p implies #[trigger] node_at(leaves.push(v), l, i) == node_at(
        leaves,
        l,
        i,
    ) by {
        lemma_node_append(leaves, v, l, i);
        lemma_div_mul_le(k, p);
        assert((i + 1) * p <= (k / p) * p) by (nonlinear_arith)
            requires
                i + 1 <= k / p,
                p > 0,
        ;
        assert(i * p < (i + 1) * p) by (nonlinear_arith)
            requires
                p > 0,
        ;
        assert(node_or_zero(leaves, l, i) == node_at(leaves, l, i));
        assert(node_or_zero(leaves.push(v), l, i) == node_at(leaves.push(v), l, i));
    }
}

impl MerkleTree {
    /// Appends a leaf at the next free index and recomputes its path to the
    /// root.  Fails, changing nothing, exactly when the tree already holds
    /// `2^D` leaves.
    pub fn insert(&mut self, leaf: FieldElement) -> (r: Result<u32, CapacityError>)
        requires
            old(self).wf(),
        ensures
            final(self).wf(),
            final(self).spec_depth() == old(self).spec_depth(),
            old(self).leaf_vals().len() == pow2(old(self).spec_depth()) ==> r == Err::<
                u32,
                CapacityError,
            >(CapacityError) && *final(self) == *old(self),
            old(self).leaf_vals().len() < pow2(old(self).spec_depth()) ==> r == Ok::<
                u32,
                CapacityError,
            >(old(self).leaf_vals().len() as u32) && final(self).leaf_vals() =~= old(
                self,
            ).leaf_vals().push(leaf@),
    {
        proof {
            lemma2_to64();
        }
        if self.leaves.len() == self.capacity {
            return Err(CapacityError);
        }
        let ghost k = self.leaf_vals().len();
        let ghost old_leaves = self.leaf_vals();
        let ghost nl = old_leaves.push(leaf@);
        let depth = self.depth;
        let index = self.leaves.len();
        self.leaves.push(leaf);
        self.nodes[0].push(leaf);
        proof {
            assert(self.leaf_vals() =~= nl);
            lemma_div_basics(k as int);
            lemma_div_basics((k + 1) as int);
            assert(level_len((k + 1) as nat, 0) == k + 1);
            assert(forall|i: int| 0 <= i < k ==> nl[i] == old_leaves[i]);
            assert(forall|l: int|
                0 < l <= depth ==> #[trigger] self.nodes@[l] == old(self).nodes@[l]);
        }
        let mut current: FieldElement = leaf;
        let mut idx: usize = index;
        let mut level: usize = 0;
        while level < depth
            invariant
                old(self).wf(),
                old(self).leaf_vals() == old_leaves,
                old_leaves.len() == k,
                old(self).depth == depth,
                self.depth == depth,
                depth <= 30,
                self.capacity == pow2(depth as nat),
                self.leaves@.len() == k + 1,
                k + 1 <= self.capacity,
                self.leaf_vals() =~= nl,
                nl == old_leaves.push(leaf@),
                nl.len() == k + 1,
                self.nodes@.len() == depth + 1,
                level <= depth,
                idx == k / pow2(level as nat),
                idx <= k,
                current@ == node_at(nl, level as nat, idx as nat),
                forall|l: int|
                    0 <= l <= level ==> (#[trigger] self.nodes@[l])@.len() == level_len(
                        (k + 1) as nat,
                        l as nat,
                    ),
                forall|l: int, i: int|
                    0 <= l <= level && 0 <= i < level_len((k + 1) as nat, l as nat)
                        ==> (#[trigger] self.nodes@[l]@[i])@ == node_at(nl, l as nat, i as nat),
                forall|l: int|
                    level < l <= depth ==> #[trigger] self.nodes@[l] == old(self).nodes@[l],
            decreases depth - level,
        {
            let ghost lv = level as nat;
            proof {
                lemma_pow2_pos(lv);
                lemma_pow2_pos((lv + 1) as nat);
                lemma_div_pow2_succ(k, lv);
            }
            let sib: usize = if idx % 2 == 0 {
                idx + 1
            } else {
                idx - 1
            };
            let level_size = self.nodes[level].len();
            let sib_val: FieldElement = if sib < level_size {
                self.nodes[level][sib]
            } else {
                FieldElement::zero()
            };
            proof {
                lemma_present_iff((k + 1) as nat, lv, sib as nat);
                assert(sib_val@ == node_or_zero(nl, lv, sib as nat));
                lemma_present_iff((k + 1) as nat, lv, idx as nat);
                assert((idx as int) * (pow2(lv) as int) <= k) by {
                    lemma_fundamental_div_mod(k as int, pow2(lv) as int);
                    assert((k as int / pow2(lv) as int) * (pow2(lv) as int) <= k) by (
                    nonlinear_arith)
                        requires
                            k as int == (pow2(lv) as int) * (k as int / pow2(lv) as int) + (
                            k as int % pow2(lv) as int),
                            k as int % pow2(lv) as int >= 0,
                    ;
                }
                assert(node_or_zero(nl, lv, idx as nat) == current@);
            }
            let parent: usize = idx / 2;
            let parent_val: FieldElement = if idx % 2 == 0 {
                hash_pair(&current, &sib_val)
            } else {
                hash_pair(&sib_val, &current)
            };
            proof {
                if idx % 2 == 0 {
                    assert(2 * (parent as nat) == idx as nat);
                } else {
                    assert(2 * (parent as nat) + 1 == idx as nat);
                    assert(2 * (parent as nat) == sib as nat);
                }
                assert(parent_val@ == node_at(nl, (lv + 1) as nat, parent as nat));
                assert(parent == k / pow2((lv + 1) as nat));
            }
            let parent_level_size = self.nodes[level + 1].len();
            proof {
                // the old level above holds either parent or parent + 1 nodes
                assert(parent_level_size == level_len(k as nat, (lv + 1) as nat));
                if k > 0 {
                    lemma_div_is_ordered((k - 1) as int, k as int, pow2((lv + 1) as nat) as int);
                    vstd::arithmetic::div_mod::lemma_div_plus_one(
                        (k - 1) as int,
                        pow2((lv + 1) as nat) as int,
                    );
                    lemma_div_is_ordered(
                        k as int,
                        (k - 1) as int + pow2((lv + 1) as nat) as int,
                        pow2((lv + 1) as nat) as int,
                    );
                }
                assert(parent <= parent_level_size <= parent + 1);
            }
            if parent < parent_level_size {
                self.nodes[level + 1][parent] = parent_val;
            } else {
                self.nodes[level + 1].push(parent_val);
            }
            proof {
                assert(self.nodes@[level + 1]@.len() == parent + 1);
                assert(self.nodes@[level + 1]@[parent as int] == parent_val);
                assert(level_len((k + 1) as nat, (lv + 1) as nat) == parent + 1);
                lemma_row_append(old_leaves, leaf@, (lv + 1) as nat);
                assert forall|i: int| 0 <= i < parent implies (#[trigger] self.nodes@[level
                    + 1]@[i])@ == node_at(nl, (lv + 1) as nat, i as nat) by {
                    assert(self.nodes@[level + 1]@[i] == old(self).nodes@[level + 1]@[i]);
                    assert(i < level_len(k as nat, (lv + 1) as nat));
                    assert(old(self).nodes@[level + 1]@[i]@ == node_at(
                        old_leaves,
                        (lv + 1) as nat,
                        i as nat,
                    ));
                    assert(node_at(nl, (lv + 1) as nat, i as nat) == node_at(
                        old_leaves,
                        (lv + 1) as nat,
                        i as nat,
                    ));
                }
            }
            current = parent_val;
            idx = parent;
            level = level + 1;
        }
        proof {
            assert(index < pow2(30)) by {
                lemma_pow2_le(depth as nat, 30);
                lemma2_to64();
            }
        }
        Ok(index as u32)
    }

    /// The number of leaves inserted so far.
    pub fn leaf_count(&self) -> (r: usize)
        ensures
            r == self.leaf_vals().len(),
    {
        self.leaves.len()
    }

    /// The fixed depth chosen at construction.
    pub fn depth(&self) -> (r: usize)
        ensures
            r == self.spec_depth(),
    {
        self.depth
    }

    /// Collects, leaf to root, each level's sibling value (the zero default
    /// where the sibling is missing) and whether the current node is the
    /// left child.  Fails exactly when no leaf sits at `index`.
    pub fn get_proof(&self, index: u32) -> (r: Result<(Vec<FieldElement>, Vec<bool>), BoundsError>)
        requires
            self.wf(),
        ensures
            r is Ok <==> (index as nat) < self.leaf_vals().len(),
            r matches Ok(p) ==> {
                &&& fe_vals(p.0@) =~= spec_proof_sibs(
                    self.leaf_vals(),
                    self.spec_depth(),
                    index as nat,
                )
                &&& p.1@ =~= spec_proof_bits(self.spec_depth(), index as nat)
                &&& p.0@.len() == self.spec_depth()
                &&& p.1@.len() == self.spec_depth()
            },
            r is Err ==> r == Err::<(Vec<FieldElement>, Vec<bool>), BoundsError>(BoundsError),
    {
        let depth = self.depth;
        if (index as usize) >= self.leaves.len() {
            return Err(BoundsError);
        }
        let ghost vals = self.leaf_vals();
        let mut sibs: Vec<FieldElement> = Vec::new();
        let mut bits: Vec<bool> = Vec::new();
        let mut idx: usize = index as usize;
        let mut level: usize = 0;
        proof {
            lemma2_to64();
            lemma_div_basics(index as int);
        }
        while level < depth
            invariant
                self.wf(),
                self.depth == depth,
                vals == self.leaf_vals(),
                level <= depth,
                (index as nat) < vals.len(),
                idx == (index as nat) / pow2(level as nat),
                idx <= index,
                sibs@.len() == level,
                bits@.len() == level,
                forall|l: int|
                    0 <= l < level ==> (#[trigger] sibs@[l])@ == node_or_zero(
                        vals,
                        l as nat,
                        sibling_index((index as nat) / pow2(l as nat)),
                    ),
                forall|l: int|
                    0 <= l < level ==> #[trigger] bits@[l] == ((index as nat) / pow2(l as nat) % 2
                        == 0),
            decreases depth - level,
        {
            let ghost lv = level as nat;
            let sib: usize = if idx % 2 == 0 {
                idx + 1
            } else {
                idx - 1
            };
            let level_size = self.nodes[level].len();
            let sv: FieldElement = if sib < level_size {
                self.nodes[level][sib]
            } else {
                FieldElement::zero()
            };
            proof {
                lemma_pow2_pos(lv);
                lemma_present_iff(vals.len(), lv, sib as nat);
                assert(sv@ == node_or_zero(vals, lv, sib as nat));
                assert(sib as nat == sibling_index((index as nat) / pow2(lv)));
                lemma_div_pow2_succ(index as nat, lv);
            }
            sibs.push(sv);
            bits.push(idx % 2 == 0);
            idx = idx / 2;
            level = level + 1;
        }
        proof {
            assert(fe_vals(sibs@) =~= spec_proof_sibs(vals, depth as nat, index as nat));
            assert(bits@ =~= spec_proof_bits(depth as nat, index as nat));
        }
        Ok((sibs, bits))
    }

    /// Inserts a whole batch in order.  If the batch would exceed the
    /// remaining capacity, nothing at all is inserted; otherwise the leaves
    /// are appended exactly as by sequential `insert` calls and their
    /// indices returned.
    pub fn insert_batch(&mut self, batch: &[FieldElement]) -> (r: Result<Vec<u32>, CapacityError>)
        requires
            old(self).wf(),
        ensures
            final(self).wf(),
            final(self).spec_depth() == old(self).spec_depth(),
            old(self).leaf_vals().len() + batch@.len() > pow2(old(self).spec_depth()) ==> r
                == Err::<Vec<u32>, CapacityError>(CapacityError) && *final(self) == *old(self),
            old(self).leaf_vals().len() + batch@.len() <= pow2(old(self).spec_depth()) ==> {
                &&& r is Ok
                &&& final(self).leaf_vals() =~= old(self).leaf_vals() + fe_vals(batch@)
                &&& r matches Ok(ix) && ix@.len() == batch@.len() && forall|j: int|
                    0 <= j < batch@.len() ==> (#[trigger] ix@[j]) as nat == old(
                        self,
                    ).leaf_vals().len() + j
            },
    {
        let n = batch.len();
        let available = self.capacity - self.leaves.len();
        if n > available {
            return Err(CapacityError);
        }
        let ghost k0 = self.leaf_vals().len();
        let mut indices: Vec<u32> = Vec::new();
        let mut j: usize = 0;
        while j < n
            invariant
                old(self).wf(),
                self.wf(),
                self.spec_depth() == old(self).spec_depth(),
                n == batch@.len(),
                k0 == old(self).leaf_vals().len(),
                k0 + n <= pow2(self.spec_depth()),
                j <= n,
                self.leaf_vals() =~= old(self).leaf_vals() + fe_vals(batch@.subrange(0, j as int)),
                self.leaf_vals().len() == k0 + j,
                indices@.len() == j,
                forall|m: int| 0 <= m < j ==> (#[trigger] indices@[m]) as nat == k0 + m,
            decreases n - j,
        {
            let ghost before = self.leaf_vals();
            match self.insert(batch[j]) {
                Ok(ix) => {
                    proof {
                        lemma_pow2_le(self.spec_depth(), 30);
                        lemma2_to64();
                        assert(before.len() < pow2(32));
                        assert(fe_vals(batch@.subrange(0, j + 1)) =~= fe_vals(
                            batch@.subrange(0, j as int),
                        ).push(batch@[j as int]@));
                        assert(self.leaf_vals() =~= old(self).leaf_vals() + fe_vals(
                            batch@.subrange(0, j + 1),
                        ));
                    }
                    indices.push(ix);
                },
                Err(_) => {
                    proof {
                        assert(false);
                    }
                },
            }
            j = j + 1;
        }
        proof {
            assert(batch@.subrange(0, n as int) =~= batch@);
        }
        Ok(indices)
    }
}

/// Computes the root that a depth-20 tree holds after inserting the given
/// leaves in order.
pub fn compute_merkle_root(leaves: &[FieldElement]) -> (r: FieldElement)
    requires
        leaves@.len() <= pow2(20),
    ensures
        r@ == spec_root(fe_vals(leaves@), 20),
{
    let mut tree = MerkleTree::new(20);
    let n = leaves.len();
    let mut j: usize = 0;
    proof {
        assert(fe_vals(leaves@.subrange(0, 0)) =~= Seq::<nat>::empty());
    }
    while j < n
        invariant
            tree.wf(),
            tree.spec_depth() == 20,
            n == leaves@.len(),
            n <= pow2(20),
            j <= n,
            tree.leaf_vals() =~= fe_vals(leaves@.subrange(0, j as int)),
        decreases n - j,
    {
        proof {
            assert(fe_vals(leaves@.subrange(0, j as int)).len() == j);
        }
        match tree.insert(leaves[j]) {
            Ok(_) => {
                proof {
                    assert(fe_vals(leaves@.subrange(0, j + 1)) =~= fe_vals(
                        leaves@.subrange(0, j as int),
                    ).push(leaves@[j as int]@));
                }
            },
            Err(_) => {
                proof {
                    assert(false);
                }
            },
        }
        j = j + 1;
    }
    proof {
        assert(leaves@.subrange(0, n as int) =~= leaves@);
    }
    tree.get_root()
}

/// A well-formed tree never holds more than `2^D` leaves.
pub proof fn lemma_tree_capacity(t: &MerkleTree)
    requires
        t.wf(),
    ensures
        t.leaf_vals().len() <= pow2(t.spec_depth()),
{
}

/// A proof delivered by `get_proof` recomputes, from its leaf, exactly the
/// root the tree holds: for every tree state and every inserted leaf index,
/// folding the leaf value through the proof's siblings with its left/right
/// record yields the tree's root.
pub proof fn lemma_merkle_proof_verifies(leaves: Seq<nat>, depth: nat, i: nat)
    requires
        leaves.len() <= pow2(depth),
        i < leaves.len(),
    ensures
        merkle_fold(
            leaves[i as int],
            spec_proof_sibs(leaves, depth, i),
            spec_proof_bits(depth, i),
        ) == spec_root(leaves, depth),
{
    lemma2_to64();
    lemma_div_basics(i as int);
    lemma_fold_from(leaves, depth, i, 0);
    assert(spec_proof_sibs(leaves, depth, i).skip(0) =~= spec_proof_sibs(leaves, depth, i));
    assert(spec_proof_bits(depth, i).skip(0) =~= spec_proof_bits(depth, i));
    assert(node_at(leaves, 0, i / pow2(0)) == leaves[i as int]);
}

/// Folding the proof's levels `l..depth` from the path node at level `l`
/// reaches the root node.
proof fn lemma_fold_from(leaves: Seq<nat>, depth: nat, i: nat, l: nat)
    requires
        leaves.len() <= pow2(depth),
        i < leaves.len(),
        l <= depth,
    ensures
        merkle_fold(
            node_at(leaves, l, i / pow2(l)),
            spec_proof_sibs(leaves, depth, i).skip(l as int),
            spec_proof_bits(depth, i).skip(l as int),
        ) == node_at(leaves, depth, 0),
    decreases depth - l,
{
    let sibs = spec_proof_sibs(leaves, depth, i);
    let bits = spec_proof_bits(depth, i);
    lemma_pow2_pos(l);
    if l == depth {
        lemma_div_bound_small(i, pow2(depth));
        assert(sibs.skip(l as int).len() == 0);
    } else {
        let idx = i / pow2(l);
        let sib = sibling_index(idx);
        lemma_div_pow2_succ(i, l);
        lemma_div_mul_le(i, pow2(l));
        assert(idx * pow2(l) <= i);
        assert(node_or_zero(leaves, l, idx) == node_at(leaves, l, idx));
        assert(sibs.skip(l as int)[0] == node_or_zero(leaves, l, sib));
        assert(bits.skip(l as int)[0] == (idx % 2 == 0));
        let cur = node_at(leaves, l, idx);
        let step = if idx % 2 == 0 {
            hash_pair_val(cur, node_or_zero(leaves, l, sib))
        } else {
            hash_pair_val(node_or_zero(leaves, l, sib), cur)
        };
        if idx % 2 == 0 {
            assert(2 * (idx / 2) == idx);
            assert(sib == 2 * (idx / 2) + 1);
        } else {
            assert(2 * (idx / 2) + 1 == idx);
            assert(sib == 2 * (idx / 2));
        }
        assert(step == node_at(leaves, (l + 1) as nat, idx / 2));
        assert(sibs.skip(l as int).skip(1) =~= sibs.skip(l as int + 1));
        assert(bits.skip(l as int).skip(1) =~= bits.skip(l as int + 1));
        assert(merkle_fold(cur, sibs.skip(l as int), bits.skip(l as int)) == merkle_fold(
            step,
            sibs.skip(l as int + 1),
            bits.skip(l as int + 1),
        ));
        lemma_fold_from(leaves, depth, i, (l + 1) as nat);
    }
}


/// Recomputes the root from a leaf, the per-level siblings and the
/// left/right record, and compares it to `root`.  A malformed proof simply
/// fails to match: this never errors and never mutates.
pub fn verify_merkle_proof(
    leaf: FieldElement,
    siblings: &[FieldElement],
    path_bits: &[bool],
    root: FieldElement,
) -> (r: bool)
    ensures
        r == (merkle_fold(leaf@, fe_vals(siblings@), path_bits@) == root@),
{
    let n: usize = if siblings.len() < path_bits.len() {
        siblings.len()
    } else {
        path_bits.len()
    };
    let mut current = leaf;
    let mut j: usize = 0;
    proof {
        assert(fe_vals(siblings@).skip(0) =~= fe_vals(siblings@));
        assert(path_bits@.skip(0) =~= path_bits@);
    }
    while j < n
        invariant
            n <= siblings@.len(),
            n <= path_bits@.len(),
            n == if siblings@.len() < path_bits@.len() {
                siblings@.len()
            } else {
                path_bits@.len()
            },
            j <= n,
            merkle_fold(leaf@, fe_vals(siblings@), path_bits@) == merkle_fold(
                current@,
                fe_vals(siblings@).skip(j as int),
                path_bits@.skip(j as int),
            ),
        decreases n - j,
    {
        let sib = siblings[j];
        let next = if path_bits[j] {
            hash_pair(&current, &sib)
        } else {
            hash_pair(&sib, &current)
        };
        proof {
            let sv = fe_vals(siblings@);
            let bv = path_bits@;
            assert(sv.skip(j as int).len() > 0 && bv.skip(j as int).len() > 0);
            assert(sv.skip(j as int)[0] == sv[j as int]);
            assert(bv.skip(j as int)[0] == bv[j as int]);
            assert(sv.skip(j as int).skip(1) =~= sv.skip(j + 1));
            assert(bv.skip(j as int).skip(1) =~= bv.skip(j + 1));
        }
        current = next;
        j = j + 1;
    }
    proof {
        let sv = fe_vals(siblings@);
        let bv = path_bits@;
        assert(sv.skip(n as int).len() == 0 || bv.skip(n as int).len() == 0);
        crate::field::lemma_fe_view_injective(current, root);
    }
    current == root
}

} // verus!
