use core::marker::PhantomData;

use vstd::prelude::*;

use crate::compound_proof::CompoundProof;
use crate::error::Error;
use crate::hashing::Algorithm;
use crate::proofs::fill_level;
use crate::single_tree::spec_siblings;
use crate::single_tree::SingleTree;

verus! {

/// The roots of the given trees, in tree order.
pub open spec fn spec_roots<A: Algorithm, S: SingleTree<A>>(trees: Seq<S>) -> Seq<Seq<u8>> {
    Seq::new(trees.len(), |t: int| trees[t].spec_root())
}

/// Whether every tree has the first tree's height.
pub open spec fn spec_heights_match<A: Algorithm, S: SingleTree<A>>(trees: Seq<S>) -> bool {
    forall|t: int|
        0 <= t < trees.len() ==> (#[trigger] trees[t]).spec_height() == trees[0].spec_height()
}

/// Whether every tree has the first tree's length.
pub open spec fn spec_lens_match<A: Algorithm, S: SingleTree<A>>(trees: Seq<S>) -> bool {
    forall|t: int|
        0 <= t < trees.len() ==> (#[trigger] trees[t]).spec_len() == trees[0].spec_len()
}

/// Whether every tree has the first tree's leaf count.
pub open spec fn spec_leafs_match<A: Algorithm, S: SingleTree<A>>(trees: Seq<S>) -> bool {
    forall|t: int|
        0 <= t < trees.len() ==> (#[trigger] trees[t]).spec_leafs() == trees[0].spec_leafs()
}

/// Whether a collection of sub-trees fits one compound tree of top-layer
/// arity `n`: the count matches, and every tree has the first tree's
/// height, length and leaf count.
pub open spec fn spec_congruent<A: Algorithm, S: SingleTree<A>>(trees: Seq<S>, n: int) -> bool {
    &&& trees.len() == n
    &&& spec_heights_match::<A, S>(trees)
    &&& spec_lens_match::<A, S>(trees)
    &&& spec_leafs_match::<A, S>(trees)
}

/// Compound Merkle tree: a fixed-size, ordered collection of congruent
/// single trees under one extra combination level whose digest is the
/// compound root, tagged with level 1.
///
/// The structure is built once from already constructed sub-trees and is
/// immutable afterwards; proofs are generated by delegating to the target
/// sub-tree and assembling the top layer here.
#[derive(Debug)]
pub struct CompoundMerkleTree<A: Algorithm, S: SingleTree<A>> {
    trees: Vec<S>,
    top_layer_nodes: usize,
    len: usize,
    leafs: usize,
    height: usize,
    root: Vec<u8>,
    _a: PhantomData<A>,
}

impl<A: Algorithm, S: SingleTree<A>> CompoundMerkleTree<A, S> {
    /// The owned sub-trees, in order.
    pub closed spec fn spec_trees(&self) -> Seq<S> {
        self.trees@
    }

    /// The stored top-layer arity.
    pub closed spec fn spec_top_layer_nodes(&self) -> usize {
        self.top_layer_nodes
    }

    /// The stored total node count.
    pub closed spec fn spec_len(&self) -> usize {
        self.len
    }

    /// The stored total leaf count.
    pub closed spec fn spec_leafs(&self) -> usize {
        self.leafs
    }

    /// The stored height.
    pub closed spec fn spec_height(&self) -> usize {
        self.height
    }

    /// The stored compound root.
    pub closed spec fn spec_root(&self) -> Seq<u8> {
        self.root@
    }

    /// Well-formedness, established by construction: a positive arity, a
    /// congruent collection of well-formed sub-trees of that count, and
    /// the derived geometry — leaf and node counts summed over the
    /// sub-trees (plus one for the root), height one above a sub-tree's,
    /// and the root the combination of all sub-tree roots at level tag 1.
    pub open spec fn wf(&self) -> bool {
        let ts = self.spec_trees();
        let n = self.spec_top_layer_nodes() as int;
        &&& n >= 1
        &&& forall|t: int| 0 <= t < ts.len() ==> (#[trigger] ts[t]).inv()
        &&& spec_congruent::<A, S>(ts, n)
        &&& self.spec_leafs() as int == n * ts[0].spec_leafs()
        &&& self.spec_len() as int == n * ts[0].spec_len() + 1
        &&& self.spec_height() as int == ts[0].spec_height() + 1
        &&& self.spec_root() == A::spec_multi_node(spec_roots(ts), 1)
    }

    /// Creates a new compound Merkle tree from a vector of single trees.
    ///
    /// The collection must hold exactly `top_layer_nodes` trees, and all
    /// trees must share the first tree's height, length and leaf count;
    /// each violation is rejected with its own error value, checked in
    /// that order. On success the geometry is derived and the compound
    /// root is the combination of all sub-tree roots at level tag 1.
    pub fn new(trees: Vec<S>, top_layer_nodes: usize) -> (r: Result<
        CompoundMerkleTree<A, S>,
        Error,
    >)
        requires
            top_layer_nodes >= 1,
            forall|t: int| 0 <= t < trees@.len() ==> (#[trigger] trees@[t]).inv(),
            spec_congruent::<A, S>(trees@, top_layer_nodes as int) ==> {
                &&& top_layer_nodes * trees@[0].spec_leafs() <= usize::MAX
                &&& top_layer_nodes * trees@[0].spec_len() + 1 <= usize::MAX
                &&& trees@[0].spec_height() + 1 <= usize::MAX
            },
        ensures
            match r {
                Ok(tree) => {
                    &&& spec_congruent::<A, S>(trees@, top_layer_nodes as int)
                    &&& tree.wf()
                    &&& tree.spec_trees() == trees@
                    &&& tree.spec_top_layer_nodes() == top_layer_nodes
                    &&& tree.spec_root() == A::spec_multi_node(spec_roots(trees@), 1)
                },
                Err(e) => {
                    &&& !spec_congruent::<A, S>(trees@, top_layer_nodes as int)
                    &&& e == if trees@.len() != top_layer_nodes {
                        Error::WrongSubTreeCount {
                            given: trees@.len() as usize,
                            expected: top_layer_nodes,
                        }
                    } else if !spec_heights_match::<A, S>(trees@) {
                        Error::MismatchedHeight
                    } else if !spec_lens_match::<A, S>(trees@) {
                        Error::MismatchedLength
                    } else {
                        Error::MismatchedLeafCount
                    }
                },
            },
    {
        let n = top_layer_nodes;
        if trees.len() != n {
            return Err(Error::WrongSubTreeCount { given: trees.len(), expected: n });
        }

        let h0 = trees[0].height();
        let mut t: usize = 1;
        while t < n
            invariant
                1 <= t <= n,
                n == top_layer_nodes,
                n == trees@.len(),
                forall|u: int| 0 <= u < trees@.len() ==> (#[trigger] trees@[u]).inv(),
                h0 == trees@[0].spec_height(),
                forall|u: int|
                    0 <= u < t ==> (#[trigger] trees@[u]).spec_height()
                        == trees@[0].spec_height(),
            decreases n - t,
        {
            if trees[t].height() != h0 {
                proof {
                    assert(trees@[t as int].spec_height() != trees@[0].spec_height());
                    assert(!spec_heights_match::<A, S>(trees@));
                }
                return Err(Error::MismatchedHeight);
            }
            t = t + 1;
        }

        let len0 = trees[0].len();
        let mut t: usize = 1;
        while t < n
            invariant
                1 <= t <= n,
                n == top_layer_nodes,
                n == trees@.len(),
                forall|u: int| 0 <= u < trees@.len() ==> (#[trigger] trees@[u]).inv(),
                len0 == trees@[0].spec_len(),
                forall|u: int|
                    0 <= u < trees@.len() ==> (#[trigger] trees@[u]).spec_height()
                        == trees@[0].spec_height(),
                forall|u: int|
                    0 <= u < t ==> (#[trigger] trees@[u]).spec_len() == trees@[0].spec_len(),
            decreases n - t,
        {
            if trees[t].len() != len0 {
                proof {
                    assert(trees@[t as int].spec_len() != trees@[0].spec_len());
                    assert(!spec_lens_match::<A, S>(trees@));
                    assert(spec_heights_match::<A, S>(trees@));
                }
                return Err(Error::MismatchedLength);
            }
            t = t + 1;
        }

        // congruent heights and lengths are meant to force equal leaf
        // counts; that implication is checked explicitly rather than
        // relied upon, since index routing depends on it
        let l0 = trees[0].leafs();
        let mut t: usize = 1;
        while t < n
            invariant
                1 <= t <= n,
                n == top_layer_nodes,
                n == trees@.len(),
                forall|u: int| 0 <= u < trees@.len() ==> (#[trigger] trees@[u]).inv(),
                l0 == trees@[0].spec_leafs(),
                forall|u: int|
                    0 <= u < trees@.len() ==> (#[trigger] trees@[u]).spec_height()
                        == trees@[0].spec_height(),
                forall|u: int|
                    0 <= u < trees@.len() ==> (#[trigger] trees@[u]).spec_len()
                        == trees@[0].spec_len(),
                forall|u: int|
                    0 <= u < t ==> (#[trigger] trees@[u]).spec_leafs() == trees@[0].spec_leafs(),
            decreases n - t,
        {
            if trees[t].leafs() != l0 {
                proof {
                    assert(trees@[t as int].spec_leafs() != trees@[0].spec_leafs());
                    assert(!spec_leafs_match::<A, S>(trees@));
                    assert(spec_heights_match::<A, S>(trees@));
                    assert(spec_lens_match::<A, S>(trees@));
                }
                return Err(Error::MismatchedLeafCount);
            }
            t = t + 1;
        }

        // total leaf and node counts are the sums over all sub-trees
        let mut leafs_total: usize = 0;
        let mut len_total: usize = 0;
        let mut t: usize = 0;
        while t < n
            invariant
                t <= n,
                n == top_layer_nodes,
                n == trees@.len(),
                spec_congruent::<A, S>(trees@, n as int),
                forall|u: int| 0 <= u < trees@.len() ==> (#[trigger] trees@[u]).inv(),
                l0 == trees@[0].spec_leafs(),
                len0 == trees@[0].spec_len(),
                n * l0 <= usize::MAX,
                n * len0 + 1 <= usize::MAX,
                leafs_total == t * l0,
                len_total == t * len0,
            decreases n - t,
        {
            proof {
                assert((t + 1) * l0 <= n * l0 && (t + 1) * len0 <= n * len0)
                    by (nonlinear_arith)
                    requires
                        t + 1 <= n,
                        l0 >= 0,
                        len0 >= 0,
                ;
                assert(t * l0 + l0 == (t + 1) * l0) by (nonlinear_arith);
                assert(t * len0 + len0 == (t + 1) * len0) by (nonlinear_arith);
            }
            leafs_total = leafs_total + trees[t].leafs();
            len_total = len_total + trees[t].len();
            t = t + 1;
        }
        let total_len = len_total + 1;
        let total_height = h0 + 1;

        // the compound root combines the sub-tree roots with level tag 1
        let mut roots: Vec<Vec<u8>> = Vec::new();
        let mut t: usize = 0;
        while t < n
            invariant
                t <= n,
                n == top_layer_nodes,
                n == trees@.len(),
                forall|u: int| 0 <= u < trees@.len() ==> (#[trigger] trees@[u]).inv(),
                roots@.len() == t,
                roots.deep_view() == spec_roots(trees@).subrange(0, t as int),
            decreases n - t,
        {
            roots.push(trees[t].root());
            proof {
                assert(roots.deep_view() =~~= spec_roots(trees@).subrange(0, t + 1));
            }
            t = t + 1;
        }
        proof {
            assert(roots.deep_view() =~~= spec_roots(trees@));
        }
        let mut alg = A::create();
        let root = alg.multi_node(&roots, 1);

        Ok(
            CompoundMerkleTree {
                trees,
                top_layer_nodes: n,
                len: total_len,
                leafs: leafs_total,
                height: total_height,
                root,
                _a: PhantomData,
            },
        )
    }

    /// Generates the compound inclusion proof for leaf `i`.
    ///
    /// An index at or past the total leaf count is rejected with a bounds
    /// error naming the index and the bound. Otherwise the index routes to
    /// sub-tree `i / L` at local leaf `i % L` — `L` being the per-tree
    /// leaf count — whose own proof is composed with the sibling sub-tree
    /// roots, in ascending tree order, and the compound root. The result
    /// validates exactly when the combination of all sub-tree roots at
    /// level tag 0 (used by validation) equals their combination at level
    /// tag 1 (used at construction).
    pub fn gen_proof(&self, i: usize) -> (r: Result<CompoundProof, Error>)
        requires
            self.wf(),
        ensures
            match r {
                Ok(p) => {
                    &&& i < self.spec_leafs()
                    &&& p.spec_top_layer_nodes() == self.spec_top_layer_nodes() as int
                    &&& p.spec_path().len() == 1
                    &&& p.spec_path()[0] as int == i as int / (self.spec_trees()[0].spec_leafs()
                        as int)
                    &&& p.spec_sub_tree_proof().consistent()
                    &&& p.spec_sub_tree_proof().spec_item()[0] == self.spec_trees()[p.spec_path()[0]
                        as int].spec_leaf_hash((i as int % (self.spec_trees()[0].spec_leafs()
                        as int)))
                    &&& p.spec_sub_validates::<A>()
                    &&& p.spec_sub_root() == self.spec_trees()[p.spec_path()[0] as int].spec_root()
                    &&& p.top_consistent()
                    &&& p.spec_lemma()[0] == spec_siblings(
                        spec_roots(self.spec_trees()),
                        0,
                        p.spec_path()[0] as int,
                        self.spec_top_layer_nodes() as int,
                    )
                    &&& p.spec_root() == self.spec_root()
                    &&& p.spec_validates::<A>() == (A::spec_multi_node(
                        spec_roots(self.spec_trees()),
                        0,
                    ) == A::spec_multi_node(spec_roots(self.spec_trees()), 1))
                },
                Err(e) => {
                    &&& i >= self.spec_leafs()
                    &&& e == (Error::IndexOutOfBounds { index: i, bound: self.spec_leafs() })
                },
            },
    {
        if i >= self.leafs {
            return Err(Error::IndexOutOfBounds { index: i, bound: self.leafs });
        }
        let n = self.top_layer_nodes;
        let ghost big_l = self.spec_trees()[0].spec_leafs() as int;

        // locate the sub-tree the leaf is contained in
        let per_tree = self.leafs / n;
        proof {
            vstd::arithmetic::div_mod::lemma_fundamental_div_mod(self.leafs as int, n as int);
            vstd::arithmetic::div_mod::lemma_mod_bound(self.leafs as int, n as int);
            assert(per_tree as int == big_l) by (nonlinear_arith)
                requires
                    n as int * (per_tree as int) + (self.leafs as int % n as int) == self.leafs
                        as int,
                    self.leafs as int == n as int * big_l,
                    self.leafs as int % n as int >= 0,
                    (self.leafs as int % n as int) < n as int,
                    n >= 1,
                    big_l >= 0,
                    per_tree >= 0,
            ;
        }
        let tree_index = i / per_tree;
        proof {
            assert(big_l >= 1) by (nonlinear_arith)
                requires
                    n as int * big_l > 0,
                    n >= 1,
                    big_l >= 0,
            ;
            vstd::arithmetic::div_mod::lemma_fundamental_div_mod(i as int, per_tree as int);
            vstd::arithmetic::div_mod::lemma_mod_bound(i as int, per_tree as int);
            assert(tree_index < n) by (nonlinear_arith)
                requires
                    i as int == per_tree as int * (tree_index as int) + (i as int % per_tree
                        as int),
                    i as int % per_tree as int >= 0,
                    (i as int % per_tree as int) < per_tree as int,
                    (i as int) < n as int * per_tree as int,
                    per_tree >= 1,
                    tree_index >= 0,
            ;
        }
        let tree = &self.trees[tree_index];
        let tree_leafs = tree.leafs();

        // the leaf index within the sub-tree
        let leaf_index = i % tree_leafs;
        proof {
            vstd::arithmetic::div_mod::lemma_mod_bound(i as int, tree_leafs as int);
        }

        // the sub-tree proof validates to that sub-tree's root, with the
        // branching factor of the sub-trees
        let sub_tree_proof = match tree.gen_proof(leaf_index) {
            Ok(p) => p,
            // not taken: the local index is within the sub-tree's leaf count
            Err(e) => {
                proof {
                    assert(false);
                }
                return Err(e);
            },
        };

        // the sibling sub-tree roots, in ascending tree order
        let mut lemmas: Vec<Vec<u8>> = Vec::new();
        let mut t: usize = 0;
        while t < n
            invariant
                t <= n,
                self.wf(),
                n == self.spec_top_layer_nodes(),
                n == self.spec_trees().len(),
                tree_index < n,
                lemmas@.len() == if t <= tree_index {
                    t as int
                } else {
                    t - 1
                },
                lemmas.deep_view() == spec_siblings(
                    spec_roots(self.spec_trees()),
                    0,
                    tree_index as int,
                    n as int,
                ).subrange(
                    0,
                    if t <= tree_index {
                        t as int
                    } else {
                        t - 1
                    },
                ),
            decreases n - t,
        {
            if t != tree_index {
                lemmas.push(self.trees[t].root());
                proof {
                    assert(lemmas.deep_view() =~~= spec_siblings(
                        spec_roots(self.spec_trees()),
                        0,
                        tree_index as int,
                        n as int,
                    ).subrange(
                        0,
                        if t + 1 <= tree_index {
                            t + 1
                        } else {
                            t as int
                        },
                    ));
                }
            }
            t = t + 1;
        }
        proof {
            assert(lemmas.deep_view() =~~= spec_siblings(
                spec_roots(self.spec_trees()),
                0,
                tree_index as int,
                n as int,
            ));
        }

        // the top layer: the sibling roots, then the compound root
        let mut lemma: Vec<Vec<Vec<u8>>> = Vec::new();
        let mut path: Vec<usize> = Vec::new();
        lemma.push(lemmas);
        let mut root_level: Vec<Vec<u8>> = Vec::new();
        root_level.push(crate::hashing::copy_digest(&self.root));
        lemma.push(root_level);
        path.push(tree_index);

        let p = CompoundProof::new(sub_tree_proof, n, lemma, path);
        proof {
            assert(p.spec_lemma() =~~= seq![
                spec_siblings(spec_roots(self.spec_trees()), 0, tree_index as int, n as int),
                seq![self.spec_root()],
            ]);
            assert(p.spec_path() =~= seq![tree_index]);
            assert(fill_level(
                p.spec_lemma()[0],
                p.spec_sub_root(),
                tree_index as int,
                n as int,
            ) =~~= spec_roots(self.spec_trees()));
        }
        Ok(p)
    }

    /// Returns the top-layer arity.
    pub fn top_layer_nodes(&self) -> (r: usize)
        ensures
            r == self.spec_top_layer_nodes(),
    {
        self.top_layer_nodes
    }

    /// Returns the total node count, the compound root included.
    pub fn len(&self) -> (r: usize)
        ensures
            r == self.spec_len(),
    {
        self.len
    }

    /// Returns whether the tree holds no nodes.
    pub fn is_empty(&self) -> (r: bool)
        ensures
            r == (self.spec_len() == 0),
    {
        self.len == 0
    }

    /// Returns the total leaf count.
    pub fn leafs(&self) -> (r: usize)
        ensures
            r == self.spec_leafs(),
    {
        self.leafs
    }

    /// Returns the height: a sub-tree's height plus the root layer.
    pub fn height(&self) -> (r: usize)
        ensures
            r == self.spec_height(),
    {
        self.height
    }

    /// Returns an owned copy of the compound root.
    pub fn root(&self) -> (r: Vec<u8>)
        ensures
            r@ == self.spec_root(),
    {
        crate::hashing::copy_digest(&self.root)
    }
}

/// The compound root depends on nothing but the sub-tree roots: two
/// well-formed compound trees whose sub-trees have pairwise equal roots
/// share one compound root, whatever else may differ between them.
pub proof fn lemma_root_deterministic<A: Algorithm, S: SingleTree<A>>(
    t1: CompoundMerkleTree<A, S>,
    t2: CompoundMerkleTree<A, S>,
)
    requires
        t1.wf(),
        t2.wf(),
        spec_roots(t1.spec_trees()) == spec_roots(t2.spec_trees()),
    ensures
        t1.spec_root() == t2.spec_root(),
{
}

} // verus!
