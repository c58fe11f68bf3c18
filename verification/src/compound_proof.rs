use vstd::prelude::*;

use crate::hashing::digest_eq;
use crate::hashing::Algorithm;
use crate::proofs::fill_level;
use crate::proofs::spec_validate;
use crate::proofs::Proof;

verus! {

/// Compound Merkle inclusion proof.
///
/// A compound proof composes an inner proof within one sub-tree with a
/// single top-layer combination step to the compound root: a small proof
/// of its own arity that `Proof` cannot express (its lemma is always
/// exactly two levels deep — the sibling sub-tree roots, then the root).
#[derive(Debug, Clone, PartialEq, Eq)]
pub struct CompoundProof {
    sub_tree_proof: Proof,
    top_layer_nodes: usize,
    lemma: Vec<Vec<Vec<u8>>>,
    path: Vec<usize>,
}

impl CompoundProof {
    /// The embedded sub-tree proof.
    pub closed spec fn spec_sub_tree_proof(&self) -> Proof {
        self.sub_tree_proof
    }

    /// The stored top-layer levels: the sibling sub-tree roots, then the
    /// singleton compound root.
    pub closed spec fn spec_lemma(&self) -> Seq<Seq<Seq<u8>>> {
        self.lemma.deep_view()
    }

    /// The stored top-layer position of the target sub-tree.
    pub closed spec fn spec_path(&self) -> Seq<usize> {
        self.path@
    }

    /// The top-layer arity the proof was generated for.
    pub closed spec fn spec_top_layer_nodes(&self) -> int {
        self.top_layer_nodes as int
    }

    /// The root of the target sub-tree, as the embedded proof claims it.
    pub open spec fn spec_sub_root(&self) -> Seq<u8> {
        self.spec_sub_tree_proof().spec_root()
    }

    /// The compound root the proof claims.
    pub open spec fn spec_root(&self) -> Seq<u8> {
        self.spec_lemma()[self.spec_lemma().len() - 1][0]
    }

    /// Internal consistency of the top layer against the stored arity: two
    /// levels exactly, one sibling root short of the arity, a position
    /// within the arity, and a non-empty root level. Construction stores
    /// its arguments verbatim, so the proof-generating tree must ensure
    /// this; validation requires it of every proof whose embedded
    /// sub-tree proof replays to its own root.
    pub open spec fn top_consistent(&self) -> bool {
        &&& self.spec_top_layer_nodes() >= 1
        &&& self.spec_lemma().len() == 2
        &&& self.spec_path().len() >= 1
        &&& self.spec_path()[0] < self.spec_top_layer_nodes()
        &&& self.spec_lemma()[0].len() == self.spec_top_layer_nodes() - 1
        &&& self.spec_lemma()[1].len() >= 1
    }

    /// Whether the embedded sub-tree proof replays to its own root.
    pub open spec fn spec_sub_validates<A: Algorithm>(&self) -> bool {
        spec_validate::<A>(
            self.spec_sub_tree_proof().spec_lemma(),
            self.spec_sub_tree_proof().spec_path(),
            self.spec_sub_tree_proof().spec_branches(),
        )
    }

    /// Whether one top-layer combination step — the sibling sub-tree roots
    /// filled around the target sub-tree's root at the recorded position,
    /// combined with level tag 0 — reaches the claimed compound root.
    pub open spec fn spec_top_validates<A: Algorithm>(&self) -> bool {
        A::spec_multi_node(
            fill_level(
                self.spec_lemma()[0],
                self.spec_sub_root(),
                self.spec_path()[0] as int,
                self.spec_top_layer_nodes(),
            ),
            0,
        ) == self.spec_root()
    }

    /// Whether the whole compound proof validates: the sub-tree proof
    /// replays to its own root, and the top layer reaches the compound
    /// root.
    pub open spec fn spec_validates<A: Algorithm>(&self) -> bool {
        self.spec_sub_validates::<A>() && self.spec_top_validates::<A>()
    }

    /// Creates a new compound inclusion proof. The parts are stored
    /// verbatim; no shape check happens here — it is deferred to
    /// validation.
    pub fn new(
        sub_tree_proof: Proof,
        top_layer_nodes: usize,
        lemma: Vec<Vec<Vec<u8>>>,
        path: Vec<usize>,
    ) -> (r: CompoundProof)
        ensures
            r.spec_sub_tree_proof() == sub_tree_proof,
            r.spec_top_layer_nodes() == top_layer_nodes as int,
            r.spec_lemma() == lemma.deep_view(),
            r.spec_path() == path@,
    {
        CompoundProof { sub_tree_proof, top_layer_nodes, lemma, path }
    }

    /// Returns the embedded sub-tree proof.
    pub fn sub_tree_proof(&self) -> (r: &Proof)
        ensures
            r == self.spec_sub_tree_proof(),
    {
        &self.sub_tree_proof
    }

    /// Returns the top-layer path of this proof.
    pub fn path(&self) -> (r: &Vec<usize>)
        ensures
            r@ == self.spec_path(),
    {
        &self.path
    }

    /// Returns the top-layer lemma of this proof.
    pub fn lemma(&self) -> (r: &Vec<Vec<Vec<u8>>>)
        ensures
            r.deep_view() == self.spec_lemma(),
    {
        &self.lemma
    }

    /// Returns the root of the target sub-tree.
    pub fn sub_tree_root(&self) -> (r: Vec<u8>)
        requires
            self.spec_sub_tree_proof().spec_lemma().len() >= 1,
            self.spec_sub_tree_proof().spec_lemma()[self.spec_sub_tree_proof().spec_lemma().len()
                - 1].len() >= 1,
        ensures
            r@ == self.spec_sub_root(),
    {
        self.sub_tree_proof.root()
    }

    /// Returns the compound tree root.
    pub fn root(&self) -> (r: Vec<u8>)
        requires
            self.spec_lemma().len() >= 1,
            self.spec_lemma()[self.spec_lemma().len() - 1].len() >= 1,
        ensures
            r@ == self.spec_root(),
    {
        let last = self.lemma.len() - 1;
        crate::proofs::copy_digest_at(&self.lemma, last, 0)
    }

    /// Verifies the compound inclusion proof: the embedded sub-tree proof
    /// must replay to its own root, and recombining that root with the
    /// stored sibling sub-tree roots at the recorded position — with level
    /// tag 0 — must reach the claimed compound root.
    pub fn validate<A: Algorithm>(&self) -> (r: bool)
        requires
            self.spec_sub_tree_proof().consistent(),
            self.spec_sub_validates::<A>() ==> self.top_consistent(),
        ensures
            r == self.spec_validates::<A>(),
    {
        // Ensure that the sub-tree proof validates to the root of that
        // sub-tree.
        if !self.sub_tree_proof.validate::<A>() {
            return false;
        }

        let top_layer_nodes = self.top_layer_nodes;
        let mut a = A::create();
        a.reset();

        let sub_root = self.sub_tree_proof.root();
        let pos = self.path[0];
        let mut nodes: Vec<Vec<u8>> = Vec::new();
        let mut cur_index: usize = 0;
        let mut j: usize = 0;
        while j < top_layer_nodes
            invariant
                0 <= j <= top_layer_nodes,
                self.top_consistent(),
                top_layer_nodes == self.spec_top_layer_nodes(),
                pos == self.spec_path()[0],
                pos < top_layer_nodes,
                sub_root@ == self.spec_sub_root(),
                cur_index == if j <= pos {
                    j
                } else {
                    (j - 1) as usize
                },
                nodes@.len() == j,
                nodes.deep_view() == fill_level(
                    self.spec_lemma()[0],
                    sub_root@,
                    pos as int,
                    top_layer_nodes as int,
                ).subrange(0, j as int),
            decreases top_layer_nodes - j,
        {
            if j == pos {
                nodes.push(crate::hashing::copy_digest(&sub_root));
            } else {
                nodes.push(crate::proofs::copy_digest_at(&self.lemma, 0, cur_index));
                cur_index = cur_index + 1;
            }
            proof {
                assert(nodes.deep_view() =~~= fill_level(
                    self.spec_lemma()[0],
                    sub_root@,
                    pos as int,
                    top_layer_nodes as int,
                ).subrange(0, j + 1));
            }
            j = j + 1;
        }
        proof {
            assert(nodes.deep_view() =~~= fill_level(
                self.spec_lemma()[0],
                sub_root@,
                pos as int,
                top_layer_nodes as int,
            ));
        }
        let h = a.multi_node(&nodes, 0);

        let root = self.root();
        digest_eq(&h, &root)
    }
}

} // verus!
