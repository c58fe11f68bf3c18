use vstd::prelude::*;

use crate::hashing::digest_eq;
use crate::hashing::Algorithm;

verus! {

/// The ordered list of `branches` candidate children at one combination
/// step: the running hash sits at index `pos`, and the stored siblings fill
/// every other slot in order.
pub open spec fn fill_level(
    siblings: Seq<Seq<u8>>,
    running: Seq<u8>,
    pos: int,
    branches: int,
) -> Seq<Seq<u8>> {
    Seq::new(
        branches as nat,
        |j: int|
            if j == pos {
                running
            } else if j < pos {
                siblings[j]
            } else {
                siblings[j - 1]
            },
    )
}

/// The running hash after replaying the first `steps` combination steps of
/// a proof, starting from the leaf commitment at `lemma[0][0]`. Step `s`
/// (counted from 1) fills a level from `lemma[s]` around the previous
/// running hash at position `path[s - 1]` and combines it with level tag
/// `s - 1`.
pub open spec fn replay<A: Algorithm>(
    lemma: Seq<Seq<Seq<u8>>>,
    path: Seq<usize>,
    branches: int,
    steps: int,
) -> Seq<u8>
    decreases steps,
{
    if steps <= 0 {
        lemma[0][0]
    } else {
        A::spec_multi_node(
            fill_level(
                lemma[steps],
                replay::<A>(lemma, path, branches, steps - 1),
                path[steps - 1] as int,
                branches,
            ),
            (steps - 1) as nat,
        )
    }
}

/// Whether replaying all of a proof's combination steps reaches the root it
/// claims in its last level.
pub open spec fn spec_validate<A: Algorithm>(
    lemma: Seq<Seq<Seq<u8>>>,
    path: Seq<usize>,
    branches: int,
) -> bool {
    lemma.len() >= 2 && replay::<A>(lemma, path, branches, lemma.len() - 2) == lemma[lemma.len()
        - 1][0]
}

/// `replay` reads only `lemma[0 ..= steps]` and `path[0 .. steps]`, so two
/// proofs that agree on that prefix replay to the same running hash.
pub proof fn lemma_replay_prefix<A: Algorithm>(
    lemma1: Seq<Seq<Seq<u8>>>,
    path1: Seq<usize>,
    lemma2: Seq<Seq<Seq<u8>>>,
    path2: Seq<usize>,
    branches: int,
    steps: int,
)
    requires
        0 <= steps < lemma1.len(),
        steps <= lemma2.len(),
        steps <= path1.len(),
        steps <= path2.len(),
        forall|i: int| 0 <= i <= steps ==> lemma1[i] == lemma2[i],
        forall|i: int| 0 <= i < steps ==> path1[i] == path2[i],
    ensures
        replay::<A>(lemma1, path1, branches, steps) == replay::<A>(lemma2, path2, branches, steps),
    decreases steps,
{
    if steps > 0 {
        lemma_replay_prefix::<A>(lemma1, path1, lemma2, path2, branches, steps - 1);
    }
}

/// Merkle tree inclusion proof for one data element, for which
/// `item = Leaf(Hash(Data Item))`.
///
/// The lemma holds one level per combination step: level 0 is the singleton
/// leaf commitment, the last level is the singleton root, and each level in
/// between holds exactly `branches - 1` sibling digests — the running hash
/// is the missing entry, and `path` records the index at which it belongs
/// among the `branches` children of that step. Validation replays the
/// combination function along the path and compares the outcome with the
/// root.
#[derive(Debug, Clone, PartialEq, Eq)]
pub struct Proof {
    branches: usize,
    lemma: Vec<Vec<Vec<u8>>>,
    path: Vec<usize>,
}

impl Proof {
    /// The stored levels, each a sequence of digests.
    pub closed spec fn spec_lemma(&self) -> Seq<Seq<Seq<u8>>> {
        self.lemma.deep_view()
    }

    /// The stored per-step positions of the running hash.
    pub closed spec fn spec_path(&self) -> Seq<usize> {
        self.path@
    }

    /// The branching factor the proof was generated for.
    pub closed spec fn spec_branches(&self) -> int {
        self.branches as int
    }

    /// The leaf commitment the proof speaks about.
    pub open spec fn spec_item(&self) -> Seq<Seq<u8>> {
        self.spec_lemma()[0]
    }

    /// The root the proof claims.
    pub open spec fn spec_root(&self) -> Seq<u8> {
        self.spec_lemma()[self.spec_lemma().len() - 1][0]
    }

    /// The shape every proof has on leaving `new`: more than two levels,
    /// and one path entry per intermediate level.
    pub open spec fn shaped(&self) -> bool {
        &&& self.spec_lemma().len() > 2
        &&& self.spec_path().len() == self.spec_lemma().len() - 2
    }

    /// Internal consistency between the stored levels and the stored arity:
    /// the shape of `new`, a positive branching factor, non-empty first and
    /// last levels, exactly `branches - 1` siblings per intermediate level,
    /// and every path entry within the arity. `new` stores its arguments
    /// verbatim and does not re-check the levels against the arity, so the
    /// proof-generating tree must ensure this; validation requires it.
    pub open spec fn consistent(&self) -> bool {
        &&& self.shaped()
        &&& self.spec_branches() >= 1
        &&& self.spec_item().len() >= 1
        &&& self.spec_lemma()[self.spec_lemma().len() - 1].len() >= 1
        &&& forall|i: int|
            1 <= i < self.spec_lemma().len() - 1 ==> (#[trigger] self.spec_lemma()[i]).len()
                == self.spec_branches() - 1
        &&& forall|i: int|
            0 <= i < self.spec_path().len() ==> (#[trigger] self.spec_path()[i])
                < self.spec_branches()
    }

    /// Creates a new inclusion proof over the given levels and path, for
    /// the given branching factor. The levels are stored verbatim; their
    /// widths are not re-validated against the arity, so callers must
    /// ensure consistency.
    pub fn new(branches: usize, lemma: Vec<Vec<Vec<u8>>>, path: Vec<usize>) -> (r: Proof)
        requires
            lemma@.len() > 2,
            path@.len() == lemma@.len() - 2,
        ensures
            r.spec_branches() == branches as int,
            r.spec_lemma() == lemma.deep_view(),
            r.spec_path() == path@,
            r.shaped(),
    {
        Proof { branches, lemma, path }
    }

    /// Returns the proof target leaf level.
    pub fn item(&self) -> (r: Vec<Vec<u8>>)
        requires
            self.spec_lemma().len() >= 1,
        ensures
            r.deep_view() == self.spec_item(),
    {
        crate::hashing::copy_level(&self.lemma[0])
    }

    /// Returns the tree root the proof claims.
    pub fn root(&self) -> (r: Vec<u8>)
        requires
            self.spec_lemma().len() >= 1,
            self.spec_lemma()[self.spec_lemma().len() - 1].len() >= 1,
        ensures
            r@ == self.spec_root(),
    {
        let last = self.lemma.len() - 1;
        copy_digest_at(&self.lemma, last, 0)
    }

    /// Verifies the inclusion proof: replays the combination function
    /// bottom-up along the recorded path and compares the outcome with the
    /// claimed root.
    pub fn validate<A: Algorithm>(&self) -> (r: bool)
        requires
            self.consistent(),
        ensures
            r == spec_validate::<A>(self.spec_lemma(), self.spec_path(), self.spec_branches()),
    {
        let size = self.lemma.len();
        if size < 2 {
            return false;
        }

        let mut a = A::create();
        let mut h: Vec<u8> = copy_digest_at(&self.lemma, 0, 0);

        let branches = self.branches;
        let mut i: usize = 1;
        while i < size - 1
            invariant
                1 <= i <= size - 1,
                size == self.spec_lemma().len(),
                size > 2,
                self.consistent(),
                branches == self.spec_branches(),
                h@ == replay::<A>(self.spec_lemma(), self.spec_path(), branches as int, i - 1),
            decreases size - i,
        {
            a.reset();
            let mut nodes: Vec<Vec<u8>> = Vec::new();
            let mut cur_index: usize = 0;
            let pos = self.path[i - 1];
            let mut j: usize = 0;
            while j < branches
                invariant
                    0 <= j <= branches,
                    1 <= i < size - 1,
                    size == self.spec_lemma().len(),
                    self.consistent(),
                    branches == self.spec_branches(),
                    pos == self.spec_path()[i - 1],
                    pos < branches,
                    cur_index == if j <= pos {
                        j
                    } else {
                        (j - 1) as usize
                    },
                    nodes@.len() == j,
                    nodes.deep_view() == fill_level(
                        self.spec_lemma()[i as int],
                        h@,
                        pos as int,
                        branches as int,
                    ).subrange(0, j as int),
                decreases branches - j,
            {
                if j == pos {
                    nodes.push(crate::hashing::copy_digest(&h));
                } else {
                    nodes.push(copy_digest_at(&self.lemma, i, cur_index));
                    cur_index = cur_index + 1;
                }
                proof {
                    assert(nodes.deep_view() =~~= fill_level(
                        self.spec_lemma()[i as int],
                        h@,
                        pos as int,
                        branches as int,
                    ).subrange(0, j + 1));
                }
                j = j + 1;
            }
            proof {
                assert(nodes.deep_view() =~~= fill_level(
                    self.spec_lemma()[i as int],
                    h@,
                    pos as int,
                    branches as int,
                ));
            }
            h = a.multi_node(&nodes, i - 1);
            i = i + 1;
        }

        let root = self.root();
        digest_eq(&h, &root)
    }

    /// Verifies the inclusion proof and that `leaf_data` is the original
    /// leaf data the proof was generated for: the leaf commitment derived
    /// from `leaf_data` must match the proof's item, and the proof itself
    /// must validate.
    pub fn validate_with_data<A: Algorithm>(&self, leaf_data: &Vec<u8>) -> (r: bool)
        requires
            self.consistent(),
        ensures
            r == (A::spec_leaf(A::spec_hash_data(leaf_data@)) == self.spec_item()[0]
                && spec_validate::<A>(self.spec_lemma(), self.spec_path(), self.spec_branches())),
    {
        let mut a = A::create();
        let item = a.hash_data(leaf_data);
        a.reset();
        let leaf_hash = a.leaf(item);

        let own = copy_digest_at(&self.lemma, 0, 0);
        if !digest_eq(&leaf_hash, &own) {
            return false;
        }
        self.validate::<A>()
    }

    /// Returns the path of this proof.
    pub fn path(&self) -> (r: &Vec<usize>)
        ensures
            r@ == self.spec_path(),
    {
        &self.path
    }

    /// Returns the lemma of this proof.
    pub fn lemma(&self) -> (r: &Vec<Vec<Vec<u8>>>)
        ensures
            r.deep_view() == self.spec_lemma(),
    {
        &self.lemma
    }

    /// Returns the branching factor of this proof.
    pub fn branches(&self) -> (r: usize)
        ensures
            r as int == self.spec_branches(),
    {
        self.branches
    }
}

/// Copy of the digest at `levels[i][j]`.
pub fn copy_digest_at(levels: &Vec<Vec<Vec<u8>>>, i: usize, j: usize) -> (r: Vec<u8>)
    requires
        i < levels.deep_view().len(),
        j < levels.deep_view()[i as int].len(),
    ensures
        r@ == levels.deep_view()[i as int][j as int],
{
    crate::hashing::copy_digest(&levels[i][j])
}

} // verus!
