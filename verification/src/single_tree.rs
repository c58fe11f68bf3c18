use core::marker::PhantomData;

use vstd::prelude::*;

use crate::error::Error;
use crate::hashing::Algorithm;
use crate::proofs::fill_level;
use crate::proofs::Proof;

verus! {

/// Contract for the single-tree collaborator: a tree with one fixed
/// branching factor that stores node digests level by level and answers
/// inclusion-proof queries for its own leaves.
///
/// A compound tree owns a collection of these and only relies on what the
/// contracts below state: the geometry accessors agree with the spec-level
/// geometry, and `gen_proof` hands back a consistent proof that replays to
/// this tree's root — or a bounds error for an index out of range.
pub trait SingleTree<A: Algorithm>: Sized {
    /// Well-formedness of the tree's own representation.
    spec fn inv(&self) -> bool;

    /// The branching factor of the tree's combination steps.
    spec fn spec_branches(&self) -> usize;

    /// The number of leaves.
    spec fn spec_leafs(&self) -> usize;

    /// The number of stored node digests.
    spec fn spec_len(&self) -> usize;

    /// The number of levels, leaves to root.
    spec fn spec_height(&self) -> usize;

    /// The root digest.
    spec fn spec_root(&self) -> Seq<u8>;

    /// The leaf commitment at index `i`.
    spec fn spec_leaf_hash(&self, i: int) -> Seq<u8>;

    /// Returns the branching factor.
    fn branches(&self) -> (r: usize)
        requires
            self.inv(),
        ensures
            r == self.spec_branches(),
    ;

    /// Returns the number of leaves.
    fn leafs(&self) -> (r: usize)
        requires
            self.inv(),
        ensures
            r == self.spec_leafs(),
    ;

    /// Returns the number of stored node digests.
    fn len(&self) -> (r: usize)
        requires
            self.inv(),
        ensures
            r == self.spec_len(),
    ;

    /// Returns the number of levels, leaves to root.
    fn height(&self) -> (r: usize)
        requires
            self.inv(),
        ensures
            r == self.spec_height(),
    ;

    /// Returns the root digest.
    fn root(&self) -> (r: Vec<u8>)
        requires
            self.inv(),
        ensures
            r@ == self.spec_root(),
    ;

    /// Generates the inclusion proof for leaf `i`. For an index within the
    /// leaf count the proof is consistent, speaks about that leaf, claims
    /// this tree's root, and replays to it; for an index at or past the
    /// leaf count the result is a bounds error naming the index and the
    /// bound.
    fn gen_proof(&self, i: usize) -> (r: Result<Proof, Error>)
        requires
            self.inv(),
        ensures
            match r {
                Ok(p) => {
                    &&& i < self.spec_leafs()
                    &&& p.consistent()
                    &&& p.spec_branches() == self.spec_branches() as int
                    &&& p.spec_lemma().len() == self.spec_height() + 1
                    &&& p.spec_item().len() == 1
                    &&& p.spec_item()[0] == self.spec_leaf_hash(i as int)
                    &&& p.spec_root() == self.spec_root()
                    &&& crate::proofs::spec_validate::<A>(
                        p.spec_lemma(),
                        p.spec_path(),
                        p.spec_branches(),
                    )
                },
                Err(e) => {
                    &&& i >= self.spec_leafs()
                    &&& e == (Error::IndexOutOfBounds { index: i, bound: self.spec_leafs() })
                },
            },
    ;
}

/// Whether `n` is `b` raised to a positive power.
pub open spec fn spec_is_tower(b: int, n: int) -> bool
    decreases n,
    via spec_is_tower_decreases
{
    if b < 2 {
        false
    } else if n == b {
        true
    } else if n < b {
        false
    } else {
        n % b == 0 && spec_is_tower(b, n / b)
    }
}

#[via_fn]
proof fn spec_is_tower_decreases(b: int, n: int) {
    if b >= 2 && n != b && n > b {
        vstd::arithmetic::div_mod::lemma_div_is_strictly_smaller(n, b);
        vstd::arithmetic::div_mod::lemma_div_pos_is_pos(n, b);
    }
}

/// Total number of digests stored over all levels.
pub open spec fn total_nodes(lv: Seq<Seq<Seq<u8>>>) -> int
    decreases lv.len(),
{
    if lv.len() == 0 {
        0
    } else {
        total_nodes(lv.drop_last()) + lv.last().len()
    }
}

/// In-memory reference implementation of [`SingleTree`]: the node digests
/// of every level, leaves first, root last, each level exactly one
/// combination step above the previous one.
#[derive(Debug)]
pub struct VecTree<A: Algorithm> {
    branches: usize,
    levels: Vec<Vec<Vec<u8>>>,
    total: usize,
    _a: PhantomData<A>,
}

impl<A: Algorithm> VecTree<A> {
    /// The stored levels, each a sequence of digests.
    pub closed spec fn spec_levels(&self) -> Seq<Seq<Seq<u8>>> {
        self.levels.deep_view()
    }

    /// Well-formedness: a branching factor of at least two, at least two
    /// levels ending in a singleton root, every level exactly `branches`
    /// times as wide as the one above it, and every digest above the
    /// leaves the combination of its `branches` children, tagged with the
    /// child level's index.
    pub open spec fn well_formed(&self) -> bool {
        let lv = self.spec_levels();
        let b = self.spec_branches_field() as int;
        &&& b >= 2
        &&& lv.len() >= 2
        &&& lv[lv.len() - 1].len() == 1
        &&& forall|m: int|
            1 <= m < lv.len() ==> (#[trigger] lv[m]).len() * b == lv[m - 1].len()
        &&& forall|m: int, q: int|
            1 <= m < lv.len() && 0 <= q < lv[m].len() ==> (#[trigger] lv[m][q])
                == A::spec_multi_node(lv[m - 1].subrange(q * b, (q + 1) * b), (m - 1) as nat)
        &&& self.spec_total_field() as int == total_nodes(lv)
    }

    /// The stored branching factor.
    pub closed spec fn spec_branches_field(&self) -> usize {
        self.branches
    }

    /// The stored node count.
    pub closed spec fn spec_total_field(&self) -> usize {
        self.total
    }
}

impl<A: Algorithm> VecTree<A> {
    /// Builds the tree above the given leaf commitments: level upon level,
    /// each digest the combination of its `branches` children, tagged with
    /// the child level's index, until a singleton root remains.
    ///
    /// Construction is the one place recoverable errors are used: a
    /// branching factor below two and a leaf count that is not a positive
    /// power of it are rejected as error values, each with its own
    /// diagnosable variant.
    pub fn new(branches: usize, leaf_hashes: Vec<Vec<u8>>) -> (r: Result<VecTree<A>, Error>)
        requires
            2 * leaf_hashes@.len() <= usize::MAX,
        ensures
            match r {
                Ok(t) => {
                    &&& branches >= 2
                    &&& spec_is_tower(branches as int, leaf_hashes@.len() as int)
                    &&& t.inv()
                    &&& t.spec_branches() == branches
                    &&& t.spec_levels()[0] == leaf_hashes.deep_view()
                    &&& t.spec_leafs() == leaf_hashes@.len()
                },
                Err(e) => {
                    &&& !(branches >= 2 && spec_is_tower(
                        branches as int,
                        leaf_hashes@.len() as int,
                    ))
                    &&& e == if branches < 2 {
                        Error::InvalidBranchingFactor { branches }
                    } else {
                        Error::InvalidLeafCount { leafs: leaf_hashes@.len() as usize }
                    }
                },
            },
    {
        if branches < 2 {
            return Err(Error::InvalidBranchingFactor { branches });
        }
        let leafs = leaf_hashes.len();
        let ghost leaf_views = leaf_hashes.deep_view();
        let b = branches;

        let mut levels: Vec<Vec<Vec<u8>>> = Vec::new();
        let mut total: usize = leafs;
        levels.push(leaf_hashes);
        let mut a = A::create();

        proof {
            assert(levels.deep_view() =~~= seq![leaf_views]);
            assert(levels.deep_view().drop_last() =~~= Seq::<Seq<Seq<u8>>>::empty());
            assert(total_nodes(Seq::<Seq<Seq<u8>>>::empty()) == 0);
            assert(total_nodes(levels.deep_view()) == leaf_views.len());
        }

        let mut cur_len: usize = leafs;
        while cur_len > 1
            invariant
                b == branches,
                b >= 2,
                leafs == leaf_views.len(),
                leafs == leaf_hashes@.len(),
                2 * leaf_views.len() <= usize::MAX,
                levels.deep_view().len() >= 1,
                levels@.len() == levels.deep_view().len(),
                cur_len == levels.deep_view().last().len(),
                levels.deep_view()[0] == leaf_views,
                forall|m: int|
                    1 <= m < levels.deep_view().len() ==> (#[trigger] levels.deep_view()[m]).len()
                        * b == levels.deep_view()[m - 1].len(),
                forall|m: int, q: int|
                    1 <= m < levels.deep_view().len() && 0 <= q < levels.deep_view()[m].len()
                        ==> (#[trigger] levels.deep_view()[m][q]) == A::spec_multi_node(
                        levels.deep_view()[m - 1].subrange(q * b, (q + 1) * b),
                        (m - 1) as nat,
                    ),
                total as int == total_nodes(levels.deep_view()),
                total as int <= 2 * leaf_views.len() - cur_len,
                levels.deep_view().len() >= 2 ==> cur_len >= 1,
                spec_is_tower(b as int, leaf_views.len() as int) == ((cur_len == 1
                    && levels.deep_view().len() >= 2) || (cur_len > 1 && spec_is_tower(
                    b as int,
                    cur_len as int,
                ))),
            decreases cur_len,
        {
            if cur_len % b != 0 {
                proof {
                    assert(b % b == 0) by (nonlinear_arith)
                        requires
                            b >= 2,
                    ;
                    assert(cur_len != b);
                    assert(!spec_is_tower(b as int, cur_len as int));
                }
                return Err(Error::InvalidLeafCount { leafs });
            }
            let next_len = cur_len / b;
            proof {
                vstd::arithmetic::div_mod::lemma_fundamental_div_mod(cur_len as int, b as int);
                assert(cur_len as int == b * (cur_len as int / b as int) + (cur_len as int % b
                    as int));
                assert(cur_len == b * next_len);
                assert(b * next_len == next_len * b) by (nonlinear_arith);
                assert(cur_len == next_len * b);
                assert(2 * next_len <= cur_len) by (nonlinear_arith)
                    requires
                        cur_len == next_len * b,
                        b >= 2,
                        next_len >= 0,
                ;
                assert(next_len >= 1) by (nonlinear_arith)
                    requires
                        cur_len == next_len * b,
                        cur_len >= 2,
                        next_len >= 0,
                        b >= 2,
                ;
            }
            let cur = levels.len() - 1;
            let mut next: Vec<Vec<u8>> = Vec::new();
            let mut q: usize = 0;
            while q < next_len
                invariant
                    b >= 2,
                    q <= next_len,
                    cur == levels.deep_view().len() - 1,
                    levels@.len() == levels.deep_view().len(),
                    levels.deep_view().len() >= 1,
                    cur_len == levels.deep_view()[cur as int].len(),
                    cur_len == next_len * b,
                    next@.len() == q,
                    forall|p: int|
                        0 <= p < q ==> (#[trigger] next.deep_view()[p]) == A::spec_multi_node(
                            levels.deep_view()[cur as int].subrange(p * b, (p + 1) * b),
                            cur as nat,
                        ),
                decreases next_len - q,
            {
                proof {
                    assert((q + 1) * b <= next_len * b) by (nonlinear_arith)
                        requires
                            q + 1 <= next_len,
                            b >= 0,
                    ;
                    assert(q * b >= 0) by (nonlinear_arith)
                        requires
                            q >= 0,
                            b >= 0,
                    ;
                    assert(q * b + b == (q + 1) * b) by (nonlinear_arith);
                }
                let base = q * b;
                let mut children: Vec<Vec<u8>> = Vec::new();
                let mut t: usize = 0;
                while t < b
                    invariant
                        t <= b,
                        base == q * b,
                        base + b <= cur_len,
                        cur == levels.deep_view().len() - 1,
                        levels@.len() == levels.deep_view().len(),
                        levels.deep_view().len() >= 1,
                        cur_len == levels.deep_view()[cur as int].len(),
                        children@.len() == t,
                        children.deep_view() == levels.deep_view()[cur as int].subrange(
                            base as int,
                            base + t,
                        ),
                    decreases b - t,
                {
                    children.push(crate::proofs::copy_digest_at(&levels, cur, base + t));
                    proof {
                        assert(children.deep_view() =~~= levels.deep_view()[cur as int].subrange(
                            base as int,
                            base + t + 1,
                        ));
                    }
                    t = t + 1;
                }
                a.reset();
                let parent = a.multi_node(&children, cur);
                let ghost old_next = next.deep_view();
                next.push(parent);
                proof {
                    assert(next.deep_view() =~~= old_next.push(parent@));
                    assert forall|p: int| 0 <= p < q + 1 implies (#[trigger] next.deep_view()[p])
                        == A::spec_multi_node(
                        levels.deep_view()[cur as int].subrange(p * b, (p + 1) * b),
                        cur as nat,
                    ) by {
                        if p < q {
                            assert(next.deep_view()[p] == old_next[p]);
                        } else {
                            assert(next.deep_view()[p] == parent@);
                            assert(children.deep_view() == levels.deep_view()[
                                cur as int].subrange(base as int, base + b));
                            assert(base + b == (q + 1) * b);
                        }
                    }
                }
                q = q + 1;
            }
            let ghost old_lv = levels.deep_view();
            let ghost old_tower = spec_is_tower(b as int, cur_len as int);
            total = total + next_len;
            levels.push(next);
            proof {
                let lv = levels.deep_view();
                assert(lv =~~= old_lv.push(next.deep_view()));
                assert(lv.drop_last() =~~= old_lv);
                assert(total_nodes(lv) == total_nodes(old_lv) + next_len);
                assert(lv.last().len() == next_len);
                assert(forall|m: int|
                    1 <= m < lv.len() ==> (#[trigger] lv[m]).len() * b == lv[m - 1].len());
                assert forall|m: int, p: int|
                    1 <= m < lv.len() && 0 <= p < lv[m].len() implies (#[trigger] lv[m][p])
                    == A::spec_multi_node(
                    lv[m - 1].subrange(p * b, (p + 1) * b),
                    (m - 1) as nat,
                ) by {
                    if m < lv.len() - 1 {
                        assert(lv[m] == old_lv[m]);
                        assert(lv[m - 1] == old_lv[m - 1]);
                    } else {
                        assert(lv[m] == next.deep_view());
                        assert(lv[m - 1] == old_lv[cur as int]);
                    }
                }
                // the leaf count is a tower of the branching factor exactly
                // when the remaining length is, one division later
                if cur_len == b {
                    assert(old_tower);
                    assert(next_len == 1) by (nonlinear_arith)
                        requires
                            next_len * b == b,
                            b >= 2,
                            next_len >= 0,
                    ;
                } else {
                    assert(cur_len > b) by {
                        if cur_len < b {
                            vstd::arithmetic::div_mod::lemma_small_mod(
                                cur_len as nat,
                                b as nat,
                            );
                            assert(cur_len % b == cur_len);
                        }
                    }
                    assert(old_tower == spec_is_tower(b as int, next_len as int));
                    assert(next_len >= 2) by (nonlinear_arith)
                        requires
                            cur_len == next_len * b,
                            cur_len > b,
                            b >= 2,
                            next_len >= 1,
                    ;
                }
            }
            cur_len = next_len;
        }

        if levels.len() < 2 {
            proof {
                assert(!spec_is_tower(b as int, leaf_views.len() as int));
            }
            return Err(Error::InvalidLeafCount { leafs });
        }

        let t = VecTree { branches, levels, total, _a: PhantomData };
        proof {
            assert(t.spec_levels().last().len() == 1);
            assert(t.spec_levels()[t.spec_levels().len() - 1].len() == 1);
            assert(t.inv());
        }
        Ok(t)
    }
}

/// The `b - 1` stored siblings of one combination step: the digests of the
/// node group starting at `base`, in order, skipping the one at offset
/// `pos` (the position the running hash will take).
pub open spec fn spec_siblings(level: Seq<Seq<u8>>, base: int, pos: int, b: int) -> Seq<Seq<u8>> {
    Seq::new(
        (b - 1) as nat,
        |j: int|
            if j < pos {
                level[base + j]
            } else {
                level[base + j + 1]
            },
    )
}

impl<A: Algorithm> VecTree<A> {
    /// Generates the inclusion proof for leaf `i`: walks the levels bottom
    /// up, recording at each step the group position of the running node
    /// and the digests of its siblings, and finishes with the singleton
    /// root level.
    pub fn generate(&self, i: usize) -> (r: Result<Proof, Error>)
        requires
            self.inv(),
        ensures
            match r {
                Ok(p) => {
                    &&& i < self.spec_leafs()
                    &&& p.consistent()
                    &&& p.spec_branches() == self.spec_branches() as int
                    &&& p.spec_lemma().len() == self.spec_height() + 1
                    &&& p.spec_item().len() == 1
                    &&& p.spec_item()[0] == self.spec_leaf_hash(i as int)
                    &&& p.spec_root() == self.spec_root()
                    &&& crate::proofs::spec_validate::<A>(
                        p.spec_lemma(),
                        p.spec_path(),
                        p.spec_branches(),
                    )
                },
                Err(e) => {
                    &&& i >= self.spec_leafs()
                    &&& e == (Error::IndexOutOfBounds { index: i, bound: self.spec_leafs() })
                },
            },
    {
        let leafs = self.levels[0].len();
        if i >= leafs {
            return Err(Error::IndexOutOfBounds { index: i, bound: leafs });
        }
        let height = self.levels.len();
        let b = self.branches;

        let mut lemma_levels: Vec<Vec<Vec<u8>>> = Vec::new();
        let mut path: Vec<usize> = Vec::new();

        let mut level0: Vec<Vec<u8>> = Vec::new();
        level0.push(crate::proofs::copy_digest_at(&self.levels, 0, i));
        lemma_levels.push(level0);
        proof {
            assert(lemma_levels.deep_view() =~~= seq![seq![self.spec_levels()[0][i as int]]]);
            assert(crate::proofs::replay::<A>(lemma_levels.deep_view(), path@, b as int, 0)
                == self.spec_levels()[0][i as int]);
        }

        let mut idx: usize = i;
        let mut k: usize = 0;
        while k < height - 1
            invariant
                self.inv(),
                b == self.spec_branches_field(),
                height == self.spec_levels().len(),
                height == self.levels@.len(),
                k <= height - 1,
                idx < self.spec_levels()[k as int].len(),
                lemma_levels@.len() == k + 1,
                lemma_levels.deep_view().len() == k + 1,
                path@.len() == k,
                lemma_levels.deep_view()[0].len() == 1,
                lemma_levels.deep_view()[0][0] == self.spec_levels()[0][i as int],
                forall|m: int|
                    1 <= m <= k ==> (#[trigger] lemma_levels.deep_view()[m]).len() == b - 1,
                forall|m: int| 0 <= m < k ==> (#[trigger] path@[m]) < b,
                crate::proofs::replay::<A>(lemma_levels.deep_view(), path@, b as int, k as int)
                    == self.spec_levels()[k as int][idx as int],
            decreases height - 1 - k,
        {
            let ghost lv = self.spec_levels();
            let pos = idx % b;
            let parent = idx / b;
            proof {
                vstd::arithmetic::div_mod::lemma_fundamental_div_mod(idx as int, b as int);
                vstd::arithmetic::div_mod::lemma_mod_bound(idx as int, b as int);
                assert(lv[k + 1].len() * b == lv[k as int].len());
                assert(parent < lv[k + 1].len()) by (nonlinear_arith)
                    requires
                        idx as int == b * parent + pos,
                        0 <= pos < b,
                        idx < lv[k + 1].len() * b,
                        b >= 2,
                        parent >= 0,
                ;
                assert(parent * b + b <= lv[k + 1].len() * b) by (nonlinear_arith)
                    requires
                        parent + 1 <= lv[k + 1].len(),
                        b >= 0,
                ;
                assert(b * parent == parent * b) by (nonlinear_arith);
            }
            let width = self.levels[k].len();
            proof {
                assert(width == lv[k as int].len());
            }
            let base = parent * b;
            let mut sibs: Vec<Vec<u8>> = Vec::new();
            let mut t: usize = 0;
            while t < b
                invariant
                    t <= b,
                    pos < b,
                    b >= 2,
                    base == parent * b,
                    idx == base + pos,
                    base + b <= self.spec_levels()[k as int].len(),
                    width == self.spec_levels()[k as int].len(),
                    k < height - 1,
                    height == self.spec_levels().len(),
                    height == self.levels@.len(),
                    self.inv(),
                    sibs@.len() == if t <= pos {
                        t as int
                    } else {
                        t - 1
                    },
                    sibs.deep_view() == spec_siblings(
                        self.spec_levels()[k as int],
                        base as int,
                        pos as int,
                        b as int,
                    ).subrange(
                        0,
                        if t <= pos {
                            t as int
                        } else {
                            t - 1
                        },
                    ),
                decreases b - t,
            {
                if t != pos {
                    sibs.push(crate::proofs::copy_digest_at(&self.levels, k, base + t));
                    proof {
                        assert(sibs.deep_view() =~~= spec_siblings(
                            self.spec_levels()[k as int],
                            base as int,
                            pos as int,
                            b as int,
                        ).subrange(
                            0,
                            if t + 1 <= pos {
                                t + 1
                            } else {
                                t as int
                            },
                        ));
                    }
                }
                t = t + 1;
            }
            proof {
                assert(sibs.deep_view() =~~= spec_siblings(
                    self.spec_levels()[k as int],
                    base as int,
                    pos as int,
                    b as int,
                ));
            }

            let ghost old_lemma = lemma_levels.deep_view();
            let ghost old_path = path@;
            lemma_levels.push(sibs);
            path.push(pos);
            proof {
                let new_lemma = lemma_levels.deep_view();
                let new_path = path@;
                assert(new_lemma =~~= old_lemma.push(sibs.deep_view()));
                assert(new_path =~= old_path.push(pos));
                crate::proofs::lemma_replay_prefix::<A>(
                    new_lemma,
                    new_path,
                    old_lemma,
                    old_path,
                    b as int,
                    k as int,
                );
                assert(fill_level(
                    sibs.deep_view(),
                    lv[k as int][idx as int],
                    pos as int,
                    b as int,
                ) =~~= lv[k as int].subrange(base as int, base + b));
                assert(crate::proofs::replay::<A>(new_lemma, new_path, b as int, k + 1)
                    == A::spec_multi_node(lv[k as int].subrange(base as int, base + b), k as nat));
                assert(lv[k + 1][parent as int] == A::spec_multi_node(
                    lv[k as int].subrange(parent * b, (parent + 1) * b),
                    k as nat,
                ));
                assert(parent * b + b == (parent + 1) * b) by (nonlinear_arith);
                assert(crate::proofs::replay::<A>(new_lemma, new_path, b as int, k + 1) == lv[k
                    + 1][parent as int]);
            }
            idx = parent;
            k = k + 1;
        }

        proof {
            assert(k == height - 1);
            assert(self.spec_levels()[k as int].len() == 1);
            assert(idx == 0);
        }

        let ghost old_lemma = lemma_levels.deep_view();
        let ghost old_path = path@;
        let mut root_level: Vec<Vec<u8>> = Vec::new();
        root_level.push(crate::proofs::copy_digest_at(&self.levels, height - 1, 0));
        lemma_levels.push(root_level);
        proof {
            let new_lemma = lemma_levels.deep_view();
            assert(new_lemma =~~= old_lemma.push(seq![self.spec_root()]));
            crate::proofs::lemma_replay_prefix::<A>(
                new_lemma,
                old_path,
                old_lemma,
                old_path,
                b as int,
                (height - 1) as int,
            );
            assert(crate::proofs::replay::<A>(new_lemma, old_path, b as int, (height - 1) as int)
                == self.spec_root());
        }
        let p = Proof::new(b, lemma_levels, path);
        proof {
            assert(p.consistent());
            assert(crate::proofs::spec_validate::<A>(
                p.spec_lemma(),
                p.spec_path(),
                p.spec_branches(),
            ));
        }
        Ok(p)
    }
}

/// Every level of a well-formed tree is pinned by the leaf level: two
/// well-formed trees of one branching factor over the same leaf
/// commitments agree on level `m` wherever both have one.
proof fn lemma_levels_determined<A: Algorithm>(t1: VecTree<A>, t2: VecTree<A>, m: int)
    requires
        t1.inv(),
        t2.inv(),
        t1.spec_branches() == t2.spec_branches(),
        t1.spec_levels()[0] == t2.spec_levels()[0],
        0 <= m < t1.spec_levels().len(),
        m < t2.spec_levels().len(),
    ensures
        t1.spec_levels()[m] == t2.spec_levels()[m],
    decreases m,
{
    let lv1 = t1.spec_levels();
    let lv2 = t2.spec_levels();
    let b = t1.spec_branches() as int;
    if m > 0 {
        lemma_levels_determined::<A>(t1, t2, m - 1);
        assert(lv1[m].len() * b == lv1[m - 1].len());
        assert(lv2[m].len() * b == lv2[m - 1].len());
        assert(lv1[m].len() == lv2[m].len()) by (nonlinear_arith)
            requires
                lv1[m].len() * b == lv2[m].len() * b,
                b >= 2,
        ;
        assert forall|q: int| 0 <= q < lv1[m].len() implies lv1[m][q] == lv2[m][q] by {
            assert(lv1[m][q] == A::spec_multi_node(
                lv1[m - 1].subrange(q * b, (q + 1) * b),
                (m - 1) as nat,
            ));
            assert(lv2[m][q] == A::spec_multi_node(
                lv2[m - 1].subrange(q * b, (q + 1) * b),
                (m - 1) as nat,
            ));
        }
        assert(lv1[m] =~~= lv2[m]);
    }
}

/// Single-tree construction is deterministic: two well-formed trees of one
/// branching factor over the same leaf commitments have the same height
/// and the same root, whatever else may differ between them.
pub proof fn lemma_tree_root_deterministic<A: Algorithm>(t1: VecTree<A>, t2: VecTree<A>)
    requires
        t1.inv(),
        t2.inv(),
        t1.spec_branches() == t2.spec_branches(),
        t1.spec_levels()[0] == t2.spec_levels()[0],
    ensures
        t1.spec_height() == t2.spec_height(),
        t1.spec_root() == t2.spec_root(),
{
    let lv1 = t1.spec_levels();
    let lv2 = t2.spec_levels();
    let b = t1.spec_branches() as int;
    // the heights agree: were one tree shorter, its singleton root level
    // would equal a level of the other that still has a full group of
    // children below the other's root, and a group is never a singleton
    let h1 = lv1.len() as int;
    let h2 = lv2.len() as int;
    if h1 < h2 {
        lemma_levels_determined::<A>(t1, t2, h1 - 1);
        assert(lv2[h1 - 1].len() == 1);
        assert(lv2[h1].len() * b == lv2[h1 - 1].len());
        assert(false) by (nonlinear_arith)
            requires
                lv2[h1 as int].len() * b == 1,
                b >= 2,
        ;
    }
    if h2 < h1 {
        lemma_levels_determined::<A>(t2, t1, h2 - 1);
        assert(lv1[h2 - 1].len() == 1);
        assert(lv1[h2].len() * b == lv1[h2 - 1].len());
        assert(false) by (nonlinear_arith)
            requires
                lv1[h2 as int].len() * b == 1,
                b >= 2,
        ;
    }
    assert(lv1.len() == lv2.len());
    lemma_levels_determined::<A>(t1, t2, lv1.len() - 1);
}

impl<A: Algorithm> SingleTree<A> for VecTree<A> {
    open spec fn inv(&self) -> bool {
        self.well_formed()
    }

    open spec fn spec_branches(&self) -> usize {
        self.spec_branches_field()
    }

    open spec fn spec_leafs(&self) -> usize {
        self.spec_levels()[0].len() as usize
    }

    open spec fn spec_len(&self) -> usize {
        self.spec_total_field()
    }

    open spec fn spec_height(&self) -> usize {
        self.spec_levels().len() as usize
    }

    open spec fn spec_root(&self) -> Seq<u8> {
        self.spec_levels()[self.spec_levels().len() - 1][0]
    }

    open spec fn spec_leaf_hash(&self, i: int) -> Seq<u8> {
        self.spec_levels()[0][i]
    }

    fn branches(&self) -> (r: usize) {
        self.branches
    }

    fn leafs(&self) -> (r: usize) {
        self.levels[0].len()
    }

    fn len(&self) -> (r: usize) {
        self.total
    }

    fn height(&self) -> (r: usize) {
        self.levels.len()
    }

    fn root(&self) -> (r: Vec<u8>) {
        let last = self.levels.len() - 1;
        crate::proofs::copy_digest_at(&self.levels, last, 0)
    }

    fn gen_proof(&self, i: usize) -> (r: Result<Proof, Error>) {
        self.generate(i)
    }
}

} // verus!
