use merkletree::compound_merkle::CompoundMerkleTree;
use merkletree::compound_proof::CompoundProof;
use merkletree::error::Error;
use merkletree::hashing::Algorithm;
use merkletree::proofs::Proof;
use merkletree::single_tree::SingleTree;
use merkletree::single_tree::VecTree;
use vstd::prelude::nat;
use vstd::prelude::Seq;

// The spec items of the `Algorithm` trait are ghost declarations: nothing
// ever calls them at runtime, so the test hashers stub them out.

fn fnv_step(h: u64, b: u8) -> u64 {
    (h ^ (b as u64)).wrapping_mul(0x100000001b3)
}

fn fnv_bytes(mut h: u64, bytes: &[u8]) -> u64 {
    for &b in bytes {
        h = fnv_step(h, b);
    }
    fnv_step(h, 0xa5)
}

fn digest(h: u64) -> Vec<u8> {
    h.to_be_bytes().to_vec()
}

/// A small deterministic test hasher whose node combination ignores the
/// level tag.
#[derive(Debug)]
struct XorHasher;

impl Algorithm for XorHasher {
    fn spec_hash_data(_data: Seq<u8>) -> Seq<u8> {
        unreachable!()
    }

    fn spec_leaf(_item: Seq<u8>) -> Seq<u8> {
        unreachable!()
    }

    fn spec_multi_node(_nodes: Seq<Seq<u8>>, _level: nat) -> Seq<u8> {
        unreachable!()
    }

    fn create() -> Self {
        XorHasher
    }

    fn reset(&mut self) {}

    fn hash_data(&mut self, data: &Vec<u8>) -> Vec<u8> {
        digest(fnv_bytes(fnv_step(0xcbf29ce484222325, 0x01), data))
    }

    fn leaf(&mut self, item: Vec<u8>) -> Vec<u8> {
        digest(fnv_bytes(fnv_step(0xcbf29ce484222325, 0x02), &item))
    }

    fn multi_node(&mut self, nodes: &Vec<Vec<u8>>, _level: usize) -> Vec<u8> {
        let mut h: u64 = fnv_step(0xcbf29ce484222325, 0x03);
        for n in nodes {
            h = fnv_bytes(h, n);
        }
        digest(h)
    }
}

/// A test hasher whose node combination depends on the level tag.
#[derive(Debug)]
struct LevelHasher;

impl Algorithm for LevelHasher {
    fn spec_hash_data(_data: Seq<u8>) -> Seq<u8> {
        unreachable!()
    }

    fn spec_leaf(_item: Seq<u8>) -> Seq<u8> {
        unreachable!()
    }

    fn spec_multi_node(_nodes: Seq<Seq<u8>>, _level: nat) -> Seq<u8> {
        unreachable!()
    }

    fn create() -> Self {
        LevelHasher
    }

    fn reset(&mut self) {}

    fn hash_data(&mut self, data: &Vec<u8>) -> Vec<u8> {
        digest(fnv_bytes(fnv_step(0xcbf29ce484222325, 0x11), data))
    }

    fn leaf(&mut self, item: Vec<u8>) -> Vec<u8> {
        digest(fnv_bytes(fnv_step(0xcbf29ce484222325, 0x12), &item))
    }

    fn multi_node(&mut self, nodes: &Vec<Vec<u8>>, level: usize) -> Vec<u8> {
        let mut h: u64 = fnv_step(0xcbf29ce484222325, 0x13);
        h = fnv_step(h, level as u8);
        for n in nodes {
            h = fnv_bytes(h, n);
        }
        digest(h)
    }
}

fn leaf_data(salt: u8, i: usize) -> Vec<u8> {
    vec![salt, i as u8, 0x5a]
}

fn leaf_hash<A: Algorithm>(data: &Vec<u8>) -> Vec<u8> {
    let mut a = A::create();
    let item = a.hash_data(data);
    a.reset();
    a.leaf(item)
}

fn leaf_hashes<A: Algorithm>(salt: u8, count: usize) -> Vec<Vec<u8>> {
    (0..count).map(|i| leaf_hash::<A>(&leaf_data(salt, i))).collect()
}

fn tree<A: Algorithm>(branches: usize, salt: u8, count: usize) -> VecTree<A> {
    VecTree::<A>::new(branches, leaf_hashes::<A>(salt, count)).unwrap()
}

fn compound_4x8() -> CompoundMerkleTree<XorHasher, VecTree<XorHasher>> {
    let trees = vec![
        tree::<XorHasher>(2, 10, 8),
        tree::<XorHasher>(2, 20, 8),
        tree::<XorHasher>(2, 30, 8),
        tree::<XorHasher>(2, 40, 8),
    ];
    CompoundMerkleTree::new(trees, 4).unwrap()
}

#[test]
fn single_tree_geometry() {
    let t = tree::<XorHasher>(2, 1, 8);
    assert_eq!(t.branches(), 2);
    assert_eq!(t.leafs(), 8);
    assert_eq!(t.height(), 4);
    assert_eq!(t.len(), 15);
}

#[test]
fn single_tree_roundtrip_all_leaves() {
    let t = tree::<XorHasher>(2, 1, 8);
    for i in 0..8 {
        let p = t.gen_proof(i).unwrap();
        assert!(p.validate::<XorHasher>());
        assert_eq!(p.root(), t.root());
    }
}

#[test]
fn single_tree_roundtrip_quaternary() {
    let t = tree::<XorHasher>(4, 7, 16);
    assert_eq!(t.height(), 3);
    for i in 0..16 {
        let p = t.gen_proof(i).unwrap();
        assert_eq!(p.branches(), 4);
        assert!(p.validate::<XorHasher>());
    }
}

#[test]
fn single_tree_out_of_bounds() {
    let t = tree::<XorHasher>(2, 1, 8);
    assert_eq!(
        t.gen_proof(8).unwrap_err(),
        Error::IndexOutOfBounds { index: 8, bound: 8 }
    );
}

#[test]
fn single_tree_construction_errors() {
    assert_eq!(
        VecTree::<XorHasher>::new(1, leaf_hashes::<XorHasher>(1, 4)).unwrap_err(),
        Error::InvalidBranchingFactor { branches: 1 }
    );
    assert_eq!(
        VecTree::<XorHasher>::new(2, leaf_hashes::<XorHasher>(1, 6)).unwrap_err(),
        Error::InvalidLeafCount { leafs: 6 }
    );
    assert_eq!(
        VecTree::<XorHasher>::new(2, leaf_hashes::<XorHasher>(1, 1)).unwrap_err(),
        Error::InvalidLeafCount { leafs: 1 }
    );
    assert_eq!(
        VecTree::<XorHasher>::new(2, Vec::new()).unwrap_err(),
        Error::InvalidLeafCount { leafs: 0 }
    );
}

#[test]
fn proof_accessors() {
    let t = tree::<XorHasher>(2, 1, 8);
    let p = t.gen_proof(5).unwrap();
    assert_eq!(p.lemma().len(), 5);
    assert_eq!(p.path().len(), 3);
    assert_eq!(p.item().len(), 1);
    assert_eq!(p.item()[0], leaf_hash::<XorHasher>(&leaf_data(1, 5)));
    // the recorded path spells out 5 in binary, least significant first
    assert_eq!(p.path(), &vec![1, 0, 1]);
}

#[test]
fn validate_with_data_checks_the_leaf() {
    let t = tree::<XorHasher>(2, 1, 8);
    let p = t.gen_proof(3).unwrap();
    assert!(p.validate_with_data::<XorHasher>(&leaf_data(1, 3)));
    // different data of the same length must fail
    assert!(!p.validate_with_data::<XorHasher>(&leaf_data(1, 4)));
    assert!(!p.validate_with_data::<XorHasher>(&leaf_data(2, 3)));
}

#[test]
fn tampered_lemma_entry_fails_validation() {
    let t = tree::<XorHasher>(2, 1, 8);
    let p = t.gen_proof(3).unwrap();
    for level in 0..p.lemma().len() {
        for entry in 0..p.lemma()[level].len() {
            let mut lemma = p.lemma().clone();
            lemma[level][entry][0] ^= 0x01;
            let tampered = Proof::new(p.branches(), lemma, p.path().clone());
            assert!(!tampered.validate::<XorHasher>());
        }
    }
}

#[test]
fn tampered_path_fails_validation() {
    let t = tree::<XorHasher>(2, 1, 8);
    let p = t.gen_proof(3).unwrap();
    let mut path = p.path().clone();
    path[0] = 1 - path[0];
    let tampered = Proof::new(p.branches(), p.lemma().clone(), path);
    assert!(!tampered.validate::<XorHasher>());
}

#[test]
fn compound_geometry() {
    let c = compound_4x8();
    assert_eq!(c.top_layer_nodes(), 4);
    assert_eq!(c.leafs(), 32);
    assert_eq!(c.len(), 61);
    assert_eq!(c.height(), 5);
    assert!(!c.is_empty());
}

#[test]
fn compound_root_combines_sub_roots() {
    let c = compound_4x8();
    let roots = vec![
        tree::<XorHasher>(2, 10, 8).root(),
        tree::<XorHasher>(2, 20, 8).root(),
        tree::<XorHasher>(2, 30, 8).root(),
        tree::<XorHasher>(2, 40, 8).root(),
    ];
    let mut a = XorHasher::create();
    assert_eq!(c.root(), a.multi_node(&roots, 1));
}

#[test]
fn compound_root_deterministic_and_sensitive() {
    let c1 = compound_4x8();
    let c2 = compound_4x8();
    assert_eq!(c1.root(), c2.root());

    // changing a single sub-tree changes the compound root
    let trees = vec![
        tree::<XorHasher>(2, 10, 8),
        tree::<XorHasher>(2, 20, 8),
        tree::<XorHasher>(2, 31, 8),
        tree::<XorHasher>(2, 40, 8),
    ];
    let c3 = CompoundMerkleTree::new(trees, 4).unwrap();
    assert_ne!(c1.root(), c3.root());
}

#[test]
fn compound_index_routing() {
    let c = compound_4x8();
    let salts = [10u8, 20, 30, 40];
    for &(i, tree_index, local) in
        &[(0usize, 0usize, 0usize), (7, 0, 7), (8, 1, 0), (20, 2, 4), (31, 3, 7)]
    {
        let p = c.gen_proof(i).unwrap();
        assert_eq!(p.path(), &vec![tree_index]);
        assert_eq!(
            p.sub_tree_root(),
            tree::<XorHasher>(2, salts[tree_index], 8).root()
        );
        assert_eq!(
            p.sub_tree_proof().item()[0],
            leaf_hash::<XorHasher>(&leaf_data(salts[tree_index], local))
        );
    }
}

#[test]
fn compound_out_of_bounds() {
    let c = compound_4x8();
    assert_eq!(
        c.gen_proof(32).unwrap_err(),
        Error::IndexOutOfBounds { index: 32, bound: 32 }
    );
}

#[test]
fn compound_construction_errors_are_distinct() {
    // wrong sub-tree count
    let trees = vec![
        tree::<XorHasher>(2, 10, 8),
        tree::<XorHasher>(2, 20, 8),
        tree::<XorHasher>(2, 30, 8),
    ];
    assert_eq!(
        CompoundMerkleTree::<XorHasher, VecTree<XorHasher>>::new(trees, 4).unwrap_err(),
        Error::WrongSubTreeCount { given: 3, expected: 4 }
    );

    // mismatched height
    let trees = vec![tree::<XorHasher>(2, 10, 8), tree::<XorHasher>(2, 20, 16)];
    assert_eq!(
        CompoundMerkleTree::<XorHasher, VecTree<XorHasher>>::new(trees, 2).unwrap_err(),
        Error::MismatchedHeight
    );

    // equal heights but mismatched lengths (branching factors differ)
    let binary = tree::<XorHasher>(2, 10, 8);
    let ternary = tree::<XorHasher>(3, 20, 27);
    assert_eq!(binary.height(), ternary.height());
    assert_ne!(binary.len(), ternary.len());
    let trees = vec![binary, ternary];
    assert_eq!(
        CompoundMerkleTree::<XorHasher, VecTree<XorHasher>>::new(trees, 2).unwrap_err(),
        Error::MismatchedLength
    );
}

#[test]
fn compound_end_to_end() {
    // 4 sub-trees of 8 leaves each, top-layer arity 4; leaf 20 routes to
    // sub-tree 2, local leaf 4; validation passes, and a copy with one
    // sibling root zeroed fails
    let c = compound_4x8();
    let p = c.gen_proof(20).unwrap();
    assert_eq!(p.path(), &vec![2]);
    assert!(p.validate::<XorHasher>());
    assert_eq!(p.root(), c.root());

    let mut lemma = p.lemma().clone();
    lemma[0][1] = vec![0u8; lemma[0][1].len()];
    let tampered = CompoundProof::new(p.sub_tree_proof().clone(), 4, lemma, p.path().clone());
    assert!(!tampered.validate::<XorHasher>());
}

#[test]
fn compound_roundtrip_all_leaves() {
    let c = compound_4x8();
    for i in 0..32 {
        let p = c.gen_proof(i).unwrap();
        assert!(p.validate::<XorHasher>());
        assert_eq!(p.root(), c.root());
    }
}

#[test]
fn level_tags_within_one_tree_are_consistent() {
    // a level-sensitive hasher still validates ordinary sub-tree proofs:
    // construction and validation tag each combination step alike
    let t = tree::<LevelHasher>(2, 1, 8);
    for i in 0..8 {
        let p = t.gen_proof(i).unwrap();
        assert!(p.validate::<LevelHasher>());
    }
}

#[test]
fn compound_level_tags_disagree_between_build_and_validate() {
    // the compound root is derived with level tag 1, but compound-proof
    // validation recombines with level tag 0; with a hasher that uses the
    // tag, a freshly generated compound proof therefore fails validation.
    // this preserved asymmetry only disappears for tag-insensitive hashers
    let trees = vec![tree::<LevelHasher>(2, 10, 8), tree::<LevelHasher>(2, 20, 8)];
    let c = CompoundMerkleTree::new(trees, 2).unwrap();
    let p = c.gen_proof(3).unwrap();
    assert!(p.sub_tree_proof().validate::<LevelHasher>());
    assert!(!p.validate::<LevelHasher>());
}
