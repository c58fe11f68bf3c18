use vstd::prelude::*;

verus! {

/// Capability contract for the hash algorithm collaborator.
///
/// An algorithm hashes raw leaf data into a digest, turns a digest into a
/// leaf commitment, and combines an ordered group of child digests into
/// their parent digest, tagged with a level index for domain separation.
///
/// The three `spec_*` functions are an implementation's own mathematical
/// description of those steps; each executable method must return exactly
/// what the matching spec function says, so every implementation is a
/// deterministic function of its inputs.
pub trait Algorithm: Sized {
    /// Digest of raw leaf data.
    spec fn spec_hash_data(data: Seq<u8>) -> Seq<u8>;

    /// Leaf commitment derived from a data digest.
    spec fn spec_leaf(item: Seq<u8>) -> Seq<u8>;

    /// Parent digest of an ordered group of children, tagged with `level`.
    spec fn spec_multi_node(nodes: Seq<Seq<u8>>, level: nat) -> Seq<u8>;

    /// A fresh instance, ready to hash.
    fn create() -> Self;

    /// Clears any internal streaming state between uses.
    fn reset(&mut self);

    /// Digests raw leaf data.
    fn hash_data(&mut self, data: &Vec<u8>) -> (r: Vec<u8>)
        ensures
            r@ == Self::spec_hash_data(data@),
    ;

    /// Derives the leaf commitment of an already digested item.
    fn leaf(&mut self, item: Vec<u8>) -> (r: Vec<u8>)
        ensures
            r@ == Self::spec_leaf(item@),
    ;

    /// Combines the ordered children `nodes` into their parent digest,
    /// tagging the combination with `level`.
    fn multi_node(&mut self, nodes: &Vec<Vec<u8>>, level: usize) -> (r: Vec<u8>)
        ensures
            r@ == Self::spec_multi_node(nodes.deep_view(), level as nat),
    ;
}

/// Byte-for-byte equality of two digests.
pub fn digest_eq(a: &Vec<u8>, b: &Vec<u8>) -> (r: bool)
    ensures
        r == (a@ == b@),
{
    if a.len() != b.len() {
        return false;
    }
    let mut i: usize = 0;
    while i < a.len()
        invariant
            i <= a@.len(),
            a@.len() == b@.len(),
            forall|j: int| 0 <= j < i ==> a@[j] == b@[j],
        decreases a@.len() - i,
    {
        if a[i] != b[i] {
            return false;
        }
        i = i + 1;
    }
    proof {
        assert(a@ =~= b@);
    }
    true
}

/// Copy of one digest.
pub fn copy_digest(src: &Vec<u8>) -> (r: Vec<u8>)
    ensures
        r@ == src@,
{
    let mut r: Vec<u8> = Vec::new();
    let mut i: usize = 0;
    while i < src.len()
        invariant
            i <= src@.len(),
            r@ == src@.subrange(0, i as int),
        decreases src@.len() - i,
    {
        r.push(src[i]);
        proof {
            assert(r@ =~= src@.subrange(0, i + 1));
        }
        i = i + 1;
    }
    proof {
        assert(r@ =~= src@);
    }
    r
}

/// Copy of one level of digests.
pub fn copy_level(src: &Vec<Vec<u8>>) -> (r: Vec<Vec<u8>>)
    ensures
        r.deep_view() == src.deep_view(),
{
    let mut r: Vec<Vec<u8>> = Vec::new();
    let mut i: usize = 0;
    while i < src.len()
        invariant
            i <= src@.len(),
            r@.len() == i,
            r.deep_view() == src.deep_view().subrange(0, i as int),
        decreases src@.len() - i,
    {
        let d = copy_digest(&src[i]);
        proof {
            assert(d.deep_view() =~= src.deep_view()[i as int]);
        }
        r.push(d);
        proof {
            assert(r.deep_view() =~~= src.deep_view().subrange(0, i + 1));
        }
        i = i + 1;
    }
    proof {
        assert(r.deep_view() =~~= src.deep_view());
    }
    r
}

} // verus!
