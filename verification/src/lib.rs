//! A generic Merkle-tree proof engine.
//!
//! The crate builds inclusion proofs over tree-structured hash commitments
//! and verifies them, including a compound variant that stitches several
//! independently stored sub-trees into one logical tree with a single root.
//! Hashing itself is delegated to a collaborator described by the
//! [`hashing::Algorithm`] trait; trees answering sub-tree proof queries are
//! described by the [`single_tree::SingleTree`] trait, with an in-memory
//! reference implementation in [`single_tree::VecTree`].

pub mod compound_merkle;
pub mod compound_proof;
pub mod error;
pub mod hashing;
pub mod proofs;
pub mod single_tree;
