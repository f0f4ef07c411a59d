pub mod hash;
pub mod merkle_tree;
