//! Procedural trees that grow step by step: the structure of a tree, the
//! growth of each of its parts, and the decisions that drawing it needs.
pub mod branch;
pub mod growth;
pub mod leaf;
pub mod render;
pub mod tree;
pub mod progress;
