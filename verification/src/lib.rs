//! Algebraic expressions for the nodes of a graph.
//!
//! A node holds a text such as `a + b * 2`. The text is parsed into a tree
//! ([`parser`], [`token`], [`expr`]); the variables of the tree become the
//! input slots of the node ([`expr::extract_bindings`]); and when the text is
//! edited the slots follow the variables, keeping the value of each name
//! that stays ([`reconcile`], [`node`]). [`notation`] writes every tree as a
//! text and shows that the grammar reads it back, which fixes how the grammar
//! groups. [`node_graph`] holds what the viewer of the graph decides;
//! [`node_model`] and [`node_property`] hold the kinds of image node and
//! their properties.
//!
//! Numbers are carried as the 64 bits of an IEEE 754 double and constants as
//! their numerals: nothing here computes with them.

pub mod expr;
pub mod node;
pub mod node_graph;
pub mod node_model;
pub mod node_property;
pub mod notation;
pub mod parser;
pub mod reconcile;
pub mod token;
