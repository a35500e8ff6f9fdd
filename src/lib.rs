//! Hierarchical configuration assembled from named value sources ("feeders").
//!
//! A tree of configs and fields is built by the caller, feeders are told which
//! of their entries apply to which node, and a builder then walks the tree once
//! per feeder, appending the values each feeder resolves to the nodes.
pub mod builder;
pub mod common;
pub mod env;
pub mod error;
pub mod feeder;
pub mod laws;
pub mod text;
pub mod tree;
pub mod value;
pub mod values;

pub use crate::builder::{Builder, Configuration};
pub use crate::common::{
    Description, ElementConverter, FieldContainer, Members, Named, Node, Values,
};
pub use crate::env::{EnvFeeder, MissingPolicy};
pub use crate::feeder::{Feeder, Match, Matches, dfs, populate};
pub use crate::tree::{Config, Element, Field, Group};
pub use crate::value::{ParseError, Value};
pub use crate::values::NodeValues;
