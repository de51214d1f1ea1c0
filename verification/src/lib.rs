//! A line-oriented compiler from a small textual graph notation to an
//! in-memory graph.
//!
//! Every line of the input is blank, a comment (`%% ...`), a node declaration
//! (`id[label]`) or an edge declaration (`src --> dest`, `src <--> |label| dest`).
//! [`parse_graph`] folds the lines into a [`Graph`], or reports the first line
//! that is none of these.
//!
//! The meaning of the notation is given by the spec functions of [`grammar`],
//! [`lines`] and [`builder`]; the executable functions are proved to compute
//! exactly those.

pub mod builder;
pub mod grammar;
pub mod laws;
pub mod lines;
pub mod model;
pub mod notation;
pub mod parse;
pub mod roundtrip;
mod table;
mod tokens;

pub use builder::{parse_graph, Builder};
pub use lines::split_lines;
pub use model::{Graph, LineError, ParsedEdge, ParsedLine, ParsedNode};
pub use parse::{parse_comment, parse_edge, parse_edge_desc, parse_id, parse_line, parse_node};
