//! Shortest paths by breadth-first search, on any graph that is given by a function from a
//! vertex to its neighbors, and on a grid with obstacles; and the state of an editor in
//! which such a grid is drawn and a path through it is asked for.
//!
//! - [`bfs`] holds the search and the shortest path; [`search`] says what they compute,
//!   round by round; [`graph`], [`levels`] and [`outcome`] say why that is a shortest walk,
//!   and [`relabel`] that it does not depend on the names of the vertices.
//! - [`grid`] holds the cells and their neighbors, [`finder`] the shortest path on the grid.
//! - [`model`] holds the editor, [`style`] the texts that it shows.
pub mod bfs;
pub mod finder;
pub mod graph;
pub mod grid;
pub mod levels;
pub mod model;
pub mod outcome;
pub mod relabel;
pub mod search;
pub mod style;
