//! A cube with two hundred cells along each edge of a face: scrambling it, measuring how far it is
//! solved, searching for moves that solve it further, and answering requests about it.
//!
//! - [`geometry`]: where each cell lies, and where a turn brings it from
//! - [`moves`], [`cube`]: single moves, and the state that they change
//! - [`strip_laws`], [`turn_laws`]: which way turns carry the cells, how they undo each other and
//!   what they leave alone
//! - [`count`], [`count_laws`]: how many cells are solved, and what the counts mean
//! - [`phase`], [`explore`]: the phases of a solution and the search in each of them
//! - [`rng`], [`scramble`]: the random generator and the scramble made from it
//! - [`text`], [`scan`], [`base64`]: text written and read
//! - [`server`], [`http`]: the state shared by the threads, and the requests on it
//! - [`command_laws`], [`http_laws`]: what requests mean and how they are answered

pub mod base64;
pub mod command_laws;
pub mod count;
pub mod count_laws;
pub mod cube;
pub mod explore;
pub mod geometry;
pub mod http;
pub mod http_laws;
pub mod moves;
pub mod phase;
pub mod rng;
pub mod scan;
pub mod scramble;
pub mod server;
pub mod strip_laws;
pub mod text;
pub mod turn_laws;
