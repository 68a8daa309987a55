//! Verified core of a stateless MILP solve service.
//!
//! A request names its variables and gives the objective and every row as a
//! sparse list of `(name, factor)` terms. This crate turns such a request into
//! a model whose terms address variables by position ([`assemble`]), turns
//! what a solving engine made of the model into the response
//! ([`Model::respond`]), and makes the buffer that carries the encoded
//! response to a foreign caller ([`seal`]). The engine itself, the wire codec
//! and the foreign-call boundary live outside the crate and exchange plain
//! values with it.
//!
//! The crate never computes on a coefficient: every type is generic over the
//! number type `N`, and the contracts say where each number ends up.

pub mod buffer;
pub mod error;
pub mod expr;
pub mod model;
pub mod optimum;
pub mod outcome;
pub mod schema;
pub mod settings;
pub mod wire;

pub use buffer::seal;
pub use error::Failure;
pub use expr::{lookup, to_expr, LinearExpr};
pub use model::{assemble, name_mapping, Model, Relation, Row};
pub use outcome::Outcome;
pub use schema::{CoeffVar, Direction, MessageProblem, MessageSolution, Status, VariableDef};
pub use settings::Setting;
