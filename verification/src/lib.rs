//! Function transforms
//!
//! This crate provides functions for automatic differentiation and other transformations on
//! functions of arrays.
//!
//! The arrays, and all work on them, belong to an engine. A transform is a session with it: the
//! session names the next engine call to perform, and takes what the call left behind, until it
//! comes to its outcome. See [`step::Step`], [`engine::Request`] and [`engine::Event`].
//!
//! **WARN**: Because function transforms work on the computation graph, the user must ensure that
//! all arrays are passed as inputs to the function or closure. Closures with captured arrays may
//! not work as expected.
//!
//! # Automatic Differentiation
//!
//! Automatic differentiation works on functions rather than on implicit graphs. Use [`jvp`] and
//! [`vjp`] for products with a Jacobian, and [`value_and_gradient`] for values with their
//! gradients.

pub mod checkpoint;
pub mod checkpoint_calls;
pub mod checkpoint_laws;
pub mod closure;
pub mod engine;
pub mod error;
pub mod eval;
pub mod eval_calls;
pub mod eval_laws;
pub mod guard;
pub mod history;
pub mod params;
pub mod params_laws;
pub mod product;
pub mod product_calls;
pub mod product_laws;
pub mod step;
pub mod vector;
pub mod vector_laws;

pub use crate::checkpoint::{checkpoint, Checkpoint};
pub use crate::eval::{async_eval, async_eval_params, eval, eval_params};
pub use crate::product::{
    fallible_jvp, fallible_vjp, jvp, value_and_gradient, vjp, ClosureValueAndGrad,
};
