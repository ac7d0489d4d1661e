//! Normalisation by evaluation for the untyped lambda calculus.
//!
//! A term is evaluated into a value, in which every abstraction is a
//! closure over the environment it was met in, and the value is then read
//! back into a term. Reading back goes under a closure by applying it to a
//! variable whose name is chosen to differ from every name already in
//! sight. Both passes are bounded by a recursion budget, so that every
//! call returns.
mod shared;
pub mod name;
pub mod list;
pub mod term;
pub mod value;
pub mod semantics;
pub mod fresh;
pub mod eval;
pub mod quote;
pub mod laws;

pub use crate::eval::{eval, vApp, EvalError};
pub use crate::fresh::fresh;
pub use crate::list::List;
pub use crate::name::{Ident, Name};
pub use crate::quote::{nf, quote};
pub use crate::term::{app, lam, var, Term, Tm, TmRef};
pub use crate::value::{Env, Scope, Val, ValRef, Value};
