//! Route and catcher code generation decisions for Rocket handlers, verified.
//!
//! The syntax of a handler is described by the plain data types of `ast`;
//! the decisions the code generator takes on them (which names, which types,
//! which lifetimes, which errors) are computed and specified here.

pub mod ast;
pub mod catcher;
pub mod errors;
pub mod lifetime_pool;
pub mod param_stack;
pub mod route;
pub mod syn_ext;
pub mod ty_ext;
pub mod wrappers;

use vstd::prelude::*;

verus! {

/// The prefix of the name that a decorated handler's own body is renamed to.
pub const USER_FN_PREFIX: &'static str = "rocket_user_fn_";

/// The prefix of the names that a handler's arguments get in generated code.
pub const PARAM_PREFIX: &'static str = "rocket_param_";

} // verus!
