//! Simple error values with an optional cause, and rendering of the whole
//! causal chain, either on one line or as a numbered block.

pub mod error;
pub mod main_error;
pub mod render;

pub use error::{
    error_from_string, error_from_string_literal, make_opaque, to_err,
    wrap_error_from_string, wrap_error_from_string_literal, Error, Message,
};
pub use main_error::MainError;
pub use render::{print_error_chain, ErrorChain};
