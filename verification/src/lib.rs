//! A scriptable video-project builder.
//!
//! A small scripting language is interpreted to assemble a video-editing
//! project: a set of referenced media asset paths, an ordered clip timeline
//! with derived start times, and a table of host-visible named variables.
//! The script calls host intrinsics (`log`, `load_clip`, `create_variable`);
//! the engine executes the script statement by statement and hands back the
//! finished project, the final value, and the collected diagnostics, or the
//! first uncaught error.

use vstd::prelude::*;

pub mod args;
pub mod ast;
pub mod codec;
pub mod errors;
pub mod eval;
pub mod lexer;
pub mod numerals;
pub mod parser;
pub mod project;
pub mod run_code;
pub mod values;

pub use crate::args::{parse_arguments, Arguments};
pub use crate::codec::{deserialize_project, serialize_project};
pub use crate::errors::ScriptError;
pub use crate::eval::EvalContext;
pub use crate::lexer::lex;
pub use crate::parser::parse;
pub use crate::project::{add_clip, Clip, Project, DEFAULT_CLIP_LENGTH};
pub use crate::run_code::{run_code, RunOutcome};
pub use crate::values::{Binding, ClipHandle, IntrinsicKind, Value};

verus! {

} // verus!
