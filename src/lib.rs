//! The dispatch core of a small interactive shell: tokenizing a line,
//! routing its command word to a builtin or to a search on the executable
//! path, and the decisions each builtin makes. Everything that touches the
//! host (streams, environment, file system, child processes) is done by the
//! caller, which hands the results in as plain values.
use vstd::prelude::*;

pub mod builtins;
pub mod dispatch;
pub mod path;
pub mod tokenize;

verus! {

} // verus!
