use vstd::prelude::*;

pub mod error;
pub mod init;
pub mod invocation;
pub mod paths;
pub mod review;
pub mod shell;
pub mod state;
pub mod task;
pub mod text;
pub mod util;

verus! {

} // verus!
