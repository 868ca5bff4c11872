use vstd::prelude::*;

pub mod cmd;
pub mod session;

verus! {

} // verus!
