use vstd::prelude::*;

pub mod message;
pub mod writer;
pub mod reactor;
pub mod irc;

verus! {

} // verus!
