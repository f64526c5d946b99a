use vstd::prelude::*;

pub mod text;
pub mod paths;
pub mod proto;
pub mod source;
pub mod git;
pub mod grpc;
pub mod workflow;
pub mod json;
pub mod template;
pub mod normalize;
pub mod enums;
pub mod tree;

verus! {

} // verus!
