//! HTTP request methods.
use vstd::prelude::*;

verus! {

/// The method of an HTTP request.
#[derive(Debug, Clone, Copy, PartialEq, Eq, Hash, Structural)]
pub enum Method {
    Get,
    Post,
    Put,
    Patch,
    Delete,
    Head,
}

} // verus!
