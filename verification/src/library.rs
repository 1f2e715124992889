//! Values the hack-library queries carry. The queries themselves run
//! against the relational store outside the library.

use vstd::prelude::*;

verus! {

/// The filter choices the library offers: the distinct difficulties and
/// hack types present in the catalog.
pub struct FilterOptions {
    pub difficulties: Vec<String>,
    pub hack_types: Vec<String>,
}

} // verus!
