use vstd::prelude::*;

verus! {

/// The query of a listing: an optional state to filter on.
#[derive(Debug, Clone)]
pub struct ListQuery {
    pub status: Option<String>,
}

} // verus!
