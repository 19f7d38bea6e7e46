use vstd::prelude::*;

verus! {

/// An alternative as written in the election's configuration.
#[derive(Clone, Debug)]
pub struct AlternativeData {
    pub id: String,
    pub description: String,
    pub icon: String,
}

} // verus!

verus! {

/// The result of a closed election, frozen when it closed: the
/// alternatives, the edges of the duel graph, and what the resolver
/// made of it, if anything.
pub struct ResultData<S> {
    pub title: String,
    pub alternatives: Vec<crate::model::AlternativeData>,
    pub arrows: Vec<crate::duel::ArrowData>,
    pub strategy: Option<S>,
    pub winner: Option<usize>,
}

} // verus!
