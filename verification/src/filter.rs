//! The filter pipeline: steps that see a request before it is routed.
//!
//! The steps run in the order in which they were registered. Each hands the
//! request on, changed or not, or answers it, and then nothing after it
//! sees the request.

use vstd::prelude::*;
use crate::http::Request;
use crate::service::Readiness;

verus! {

/// Names a filter step that the application's owner supplies.
pub type FilterId = u64;

/// A chain of filter steps.
pub trait FilterChain {
    /// The steps, in the order in which they run.
    spec fn steps(&self) -> Seq<FilterId>;

    /// Adds the steps, in their order, to `steps`.
    fn collect(&self, steps: &mut Vec<FilterId>)
        ensures
            final(steps)@ == old(steps)@ + self.steps(),
    ;
}

/// The filter that every pipeline starts from: it is always ready and hands
/// each request on as it got it.
#[derive(Clone, Copy, Debug)]
pub struct Filter;

impl Filter {
    /// The identity filter.
    pub fn new() -> (filter: Filter)
        ensures
            filter == Filter,
    {
        Filter
    }

    /// The filter as a service.
    pub fn new_service(&self) -> (service: Filter)
        ensures
            service == *self,
    {
        Filter
    }

    /// The identity filter is always ready.
    pub fn poll_ready(&self) -> (r: Readiness)
        ensures
            r == Readiness::Ready,
    {
        Readiness::Ready
    }

    /// Hands `request` on unchanged.
    pub fn call(&self, request: Request) -> (passed: Request)
        ensures
            passed == request,
    {
        request
    }
}

impl FilterChain for Filter {
    open spec fn steps(&self) -> Seq<FilterId> {
        Seq::empty()
    }

    fn collect(&self, steps: &mut Vec<FilterId>) {
        assert(steps@ + Seq::<FilterId>::empty() =~= steps@);
    }
}

/// One filter step.
#[derive(Clone, Copy, Debug)]
pub struct FilterFn {
    pub id: FilterId,
}

impl FilterFn {
    /// The step `id`.
    pub fn new(id: FilterId) -> (step: FilterFn)
        ensures
            step.id == id,
    {
        FilterFn { id }
    }
}

impl FilterChain for FilterFn {
    open spec fn steps(&self) -> Seq<FilterId> {
        seq![self.id]
    }

    fn collect(&self, steps: &mut Vec<FilterId>) {
        steps.push(self.id);
        assert(steps@ =~= old(steps)@ + seq![self.id]);
    }
}

/// Two chains, of which `second` gets what `first` handed on.
pub struct AndThen<A, B> {
    pub first: A,
    pub second: B,
}

impl<A, B> AndThen<A, B> {
    /// The chain of `first` followed by `second`.
    pub fn new(first: A, second: B) -> (chain: AndThen<A, B>)
        ensures
            chain.first == first,
            chain.second == second,
    {
        AndThen { first, second }
    }
}

impl<A: FilterChain, B: FilterChain> FilterChain for AndThen<A, B> {
    open spec fn steps(&self) -> Seq<FilterId> {
        self.first.steps() + self.second.steps()
    }

    fn collect(&self, steps: &mut Vec<FilterId>) {
        self.first.collect(steps);
        self.second.collect(steps);
        assert(steps@ =~= old(steps)@ + self.steps());
    }
}

/// The identity filter adds nothing to a chain.
pub proof fn lemma_filter_identity<A: FilterChain>(a: A)
    ensures
        (AndThen { first: Filter, second: a }).steps() == a.steps(),
        (AndThen { first: a, second: Filter }).steps() == a.steps(),
{
    assert(Seq::<FilterId>::empty() + a.steps() =~= a.steps());
    assert(a.steps() + Seq::<FilterId>::empty() =~= a.steps());
}

} // verus!
