//! Middleware and the order in which it is stacked.
//!
//! A transform wraps a service into a new one. The layers of a service are
//! listed from the outermost, which sees a request first and its response
//! last, to the innermost.

use vstd::prelude::*;

verus! {

/// Names a middleware that the application's owner supplies.
pub type MiddlewareId = u64;

/// The layers around a service, outermost first.
pub struct Layers {
    order: Vec<MiddlewareId>,
}

impl View for Layers {
    type V = Seq<MiddlewareId>;

    closed spec fn view(&self) -> Seq<MiddlewareId> {
        self.order@
    }
}

impl Layers {
    /// A service without layers.
    pub fn bare() -> (layers: Layers)
        ensures
            layers@ == Seq::<MiddlewareId>::empty(),
    {
        Layers { order: Vec::new() }
    }

    /// The same service inside one more layer.
    pub fn wrapped_in(self, layer: MiddlewareId) -> (layers: Layers)
        ensures
            layers@ == seq![layer] + self@,
    {
        let mut order = self.order;
        order.insert(0, layer);
        assert(order@ =~= seq![layer] + self.order@);
        Layers { order }
    }

    /// The layers, outermost first.
    pub fn into_order(self) -> (order: Vec<MiddlewareId>)
        ensures
            order@ == self@,
    {
        self.order
    }
}

/// Wraps a service into a new one.
pub trait Transform {
    /// The layers that the transform puts around a service, outermost first.
    spec fn order(&self) -> Seq<MiddlewareId>;

    /// Puts the transform's layers around `service`.
    fn new_transform(&self, service: Layers) -> (wrapped: Layers)
        ensures
            wrapped@ == self.order() + service@,
    ;
}

/// The transform that leaves a service as it is.
#[derive(Clone, Copy, Debug)]
pub struct Identity;

impl Transform for Identity {
    open spec fn order(&self) -> Seq<MiddlewareId> {
        Seq::empty()
    }

    fn new_transform(&self, service: Layers) -> (wrapped: Layers) {
        assert(Seq::<MiddlewareId>::empty() + service@ =~= service@);
        service
    }
}

/// The transform that puts one middleware around a service.
#[derive(Clone, Copy, Debug)]
pub struct Middleware {
    pub id: MiddlewareId,
}

impl Middleware {
    /// The transform for the middleware `id`.
    pub fn new(id: MiddlewareId) -> (middleware: Middleware)
        ensures
            middleware.id == id,
    {
        Middleware { id }
    }
}

impl Transform for Middleware {
    open spec fn order(&self) -> Seq<MiddlewareId> {
        seq![self.id]
    }

    fn new_transform(&self, service: Layers) -> (wrapped: Layers) {
        service.wrapped_in(self.id)
    }
}

/// Two transforms, of which `outer` is applied to what `inner` made.
pub struct Stack<Inner, Outer> {
    pub inner: Inner,
    pub outer: Outer,
}

impl<Inner, Outer> Stack<Inner, Outer> {
    /// The stack of `inner` inside `outer`.
    pub fn new(inner: Inner, outer: Outer) -> (stack: Stack<Inner, Outer>)
        ensures
            stack.inner == inner,
            stack.outer == outer,
    {
        Stack { inner, outer }
    }
}

impl<Inner: Transform, Outer: Transform> Transform for Stack<Inner, Outer> {
    open spec fn order(&self) -> Seq<MiddlewareId> {
        self.outer.order() + self.inner.order()
    }

    fn new_transform(&self, service: Layers) -> (wrapped: Layers) {
        let wrapped = self.outer.new_transform(self.inner.new_transform(service));
        assert(wrapped@ =~= self.order() + service@);
        wrapped
    }
}

/// Stacking is associative: three transforms give the same layers however
/// they are grouped.
pub proof fn lemma_stack_associative<A: Transform, B: Transform, C: Transform>(a: A, b: B, c: C)
    ensures
        (Stack { inner: Stack { inner: a, outer: b }, outer: c }).order() == (Stack {
            inner: a,
            outer: Stack { inner: b, outer: c },
        }).order(),
{
    assert(c.order() + (b.order() + a.order()) =~= (c.order() + b.order()) + a.order());
}

/// The identity changes nothing, inside or outside another transform.
pub proof fn lemma_stack_identity<A: Transform>(a: A)
    ensures
        (Stack { inner: Identity, outer: a }).order() == a.order(),
        (Stack { inner: a, outer: Identity }).order() == a.order(),
{
    assert(a.order() + Seq::<MiddlewareId>::empty() =~= a.order());
    assert(Seq::<MiddlewareId>::empty() + a.order() =~= a.order());
}

/// Stacking is not commutative: two different middlewares in the other
/// order give other layers.
pub proof fn lemma_stack_order_matters(a: MiddlewareId, b: MiddlewareId)
    requires
        a != b,
    ensures
        (Stack { inner: Middleware { id: a }, outer: Middleware { id: b } }).order() != (Stack {
            inner: Middleware { id: b },
            outer: Middleware { id: a },
        }).order(),
{
    let ab = (Stack { inner: Middleware { id: a }, outer: Middleware { id: b } }).order();
    let ba = (Stack { inner: Middleware { id: b }, outer: Middleware { id: a } }).order();
    assert(ab[0] == b);
    assert(ba[0] == a);
}

/// A middleware wrapped around a service later than another lies outside
/// it: after `a` and then `b` were wrapped around what `rest` makes, `b`
/// is the outermost layer and `a` the next.
pub proof fn lemma_later_wrap_is_outer<M: Transform>(rest: M, a: MiddlewareId, b: MiddlewareId)
    ensures
        (Stack {
            inner: Stack { inner: rest, outer: Middleware { id: a } },
            outer: Middleware { id: b },
        }).order() == seq![b, a] + rest.order(),
{
    assert(seq![b] + (seq![a] + rest.order()) =~= seq![b, a] + rest.order());
}

} // verus!
