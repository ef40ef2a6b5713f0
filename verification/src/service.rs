//! The readiness protocol, and what can go wrong while a service is built
//! or a request is handled.
//!
//! A service is asked whether it is ready before it is called. It answers
//! that it is ready, that it is not ready yet, or that it has failed for
//! good. A service made of several is ready when all of them are.

use vstd::prelude::*;
use crate::http::{bare_response, Response, ResponseView, StatusCode};
use crate::router::TypeKey;

verus! {

/// The answer to a readiness check.
#[derive(Clone, Copy, Debug, PartialEq, Eq, Structural)]
pub enum Readiness {
    /// The service takes a call.
    Ready,
    /// The service takes no call now; ask again later.
    Pending,
    /// The service will never take a call again.
    Failed,
}

/// Readiness of two services taken together.
pub open spec fn both_ready(a: Readiness, b: Readiness) -> Readiness {
    if a == Readiness::Failed || b == Readiness::Failed {
        Readiness::Failed
    } else if a == Readiness::Pending || b == Readiness::Pending {
        Readiness::Pending
    } else {
        Readiness::Ready
    }
}

/// Readiness of a number of services taken together: failed where one of
/// them has failed, else pending where one of them is pending, else ready.
pub open spec fn all_ready(reports: Seq<Readiness>) -> Readiness
    decreases reports.len(),
{
    if reports.len() == 0 {
        Readiness::Ready
    } else {
        both_ready(all_ready(reports.drop_last()), reports.last())
    }
}

/// What `all_ready` says, without the recursion.
pub proof fn lemma_all_ready(reports: Seq<Readiness>)
    ensures
        all_ready(reports) == Readiness::Failed <==> exists|i: int|
            0 <= i < reports.len() && #[trigger] reports[i] == Readiness::Failed,
        all_ready(reports) == Readiness::Ready <==> forall|i: int|
            0 <= i < reports.len() ==> #[trigger] reports[i] == Readiness::Ready,
    decreases reports.len(),
{
    if reports.len() > 0 {
        let before = reports.drop_last();
        lemma_all_ready(before);
        if all_ready(before) == Readiness::Failed {
            let i = choose|i: int| 0 <= i < before.len() && #[trigger] before[i] == Readiness::Failed;
            assert(reports[i] == Readiness::Failed);
        }
        if reports.last() == Readiness::Failed {
            assert(reports[reports.len() - 1] == Readiness::Failed);
        }
        if exists|i: int| 0 <= i < reports.len() && #[trigger] reports[i] == Readiness::Failed {
            let i = choose|i: int|
                0 <= i < reports.len() && #[trigger] reports[i] == Readiness::Failed;
            if i < before.len() {
                assert(before[i] == Readiness::Failed);
            }
        }
        if all_ready(reports) == Readiness::Ready {
            assert forall|i: int| 0 <= i < reports.len() implies #[trigger] reports[i]
                == Readiness::Ready by {
                if i < before.len() {
                    assert(before[i] == reports[i]);
                }
            }
        }
        if forall|i: int| 0 <= i < reports.len() ==> #[trigger] reports[i] == Readiness::Ready {
            assert forall|i: int| 0 <= i < before.len() implies #[trigger] before[i]
                == Readiness::Ready by {
                assert(before[i] == reports[i]);
            }
            assert(reports[reports.len() - 1] == Readiness::Ready);
        }
    }
}

impl Readiness {
    /// Readiness of this service and `other` taken together.
    pub fn and(self, other: Readiness) -> (r: Readiness)
        ensures
            r == both_ready(self, other),
    {
        if self == Readiness::Failed || other == Readiness::Failed {
            Readiness::Failed
        } else if self == Readiness::Pending || other == Readiness::Pending {
            Readiness::Pending
        } else {
            Readiness::Ready
        }
    }

    /// Readiness of the services that gave `reports`, taken together.
    pub fn all(reports: &[Readiness]) -> (r: Readiness)
        ensures
            r == all_ready(reports@),
    {
        let mut r = Readiness::Ready;
        let mut i: usize = 0;
        while i < reports.len()
            invariant
                i <= reports.len(),
                r == all_ready(reports@.take(i as int)),
            decreases reports.len() - i,
        {
            assert(reports@.take(i + 1).drop_last() =~= reports@.take(i as int));
            r = r.and(reports[i]);
            i += 1;
        }
        assert(reports@.take(reports.len() as int) =~= reports@);
        r
    }
}

/// Where a service stands between readiness checks and calls.
#[derive(Clone, Copy, Debug, PartialEq, Eq, Structural)]
pub enum ServiceState {
    /// No call is allowed before a readiness check has found the service
    /// ready.
    Idle,
    /// The last readiness check allows one call.
    Ready,
    /// A call is under way; until it has ended, a readiness check finds
    /// the service pending.
    Busy,
    /// A readiness check has failed; the service takes no call any more.
    Failed,
}

/// What a readiness check reports for a service in `state` whose parts
/// gave `reports`: a failed service stays failed, and a busy one is
/// pending whatever its parts say.
pub open spec fn checked(state: ServiceState, reports: Seq<Readiness>) -> Readiness {
    match state {
        ServiceState::Failed => Readiness::Failed,
        ServiceState::Busy => Readiness::Pending,
        _ => all_ready(reports),
    }
}

/// The state of a service after a readiness check.
pub open spec fn after_check(state: ServiceState, reports: Seq<Readiness>) -> ServiceState {
    match state {
        ServiceState::Failed => ServiceState::Failed,
        ServiceState::Busy => ServiceState::Busy,
        _ => match all_ready(reports) {
            Readiness::Ready => ServiceState::Ready,
            Readiness::Pending => ServiceState::Idle,
            Readiness::Failed => ServiceState::Failed,
        },
    }
}

/// Why a request got no response from the service that was asked.
#[derive(Clone, Copy, Debug, PartialEq, Eq, Structural)]
pub enum Failure {
    /// A handler asked for application data of a type that has none.
    MissingData(TypeKey),
    /// A handler's argument could not be made from the request.
    Extraction,
    /// A service failed while it handled the request.
    Service,
    /// A service answered with something it was not asked for.
    Protocol,
}

/// Why no service was built.
#[derive(Clone, Copy, Debug, PartialEq, Eq, Structural)]
pub enum InitError {
    /// One of the application's services could not be built.
    Service,
    /// The number of data factory outcomes is not the number of data
    /// factories.
    Outcomes,
}

/// Turns a failure into the response that the client gets.
pub trait ErrorRenderer {
    /// The response for `failure`.
    spec fn rendered(&self, failure: Failure) -> ResponseView;

    /// Renders `failure`.
    fn render(&self, failure: Failure) -> (response: Response)
        ensures
            response@ == self.rendered(failure),
    ;
}

/// The status that [`DefaultError`] answers a failure with.
pub open spec fn default_status(failure: Failure) -> u16 {
    match failure {
        Failure::Extraction => 400,
        _ => 500,
    }
}

/// Renders a failure as a status without headers or body, so that nothing
/// of its cause reaches the client.
#[derive(Clone, Copy, Debug)]
pub struct DefaultError;

impl ErrorRenderer for DefaultError {
    open spec fn rendered(&self, failure: Failure) -> ResponseView {
        bare_response(default_status(failure))
    }

    fn render(&self, failure: Failure) -> (response: Response) {
        match failure {
            Failure::Extraction => Response::new(StatusCode::bad_request()),
            _ => Response::new(StatusCode::internal_server_error()),
        }
    }
}

} // verus!
