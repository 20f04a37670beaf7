//! Filters around a handler.
use vstd::prelude::*;

use crate::request::Request;
use crate::response::Response;

verus! {

/// What a filter decides about a request.
#[derive(Debug)]
pub enum FilterDecision {
    /// The handler is asked.
    Continue,
    /// This response is given; the handler is not asked.
    Respond(Box<Response>),
}

impl FilterDecision {
    /// Answers in place of the handler.
    pub fn respond(response: Response) -> (decision: Self)
        ensures
            decision == FilterDecision::Respond(Box::new(response)),
    {
        FilterDecision::Respond(Box::new(response))
    }
}

/// A rule for requests and responses that knows nothing of the handler.
pub trait HttpFilter {
    /// Looks at a request before the handler is asked.
    fn before(&self, request: &Request<'_>) -> (decision: FilterDecision)
        default_ensures
            decision == FilterDecision::Continue,
    {
        FilterDecision::Continue
    }

    /// Changes the response, whoever gave it.
    fn after(&self, request: &Request<'_>, response: Response) -> (filtered: Response)
        default_ensures
            filtered == response,
    {
        response
    }
}

/// A handler as its filters see it: what happens before it is asked, and what
/// happens to its response.
pub trait Exchange {
    /// A response that is given without asking the handler.
    fn begin(&self, request: &Request<'_>) -> (early: Option<Response>)
        default_ensures
            early is None,
    {
        None
    }

    /// What becomes of the handler's response.
    fn finish(&self, request: &Request<'_>, response: Response) -> (answer: Response)
        default_ensures
            answer == response,
    {
        response
    }
}

/// A handler with a filter around it.
#[derive(Debug)]
pub struct Filtered<H, F> {
    inner: H,
    filter: F,
}

impl<H, F> Filtered<H, F> {
    pub closed spec fn inner_spec(self) -> H {
        self.inner
    }

    pub closed spec fn filter_spec(self) -> F {
        self.filter
    }

    pub fn new(inner: H, filter: F) -> (filtered: Self)
        ensures
            filtered.inner_spec() == inner,
            filtered.filter_spec() == filter,
    {
        Filtered { inner, filter }
    }

    pub fn into_inner(self) -> (inner: H)
        ensures
            inner == self.inner_spec(),
    {
        self.inner
    }

    pub fn inner(&self) -> (inner: &H)
        ensures
            *inner == self.inner_spec(),
    {
        &self.inner
    }

    pub fn filter(&self) -> (filter: &F)
        ensures
            *filter == self.filter_spec(),
    {
        &self.filter
    }
}

impl<H: Exchange, F: HttpFilter> Exchange for Filtered<H, F> {
    fn begin(&self, request: &Request<'_>) -> (early: Option<Response>)
        ensures
            exists|decision: FilterDecision|
                #[trigger] call_ensures(F::before, (&self.filter_spec(), request), decision)
                    && match decision {
                    FilterDecision::Respond(given) => early matches Some(answer) && call_ensures(
                        F::after,
                        (&self.filter_spec(), request, *given),
                        answer,
                    ),
                    FilterDecision::Continue => exists|inner: Option<Response>|
                        #[trigger] call_ensures(H::begin, (&self.inner_spec(), request), inner)
                            && match inner {
                            Some(given) => early matches Some(answer) && call_ensures(
                                F::after,
                                (&self.filter_spec(), request, given),
                                answer,
                            ),
                            None => early is None,
                        },
                },
    {
        let decision = self.filter.before(request);
        assert(call_ensures(F::before, (&self.filter_spec(), request), decision));
        match decision {
            FilterDecision::Respond(response) => Some(self.filter.after(request, *response)),
            FilterDecision::Continue => {
                let inner = self.inner.begin(request);
                assert(call_ensures(H::begin, (&self.inner_spec(), request), inner));
                match inner {
                    Some(response) => Some(self.filter.after(request, response)),
                    None => None,
                }
            },
        }
    }

    fn finish(&self, request: &Request<'_>, response: Response) -> (answer: Response)
        ensures
            exists|inner: Response|
                #[trigger] call_ensures(H::finish, (&self.inner_spec(), request, response), inner)
                    && call_ensures(F::after, (&self.filter_spec(), request, inner), answer),
    {
        let inner = self.inner.finish(request, response);
        self.filter.after(request, inner)
    }
}

/// Response hooks run from the inside out: the handler's response goes through
/// the inner filter, and what comes out of it through the outer one.
pub proof fn law_response_hooks_run_inside_out<H: Exchange, I: HttpFilter, O: HttpFilter>(
    nested: Filtered<Filtered<H, I>, O>,
    request: &Request<'_>,
    response: Response,
    answer: Response,
)
    requires
        call_ensures(
            <Filtered<Filtered<H, I>, O> as Exchange>::finish,
            (&nested, request, response),
            answer,
        ),
    ensures
        exists|handled: Response, inner: Response|
            #[trigger] call_ensures(
                H::finish,
                (&nested.inner_spec().inner_spec(), request, response),
                handled,
            ) && #[trigger] call_ensures(
                I::after,
                (&nested.inner_spec().filter_spec(), request, handled),
                inner,
            ) && call_ensures(O::after, (&nested.filter_spec(), request, inner), answer),
{
}

/// Request hooks run from the outside in: the inner filter is asked only where
/// the outer one lets the request through, and what it answers in the handler's
/// place goes through both response hooks.
pub proof fn law_request_hooks_run_outside_in<H: Exchange, I: HttpFilter, O: HttpFilter>(
    nested: Filtered<Filtered<H, I>, O>,
    request: &Request<'_>,
    early: Option<Response>,
)
    requires
        call_ensures(
            <Filtered<Filtered<H, I>, O> as Exchange>::begin,
            (&nested, request),
            early,
        ),
    ensures
        exists|outer: FilterDecision| #[trigger]
            call_ensures(O::before, (&nested.filter_spec(), request), outer) && match outer {
                FilterDecision::Respond(given) => early matches Some(answer) && call_ensures(
                    O::after,
                    (&nested.filter_spec(), request, *given),
                    answer,
                ),
                FilterDecision::Continue => exists|inner: FilterDecision| #[trigger]
                    call_ensures(
                        I::before,
                        (&nested.inner_spec().filter_spec(), request),
                        inner,
                    ) && match inner {
                        FilterDecision::Respond(given) => exists|halfway: Response| #[trigger]
                            call_ensures(
                                I::after,
                                (&nested.inner_spec().filter_spec(), request, *given),
                                halfway,
                            ) && (early matches Some(answer) && call_ensures(
                                O::after,
                                (&nested.filter_spec(), request, halfway),
                                answer,
                            )),
                        FilterDecision::Continue => true,
                    },
            },
{
    let outer = choose|outer: FilterDecision| #[trigger]
        call_ensures(O::before, (&nested.filter_spec(), request), outer) && match outer {
            FilterDecision::Respond(given) => early matches Some(answer) && call_ensures(
                O::after,
                (&nested.filter_spec(), request, *given),
                answer,
            ),
            FilterDecision::Continue => exists|inner: Option<Response>| #[trigger]
                call_ensures(
                    <Filtered<H, I> as Exchange>::begin,
                    (&nested.inner_spec(), request),
                    inner,
                ) && match inner {
                    Some(given) => early matches Some(answer) && call_ensures(
                        O::after,
                        (&nested.filter_spec(), request, given),
                        answer,
                    ),
                    None => early is None,
                },
        };
    assert(call_ensures(O::before, (&nested.filter_spec(), request), outer));
}

} // verus!
