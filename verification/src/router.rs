//! Route tables and the selection of a route.
use brz_ds::EphemeralBytesArena;

use vstd::prelude::*;
use vstd::string::StringSliceAdditionalSpecFns;
#[allow(unused_imports)]
use vstd::utf8::*;

#[allow(unused_imports)]
use crate::methods::{bit_of, has_method, method_at, method_list_text, method_names};
use crate::methods::{bit_of_name, method_list};
#[allow(unused_imports)]
use crate::reply::{lemma_fixed_name, lemma_plain_value, plain_text};
use crate::reply::{HttpResponse, IntoHttpResponse};
#[allow(unused_imports)]
use crate::response::ResponseModel;
use crate::response::{Response, StatusCode};
#[allow(unused_imports)]
use crate::route::route_captures;
use crate::route::{match_route, DecodedRouteMatch};
#[allow(unused_imports)]
use crate::text::glued;

verus! {

/// A route template with the methods it accepts.
#[derive(Clone, Copy, Debug)]
pub struct RouteDescriptor {
    pub path: &'static str,
    /// Bitset of the accepted standard methods.
    pub methods: u16,
    pub priority: usize,
    /// Whether the requests that it answers are written to the API log.
    pub api_log: bool,
}

/// A route of one of the handlers of a [`Router`].
#[derive(Clone, Copy, Debug)]
pub struct RegisteredRoute {
    pub handler: usize,
    /// Position among the routes of its handler.
    pub endpoint: usize,
    pub descriptor: RouteDescriptor,
}

/// The handler that answers a request, and which of its routes it answers by.
#[derive(Clone, Copy, Debug, PartialEq, Eq, Structural)]
pub struct RouteTarget {
    pub handler: usize,
    /// Absent for a handler without route descriptors.
    pub endpoint: Option<usize>,
    pub priority: usize,
    /// Whether the request is written to the API log.
    pub api_log: bool,
}

/// Whether a route's template matches the path.
pub open spec fn applies(route: RegisteredRoute, path: Seq<char>) -> bool {
    route_captures(path, route.descriptor.path@) is Some
}

/// Whether a route also accepts the method.
pub open spec fn accepts(route: RegisteredRoute, path: Seq<char>, method: u16) -> bool {
    applies(route, path) && route.descriptor.methods & method != 0
}

pub open spec fn target_of(route: RegisteredRoute) -> RouteTarget {
    RouteTarget {
        handler: route.handler,
        endpoint: Some(route.endpoint),
        priority: route.descriptor.priority,
        api_log: route.descriptor.api_log,
    }
}

/// Whether the route at `chosen` comes before the one at `other`: by priority,
/// and by registration where the priorities are equal.
pub open spec fn precedes(routes: Seq<RegisteredRoute>, chosen: int, other: int) -> bool {
    ||| routes[chosen].descriptor.priority > routes[other].descriptor.priority
    ||| routes[chosen].descriptor.priority == routes[other].descriptor.priority && chosen <= other
}

/// Whether `chosen` is the route among the first `count` that answers.
pub open spec fn is_selected(
    routes: Seq<RegisteredRoute>,
    count: int,
    path: Seq<char>,
    method: u16,
    chosen: int,
) -> bool {
    &&& 0 <= chosen < count
    &&& accepts(routes[chosen], path, method)
    &&& forall|i: int|
        0 <= i < count && accepts(#[trigger] routes[i], path, method) ==> precedes(routes, chosen, i)
}

/// Whether `chosen` is the first of the routes whose template matches.
pub open spec fn is_most_specific(
    routes: Seq<RegisteredRoute>,
    count: int,
    path: Seq<char>,
    chosen: int,
) -> bool {
    &&& 0 <= chosen < count
    &&& applies(routes[chosen], path)
    &&& forall|i: int|
        0 <= i < count && applies(#[trigger] routes[i], path) ==> precedes(routes, chosen, i)
}

/// The methods of those of the first `count` routes whose template matches.
pub open spec fn allowed_methods(
    routes: Seq<RegisteredRoute>,
    count: int,
    path: Seq<char>,
) -> u16
    decreases count,
{
    if count <= 0 {
        0
    } else if applies(routes[count - 1], path) {
        allowed_methods(routes, count - 1, path) | routes[count - 1].descriptor.methods
    } else {
        allowed_methods(routes, count - 1, path)
    }
}

/// What was decided about a request from its path and method alone.
#[derive(Debug)]
pub struct PreparedRoute<'p> {
    /// The route that answers, if one accepts the method.
    pub target: Option<RouteTarget>,
    /// The route whose metrics record the request: the target, or else the most
    /// specific route whose template matches.
    pub metrics: Option<RouteTarget>,
    /// Methods that routes with a matching template accept.
    pub allowed: u16,
    /// Captures of the target.
    pub captures: Option<DecodedRouteMatch<'p>>,
}

/// What [`resolve`] decides.
pub open spec fn is_resolved(
    routes: Seq<RegisteredRoute>,
    path: Seq<char>,
    method: Seq<char>,
    prepared: PreparedRoute<'_>,
) -> bool {
    &&& match prepared.target {
        Some(target) => exists|chosen: int|
            {
                &&& #[trigger] is_selected(
                    routes,
                    routes.len() as int,
                    path,
                    bit_of(method),
                    chosen,
                )
                &&& target == target_of(routes[chosen])
                &&& prepared.captures matches Some(captures) && route_captures(
                    path,
                    routes[chosen].descriptor.path@,
                ) == Some(captures.captures())
                &&& prepared.metrics == Some(target)
            },
        None => {
            &&& forall|i: int|
                0 <= i < routes.len() ==> !accepts(#[trigger] routes[i], path, bit_of(method))
            &&& prepared.captures is None
            &&& match prepared.metrics {
                Some(metrics) => exists|chosen: int|
                    #[trigger] is_most_specific(
                        routes,
                        routes.len() as int,
                        path,
                        chosen,
                    ) && metrics == target_of(routes[chosen]),
                None => forall|i: int|
                    0 <= i < routes.len() ==> !applies(#[trigger] routes[i], path),
            }
        },
    }
    &&& prepared.allowed == allowed_methods(routes, routes.len() as int, path)
}

/// Selects the route that answers a request: of the routes whose template
/// matches and that accept the method the one with the highest priority, the
/// first registered one of several.
pub fn resolve<'p>(
    routes: &Vec<RegisteredRoute>,
    path: &'p str,
    method: &str,
) -> (prepared: PreparedRoute<'p>)
    ensures
        is_resolved(routes@, path@, method@, prepared),
{
    let bit: u16 = bit_of_name(method);
    let mut selected: Option<usize> = None;
    let mut captures: Option<DecodedRouteMatch<'p>> = None;
    let mut specific: Option<usize> = None;
    let mut allowed: u16 = 0;
    let mut i: usize = 0;
    while i < routes.len()
        invariant
            0 <= i <= routes@.len(),
            bit == bit_of(method@),
            allowed == allowed_methods(routes@, i as int, path@),
            match selected {
                Some(chosen) => {
                    &&& is_selected(routes@, i as int, path@, bit, chosen as int)
                    &&& captures matches Some(captures) && route_captures(
                        path@,
                        routes@[chosen as int].descriptor.path@,
                    ) == Some(captures.captures())
                },
                None => captures is None && forall|j: int|
                    0 <= j < i ==> !accepts(#[trigger] routes@[j], path@, bit),
            },
            match specific {
                Some(chosen) => is_most_specific(routes@, i as int, path@, chosen as int),
                None => forall|j: int| 0 <= j < i ==> !applies(#[trigger] routes@[j], path@),
            },
        decreases routes@.len() - i,
    {
        let route = routes[i];
        if let Some(matched) = match_route(path, route.descriptor.path) {
            allowed = allowed | route.descriptor.methods;
            let more_specific = match specific {
                Some(chosen) => route.descriptor.priority > routes[chosen].descriptor.priority,
                None => true,
            };
            if more_specific {
                specific = Some(i);
            }
            if route.descriptor.methods & bit != 0 {
                let better = match selected {
                    Some(chosen) => route.descriptor.priority > routes[chosen].descriptor.priority,
                    None => true,
                };
                if better {
                    selected = Some(i);
                    captures = Some(matched);
                }
            }
        }
        i += 1;
    }
    let target = match selected {
        Some(chosen) => Some(target_at(routes, chosen)),
        None => None,
    };
    let metrics = match selected {
        Some(chosen) => Some(target_at(routes, chosen)),
        None => match specific {
            Some(chosen) => Some(target_at(routes, chosen)),
            None => None,
        },
    };
    PreparedRoute { target, metrics, allowed, captures }
}

fn target_at(routes: &Vec<RegisteredRoute>, index: usize) -> (target: RouteTarget)
    requires
        index < routes@.len(),
    ensures
        target == target_of(routes@[index as int]),
{
    let route = &routes[index];
    RouteTarget {
        handler: route.handler,
        endpoint: Some(route.endpoint),
        priority: route.descriptor.priority,
        api_log: route.descriptor.api_log,
    }
}

/// Whether a handler without descriptors takes over from the present choice.
pub open spec fn takes_over(
    current: Option<RouteTarget>,
    handler: usize,
    priority: usize,
) -> bool {
    match current {
        Some(current) => priority > current.priority || (priority == current.priority && handler
            < current.handler),
        None => true,
    }
}

fn replaces(current: &Option<RouteTarget>, handler: usize, priority: usize) -> (taken: bool)
    ensures
        taken == takes_over(*current, handler, priority),
{
    match current {
        Some(current) => priority > current.priority || (priority == current.priority && handler
            < current.handler),
        None => true,
    }
}

impl<'p> PreparedRoute<'p> {
    /// A request that a single handler without descriptors answers.
    pub fn legacy(metrics: Option<usize>) -> (prepared: Self)
        ensures
            prepared.target is None,
            prepared.metrics == (match metrics {
                Some(priority) => Some(RouteTarget { handler: 0, endpoint: None, priority, api_log: true }),
                None => None,
            }),
            prepared.allowed == 0,
            prepared.captures is None,
    {
        PreparedRoute {
            target: None,
            metrics: match metrics {
                Some(priority) => Some(RouteTarget { handler: 0, endpoint: None, priority, api_log: true }),
                None => None,
            },
            allowed: 0,
            captures: None,
        }
    }

    /// Whether the request is written to the API log, as it is unless the
    /// route that answers it opted out.
    pub fn api_log(&self) -> (logged: bool)
        ensures
            logged == (match self.target {
                Some(target) => target.api_log,
                None => true,
            }),
    {
        match &self.target {
            Some(target) => target.api_log,
            None => true,
        }
    }

    /// Weighs a handler without descriptors, by what it says of the request:
    /// its priority where it accepts the request, the priority of its metrics,
    /// and the methods that it accepts on this path.
    pub fn consider_legacy(
        &mut self,
        handler: usize,
        priority: Option<usize>,
        metrics: Option<usize>,
        methods: u16,
    )
        ensures
            final(self).allowed == old(self).allowed | methods,
            match priority {
                Some(priority) if takes_over(old(self).target, handler, priority) => {
                    &&& final(self).target == Some(
                        RouteTarget { handler, endpoint: None, priority, api_log: true },
                    )
                    &&& final(self).captures is None
                    &&& final(self).metrics == (match metrics {
                        Some(_) => Some(RouteTarget { handler, endpoint: None, priority, api_log: true }),
                        None => None,
                    })
                },
                _ => {
                    &&& final(self).target == old(self).target
                    &&& final(self).captures == old(self).captures
                    &&& final(self).metrics == (match metrics {
                        Some(specific) if old(self).target is None && takes_over(
                            old(self).metrics,
                            handler,
                            specific,
                        ) => Some(RouteTarget { handler, endpoint: None, priority: specific, api_log: true }),
                        _ => old(self).metrics,
                    })
                },
            },
    {
        self.allowed = self.allowed | methods;
        if let Some(priority) = priority {
            if replaces(&self.target, handler, priority) {
                let target = RouteTarget { handler, endpoint: None, priority, api_log: true };
                self.target = Some(target);
                self.captures = None;
                self.metrics = match metrics {
                    Some(_) => Some(target),
                    None => None,
                };
                return ;
            }
        }
        if let Some(specific) = metrics {
            if self.target.is_none() && replaces(&self.metrics, handler, specific) {
                self.metrics = Some(RouteTarget { handler, endpoint: None, priority: specific, api_log: true });
            }
        }
    }
}

/// What a handler without descriptors says of a request: its priority where it
/// accepts the request, the priority of its metrics, and the methods that it
/// accepts on this path.
#[derive(Clone, Copy, Debug, PartialEq, Eq, Structural)]
pub struct LegacyOffer {
    pub priority: Option<usize>,
    pub metrics: Option<usize>,
    pub methods: u16,
}

/// What is decided about a request, without its captures.
#[verifier::ext_equal]
pub struct Choice {
    pub target: Option<RouteTarget>,
    pub metrics: Option<RouteTarget>,
    pub allowed: u16,
}

pub open spec fn choice_of(prepared: PreparedRoute<'_>) -> Choice {
    Choice { target: prepared.target, metrics: prepared.metrics, allowed: prepared.allowed }
}

/// A choice behind the offer of one more handler.
pub open spec fn weighed(choice: Choice, handler: usize, offer: LegacyOffer) -> Choice {
    let allowed = choice.allowed | offer.methods;
    match offer.priority {
        Some(priority) if takes_over(choice.target, handler, priority) => {
            let target = Some(RouteTarget { handler, endpoint: None, priority, api_log: true });
            Choice {
                target,
                metrics: if offer.metrics is Some {
                    target
                } else {
                    None
                },
                allowed,
            }
        },
        _ => Choice {
            target: choice.target,
            metrics: match offer.metrics {
                Some(priority) if choice.target is None && takes_over(
                    choice.metrics,
                    handler,
                    priority,
                ) => Some(RouteTarget { handler, endpoint: None, priority, api_log: true }),
                _ => choice.metrics,
            },
            allowed,
        },
    }
}

/// A choice behind the offers of the first `count` handlers.
pub open spec fn weighed_all(
    choice: Choice,
    handlers: Seq<usize>,
    offers: Seq<LegacyOffer>,
    count: int,
) -> Choice
    decreases count,
{
    if count <= 0 {
        choice
    } else {
        weighed(
            weighed_all(choice, handlers, offers, count - 1),
            handlers[count - 1],
            offers[count - 1],
        )
    }
}

/// Handlers with a flat table of their routes.
pub struct Router<H> {
    handlers: Vec<H>,
    routes: Vec<RegisteredRoute>,
    legacy: Vec<usize>,
}

/// The contents of a [`Router`].
#[verifier::ext_equal]
pub struct Table<H> {
    pub handlers: Seq<H>,
    pub routes: Seq<RegisteredRoute>,
    /// Handlers without route descriptors.
    pub legacy: Seq<usize>,
}

impl<H> Table<H> {
    /// Whether every route and every mark belongs to a handler of the table.
    pub open spec fn well_formed(self) -> bool {
        &&& self.handlers.len() <= usize::MAX
        &&& forall|i: int|
            0 <= i < self.routes.len() ==> (#[trigger] self.routes[i]).handler < self.handlers.len()
        &&& forall|i: int|
            0 <= i < self.legacy.len() ==> (#[trigger] self.legacy[i]) < self.handlers.len()
    }

    pub open spec fn empty() -> Self {
        Table { handlers: Seq::empty(), routes: Seq::empty(), legacy: Seq::empty() }
    }

    /// The table with one more handler and its routes.
    pub open spec fn with_handler(self, handler: H, descriptors: Seq<RouteDescriptor>) -> Self {
        let id = self.handlers.len() as usize;
        Table {
            handlers: self.handlers.push(handler),
            routes: self.routes + registered(id, descriptors, descriptors.len() as int),
            legacy: if descriptors.len() == 0 {
                self.legacy.push(id)
            } else {
                self.legacy
            },
        }
    }

    /// This table followed by another, whose handlers are renumbered.
    pub open spec fn merged(self, other: Self) -> Self {
        Table {
            handlers: self.handlers + other.handlers,
            routes: self.routes + rebased(other.routes, self.handlers.len()),
            legacy: self.legacy + other.legacy.map_values(
                |id: usize| (id + self.handlers.len()) as usize,
            ),
        }
    }
}

/// The first `count` routes of the handler with this number.
pub open spec fn registered(
    handler: usize,
    descriptors: Seq<RouteDescriptor>,
    count: int,
) -> Seq<RegisteredRoute> {
    Seq::new(
        count as nat,
        |i: int| RegisteredRoute { handler, endpoint: i as usize, descriptor: descriptors[i] },
    )
}

/// `routes` with their handlers' numbers moved up.
pub open spec fn rebased(routes: Seq<RegisteredRoute>, offset: nat) -> Seq<RegisteredRoute> {
    routes.map_values(
        |route: RegisteredRoute|
            RegisteredRoute { handler: (route.handler + offset) as usize, ..route },
    )
}

impl<H> View for Router<H> {
    type V = Table<H>;

    closed spec fn view(&self) -> Table<H> {
        Table { handlers: self.handlers@, routes: self.routes@, legacy: self.legacy@ }
    }
}

impl<H> Default for Router<H> {
    fn default() -> (router: Self)
        ensures
            router@ == Table::<H>::empty(),
    {
        let router = Router { handlers: Vec::new(), routes: Vec::new(), legacy: Vec::new() };
        assert(router@ =~= Table::<H>::empty());
        router
    }
}

impl<H> Router<H> {
    #[verifier::type_invariant]
    spec fn consistent(self) -> bool {
        self@.well_formed()
    }

    /// A router with a single handler.
    pub fn new(handler: H, descriptors: &[RouteDescriptor]) -> (router: Self)
        ensures
            router@ == Table::<H>::empty().with_handler(handler, descriptors@),
    {
        let mut router: Router<H> = Default::default();
        router.push(handler, descriptors);
        router
    }

    /// Adds a handler with its routes, behind those that are there.
    pub fn push(&mut self, handler: H, descriptors: &[RouteDescriptor])
        requires
            old(self)@.handlers.len() < usize::MAX,
        ensures
            final(self)@ == old(self)@.with_handler(handler, descriptors@),
    {
        let mut current: Router<H> = Default::default();
        std::mem::swap(&mut current, self);
        proof {
            use_type_invariant(&current);
        }
        let Router { mut handlers, mut routes, mut legacy } = current;
        let ghost before = old(self)@;
        let id: usize = handlers.len();
        if descriptors.len() == 0 {
            legacy.push(id);
        }
        let mut endpoint: usize = 0;
        assert(routes@ =~= before.routes + registered(id, descriptors@, 0));
        while endpoint < descriptors.len()
            invariant
                0 <= endpoint <= descriptors@.len(),
                routes@ == before.routes + registered(id, descriptors@, endpoint as int),
            decreases descriptors@.len() - endpoint,
        {
            routes.push(
                RegisteredRoute { handler: id, endpoint, descriptor: descriptors[endpoint] },
            );
            endpoint += 1;
            assert(routes@ =~= before.routes + registered(id, descriptors@, endpoint as int));
        }
        handlers.push(handler);
        let ghost after = before.with_handler(handler, descriptors@);
        assert(handlers@ =~= after.handlers && routes@ =~= after.routes && legacy@ =~= after.legacy);
        assert(after.well_formed()) by {
            assert forall|i: int| 0 <= i < after.routes.len() implies (#[trigger] after.routes[i]).handler
                < after.handlers.len() by {
                if i < before.routes.len() {
                    assert(before.routes[i].handler < before.handlers.len());
                }
            }
            assert forall|i: int| 0 <= i < after.legacy.len() implies (#[trigger] after.legacy[i])
                < after.handlers.len() by {
                if i < before.legacy.len() {
                    assert(before.legacy[i] < before.handlers.len());
                }
            }
        }
        *self = Router { handlers, routes, legacy };
    }

    /// Adds the handlers and routes of another router behind those that are
    /// there; it is never kept as a handler of its own.
    pub fn merge(self, other: Router<H>) -> (router: Self)
        requires
            self@.handlers.len() + other@.handlers.len() <= usize::MAX,
        ensures
            router@ == self@.merged(other@),
    {
        proof {
            use_type_invariant(&self);
            use_type_invariant(&other);
        }
        let ghost (left, right) = (self@, other@);
        let Router { mut handlers, mut routes, mut legacy } = self;
        let Router { handlers: more, routes: more_routes, legacy: more_legacy } = other;
        let offset: usize = handlers.len();
        let mut more = more;
        handlers.append(&mut more);
        let mut i: usize = 0;
        let ghost marks = right.legacy.map_values(|id: usize| (id + left.handlers.len()) as usize);
        assert(legacy@ =~= left.legacy + marks.take(0));
        while i < more_legacy.len()
            invariant
                0 <= i <= more_legacy@.len(),
                more_legacy@ == right.legacy,
                right.well_formed(),
                offset == left.handlers.len(),
                left.handlers.len() + right.handlers.len() <= usize::MAX,
                marks == right.legacy.map_values(
                    |id: usize| (id + left.handlers.len()) as usize,
                ),
                legacy@ == left.legacy + marks.take(i as int),
            decreases more_legacy@.len() - i,
        {
            assert(right.legacy[i as int] < right.handlers.len());
            legacy.push(more_legacy[i] + offset);
            i += 1;
            assert(legacy@ =~= left.legacy + marks.take(i as int));
        }
        assert(marks.take(i as int) =~= marks);
        let mut j: usize = 0;
        let ghost moved = rebased(right.routes, left.handlers.len());
        assert(routes@ =~= left.routes + moved.take(0));
        while j < more_routes.len()
            invariant
                0 <= j <= more_routes@.len(),
                more_routes@ == right.routes,
                right.well_formed(),
                offset == left.handlers.len(),
                left.handlers.len() + right.handlers.len() <= usize::MAX,
                moved == rebased(right.routes, left.handlers.len()),
                routes@ == left.routes + moved.take(j as int),
            decreases more_routes@.len() - j,
        {
            let route = more_routes[j];
            assert(right.routes[j as int].handler < right.handlers.len());
            routes.push(
                RegisteredRoute {
                    handler: route.handler + offset,
                    endpoint: route.endpoint,
                    descriptor: route.descriptor,
                },
            );
            j += 1;
            assert(routes@ =~= left.routes + moved.take(j as int));
        }
        assert(moved.take(j as int) =~= moved);
        let ghost after = left.merged(right);
        assert(handlers@ =~= after.handlers && routes@ =~= after.routes && legacy@ =~= after.legacy);
        proof {
            lemma_merged_well_formed(left, right);
        }
        Router { handlers, routes, legacy }
    }

    /// The handlers in their order of registration.
    pub fn handlers(&self) -> (handlers: &Vec<H>)
        ensures
            handlers@ == self@.handlers,
    {
        &self.handlers
    }

    /// The numbers of the handlers without descriptors.
    pub fn legacy_handlers(&self) -> (handlers: &Vec<usize>)
        ensures
            handlers@ == self@.legacy,
            forall|i: int| 0 <= i < handlers@.len() ==> handlers@[i] < self@.handlers.len(),
    {
        proof {
            use_type_invariant(self);
            assert forall|i: int| 0 <= i < self.legacy@.len() implies self.legacy@[i]
                < self@.handlers.len() by {
                assert(self@.legacy[i] < self@.handlers.len());
            }
        }
        &self.legacy
    }

    /// Decides which route with a descriptor answers a request.
    pub fn resolve<'p>(&self, path: &'p str, method: &str) -> (prepared: PreparedRoute<'p>)
        ensures
            is_resolved(self@.routes, path@, method@, prepared),
            prepared.target matches Some(target) ==> target.handler < self@.handlers.len(),
    {
        let prepared = resolve(&self.routes, path, method);
        proof {
            use_type_invariant(self);
            if prepared.target is Some {
                let chosen = choose|chosen: int|
                    #[trigger] is_selected(
                        self.routes@,
                        self.routes@.len() as int,
                        path@,
                        bit_of(method@),
                        chosen,
                    ) && prepared.target == Some(target_of(self.routes@[chosen]));
                assert(self@.routes[chosen].handler < self@.handlers.len());
            }
        }
        prepared
    }

    /// Decides what becomes of a request, given what each of the handlers
    /// without descriptors says of it, in their order.
    pub fn prepare<'p>(&self, path: &'p str, method: &str, offers: &[LegacyOffer]) -> (prepared:
        PreparedRoute<'p>)
        requires
            offers@.len() == self@.legacy.len(),
        ensures
            exists|resolved: PreparedRoute<'p>|
                {
                    &&& #[trigger] is_resolved(self@.routes, path@, method@, resolved)
                    &&& choice_of(prepared) == weighed_all(
                        choice_of(resolved),
                        self@.legacy,
                        offers@,
                        offers@.len() as int,
                    )
                    &&& prepared.captures == (if prepared.target == resolved.target {
                        resolved.captures
                    } else {
                        None
                    })
                },
            prepared.target matches Some(target) ==> target.handler < self@.handlers.len(),
    {
        let mut prepared = self.resolve(path, method);
        let ghost resolved = prepared;
        let legacy = self.legacy_handlers();
        let mut i: usize = 0;
        while i < legacy.len()
            invariant
                0 <= i <= legacy@.len(),
                legacy@ == self@.legacy,
                offers@.len() == legacy@.len(),
                forall|j: int| 0 <= j < legacy@.len() ==> legacy@[j] < self@.handlers.len(),
                is_resolved(self@.routes, path@, method@, resolved),
                choice_of(prepared) == weighed_all(
                    choice_of(resolved),
                    self@.legacy,
                    offers@,
                    i as int,
                ),
                resolved.target matches Some(target) ==> target.endpoint is Some,
                resolved.target is None ==> resolved.captures is None,
                prepared.captures == (if prepared.target == resolved.target {
                    resolved.captures
                } else {
                    None
                }),
                prepared.target != resolved.target ==> (prepared.target matches Some(target)
                    && target.endpoint is None),
                prepared.target matches Some(target) ==> target.handler < self@.handlers.len(),
            decreases legacy@.len() - i,
        {
            let offer = offers[i];
            prepared.consider_legacy(legacy[i], offer.priority, offer.metrics, offer.methods);
            i += 1;
        }
        prepared
    }
}

proof fn lemma_merged_well_formed<H>(left: Table<H>, right: Table<H>)
    requires
        left.well_formed(),
        right.well_formed(),
        left.handlers.len() + right.handlers.len() <= usize::MAX,
    ensures
        left.merged(right).well_formed(),
{
    let after = left.merged(right);
    assert forall|i: int| 0 <= i < after.routes.len() implies (#[trigger] after.routes[i]).handler
        < after.handlers.len() by {
        if i < left.routes.len() {
            assert(left.routes[i].handler < left.handlers.len());
        } else {
            assert(right.routes[i - left.routes.len()].handler < right.handlers.len());
        }
    }
    assert forall|i: int| 0 <= i < after.legacy.len() implies (#[trigger] after.legacy[i])
        < after.handlers.len() by {
        if i < left.legacy.len() {
            assert(left.legacy[i] < left.handlers.len());
        } else {
            assert(right.legacy[i - left.legacy.len()] < right.handlers.len());
        }
    }
}

/// Nested merging gives the table that merging one by one gives.
pub proof fn law_merging_is_associative<H>(a: Table<H>, b: Table<H>, c: Table<H>)
    requires
        a.well_formed(),
        b.well_formed(),
        c.well_formed(),
        a.handlers.len() + b.handlers.len() + c.handlers.len() <= usize::MAX,
    ensures
        a.merged(b).merged(c) == a.merged(b.merged(c)),
{
    let left = a.merged(b).merged(c);
    let right = a.merged(b.merged(c));
    assert(left.handlers =~= right.handlers);
    assert(left.routes.len() == right.routes.len());
    assert forall|i: int| 0 <= i < left.routes.len() implies left.routes[i]
        == right.routes[i] by {
        let j = i - a.routes.len() - b.routes.len();
        if j >= 0 {
            assert(c.routes[j].handler < c.handlers.len());
        }
    }
    assert(left.routes =~= right.routes);
    assert forall|i: int| 0 <= i < left.legacy.len() implies left.legacy[i]
        == right.legacy[i] by {
        let j = i - a.legacy.len() - b.legacy.len();
        if j >= 0 {
            assert(c.legacy[j] < c.handlers.len());
        }
    }
    assert(left.legacy =~= right.legacy);
}

/// An empty router adds nothing on either side.
pub proof fn law_merging_with_an_empty_router<H>(table: Table<H>)
    requires
        table.well_formed(),
    ensures
        table.merged(Table::<H>::empty()) == table,
        Table::<H>::empty().merged(table) == table,
{
    assert(table.merged(Table::<H>::empty()) =~= table);
    let right = Table::<H>::empty().merged(table);
    assert forall|i: int| 0 <= i < table.routes.len() implies right.routes[i]
        == table.routes[i] by {
        assert(table.routes[i].handler < table.handlers.len());
    }
    assert(right.routes =~= table.routes);
    assert forall|i: int| 0 <= i < table.legacy.len() implies right.legacy[i]
        == table.legacy[i] by {
        assert(table.legacy[i] < table.handlers.len());
    }
    assert(right =~= table);
}

/// A method is allowed on a path exactly where some route accepts it: a request
/// is answered by no route and allowed by none either, or the other way round.
pub proof fn law_allowed_methods_are_those_of_matching_routes(
    routes: Seq<RegisteredRoute>,
    count: int,
    path: Seq<char>,
    method: u16,
)
    requires
        0 <= count <= routes.len(),
    ensures
        allowed_methods(routes, count, path) & method != 0 <==> exists|i: int|
            0 <= i < count && accepts(#[trigger] routes[i], path, method),
    decreases count,
{
    if count > 0 {
        law_allowed_methods_are_those_of_matching_routes(routes, count - 1, path, method);
        let before = allowed_methods(routes, count - 1, path);
        let more = routes[count - 1].descriptor.methods;
        assert(((before | more) & method != 0) == (before & method != 0 || more & method != 0))
            by (bit_vector);
        if accepts(routes[count - 1], path, method) {
            assert(exists|i: int| 0 <= i < count && accepts(#[trigger] routes[i], path, method));
        }
    } else {
        assert(0u16 & method == 0) by (bit_vector);
    }
}

/// The response to a request that no route answers, given the methods that the
/// routes of its path accept.
pub open spec fn unmatched_response(methods: u16) -> ResponseModel {
    if methods == 0 {
        ResponseModel::empty(404)
    } else {
        ResponseModel::empty(405).with_lines(
            seq![("allow".spec_bytes(), encode_utf8(method_list_text(methods)))],
        )
    }
}

pub(crate) proof fn lemma_methods_plain(methods: u16, count: int)
    requires
        0 <= count <= 7,
    ensures
        plain_text(glued(method_names(methods, count), ", "@)),
    decreases count,
{
    reveal_strlit(", ");
    reveal_strlit("DELETE");
    reveal_strlit("GET");
    reveal_strlit("HEAD");
    reveal_strlit("OPTIONS");
    reveal_strlit("PATCH");
    reveal_strlit("POST");
    reveal_strlit("PUT");
    if count > 0 {
        lemma_methods_plain(methods, count - 1);
        let before = method_names(methods, count - 1);
        let name = method_at(count - 1);
        assert(plain_text(name));
        if has_method(methods, count - 1) {
            crate::text::lemma_glued_push(before, name, ", "@);
            let text = glued(before, ", "@);
            let all = glued(method_names(methods, count), ", "@);
            assert forall|i: int| 0 <= i < all.len() implies ' ' <= #[trigger] all[i] <= '~' by {
                if before.len() == 0 {
                    assert(all[i] == name[i]);
                } else if i < text.len() {
                    assert(all[i] == text[i]);
                } else if i < text.len() + 2 {
                    assert(all[i] == ", "@[i - text.len()]);
                } else {
                    assert(all[i] == name[i - text.len() - 2]);
                }
            }
        }
    }
}

/// Answers a request that no route answers: with 404 where no template matches
/// its path, else with 405 and the methods that are allowed.
pub fn unmatched(methods: u16, arena: &EphemeralBytesArena) -> (answer: Response)
    ensures
        answer@ == unmatched_response(methods),
{
    if methods == 0 {
        return Response::empty(StatusCode::new(404));
    }
    let allowed = method_list(methods);
    proof {
        reveal_strlit("allow");
        lemma_fixed_name("allow");
        lemma_methods_plain(methods, 7);
        lemma_plain_value(allowed@);
    }
    let reply = HttpResponse::new(Response::empty(StatusCode::new(405)));
    match reply.header("allow", allowed.as_str()) {
        Ok(reply) => {
            assert(reply.lines() =~= seq![("allow".spec_bytes(), encode_utf8(allowed@))]);
            reply.into_http_response(arena)
        },
        Err(_) => Response::conversion_failure(),
    }
}

} // verus!
