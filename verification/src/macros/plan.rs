//! What an adapter does for a request before and behind the call of a function.
use vstd::prelude::*;

use crate::macros::arguments::AuthMode;
use crate::macros::dispatch::group_methods;
#[allow(unused_imports)]
use crate::macros::dispatch::group_bits;
use crate::macros::endpoint::{Endpoint, Parameter, ParameterSource};
#[allow(unused_imports)]
use crate::macros::endpoint::{
    auth_fault, authenticated_from, parameter_models, EndpointModel, ParameterModel, SourceModel,
};
use crate::macros::groups::RouteGroup;
#[allow(unused_imports)]
use crate::macros::groups::{endpoint_models};
#[allow(unused_imports)]
use crate::macros::syntax::TypeModel;
use crate::macros::syntax::{ResultKind, TypeSyntax};
#[allow(unused_imports)]
use crate::params::texts;
use crate::rejection::RejectionKind;

verus! {

/// How the value of a parameter is made.
#[derive(Debug)]
pub enum Extraction<'a> {
    /// From the capture with this index.
    Path(usize),
    QueryRequired { key: &'a str, ty: &'a TypeSyntax },
    QueryOptional { key: &'a str, inner: &'a TypeSyntax },
    QueryMany { key: &'a str, inner: &'a TypeSyntax },
    QueryObject,
    HeaderRequired { name: &'a str, ty: &'a TypeSyntax },
    HeaderOptional { name: &'a str, inner: &'a TypeSyntax },
    Form,
    Multipart,
    RawBody,
    BorrowedBody,
    Json,
    /// By borrowing the dependency of this name.
    Borrowed(&'a str),
    /// By cloning the dependency of this name.
    Cloned(&'a str),
}

/// What an [`Extraction`] says.
pub enum ExtractionModel {
    Path(usize),
    QueryRequired { key: Seq<char>, ty: TypeModel },
    QueryOptional { key: Seq<char>, inner: TypeModel },
    QueryMany { key: Seq<char>, inner: TypeModel },
    QueryObject,
    HeaderRequired { name: Seq<char>, ty: TypeModel },
    HeaderOptional { name: Seq<char>, inner: TypeModel },
    Form,
    Multipart,
    RawBody,
    BorrowedBody,
    Json,
    Borrowed(Seq<char>),
    Cloned(Seq<char>),
}

impl<'a> View for Extraction<'a> {
    type V = ExtractionModel;

    open spec fn view(&self) -> ExtractionModel {
        match self {
            Extraction::Path(index) => ExtractionModel::Path(*index),
            Extraction::QueryRequired { key, ty } => ExtractionModel::QueryRequired {
                key: key@,
                ty: ty.model(),
            },
            Extraction::QueryOptional { key, inner } => ExtractionModel::QueryOptional {
                key: key@,
                inner: inner.model(),
            },
            Extraction::QueryMany { key, inner } => ExtractionModel::QueryMany {
                key: key@,
                inner: inner.model(),
            },
            Extraction::QueryObject => ExtractionModel::QueryObject,
            Extraction::HeaderRequired { name, ty } => ExtractionModel::HeaderRequired {
                name: name@,
                ty: ty.model(),
            },
            Extraction::HeaderOptional { name, inner } => ExtractionModel::HeaderOptional {
                name: name@,
                inner: inner.model(),
            },
            Extraction::Form => ExtractionModel::Form,
            Extraction::Multipart => ExtractionModel::Multipart,
            Extraction::RawBody => ExtractionModel::RawBody,
            Extraction::BorrowedBody => ExtractionModel::BorrowedBody,
            Extraction::Json => ExtractionModel::Json,
            Extraction::Borrowed(name) => ExtractionModel::Borrowed(name@),
            Extraction::Cloned(name) => ExtractionModel::Cloned(name@),
        }
    }
}

/// What a refused parameter is shown with.
#[derive(Debug)]
pub enum RefusedInput<'a> {
    /// The capture with this index.
    Capture(usize),
    /// The last value of the query under this key.
    Query(&'a str),
    /// The header of this name.
    Header(&'a str),
    /// The body as text.
    Body,
}

/// What a [`RefusedInput`] says.
pub enum RefusedModel {
    Capture(usize),
    Query(Seq<char>),
    Header(Seq<char>),
    Body,
}

impl<'a> View for RefusedInput<'a> {
    type V = RefusedModel;

    open spec fn view(&self) -> RefusedModel {
        match self {
            RefusedInput::Capture(index) => RefusedModel::Capture(*index),
            RefusedInput::Query(key) => RefusedModel::Query(key@),
            RefusedInput::Header(name) => RefusedModel::Header(name@),
            RefusedInput::Body => RefusedModel::Body,
        }
    }
}

/// What a value that cannot be made is answered with.
#[derive(Debug)]
pub enum OnFailure<'a> {
    /// A rejection of this kind.
    Reject { kind: RejectionKind, input: RefusedInput<'a> },
    /// The rejection of the body, which its error decides.
    RejectBody,
    /// The value can always be made.
    Never,
}

/// What an [`OnFailure`] says.
pub enum FailureModel {
    Reject { kind: RejectionKind, input: RefusedModel },
    RejectBody,
    Never,
}

impl<'a> View for OnFailure<'a> {
    type V = FailureModel;

    open spec fn view(&self) -> FailureModel {
        match self {
            OnFailure::Reject { kind, input } => FailureModel::Reject {
                kind: *kind,
                input: input@,
            },
            OnFailure::RejectBody => FailureModel::RejectBody,
            OnFailure::Never => FailureModel::Never,
        }
    }
}

/// How a parameter is bound.
#[derive(Debug)]
pub struct BindingPlan<'a> {
    pub ident: &'a str,
    pub ty: &'a TypeSyntax,
    pub extraction: Extraction<'a>,
    pub on_failure: OnFailure<'a>,
}

/// What a [`BindingPlan`] says.
#[verifier::ext_equal]
pub struct BindingPlanModel {
    pub ident: Seq<char>,
    pub ty: TypeModel,
    pub extraction: ExtractionModel,
    pub on_failure: FailureModel,
}

impl<'a> View for BindingPlan<'a> {
    type V = BindingPlanModel;

    open spec fn view(&self) -> BindingPlanModel {
        BindingPlanModel {
            ident: self.ident@,
            ty: self.ty.model(),
            extraction: self.extraction@,
            on_failure: self.on_failure@,
        }
    }
}

pub open spec fn plan_models(plans: Seq<BindingPlan<'_>>) -> Seq<BindingPlanModel> {
    plans.map_values(|plan: BindingPlan<'_>| plan@)
}

/// How the value of a parameter is made. That of an authenticated one is not
/// made here.
pub open spec fn extraction_of(parameter: ParameterModel) -> Option<ExtractionModel> {
    match parameter.source {
        SourceModel::Path(index) => Some(ExtractionModel::Path(index)),
        SourceModel::Query { key, optional_inner } => match optional_inner {
            Some(inner) => Some(ExtractionModel::QueryOptional { key, inner }),
            None => Some(ExtractionModel::QueryRequired { key, ty: parameter.ty }),
        },
        SourceModel::Header { name, optional_inner } => match optional_inner {
            Some(inner) => Some(ExtractionModel::HeaderOptional { name, inner }),
            None => Some(ExtractionModel::HeaderRequired { name, ty: parameter.ty }),
        },
        SourceModel::Authenticated => None,
        SourceModel::JsonBody => Some(ExtractionModel::Json),
        SourceModel::QueryObject => Some(ExtractionModel::QueryObject),
        SourceModel::QueryMany(inner) => Some(
            ExtractionModel::QueryMany { key: parameter.ident, inner },
        ),
        SourceModel::FormBody => Some(ExtractionModel::Form),
        SourceModel::MultipartBody => Some(ExtractionModel::Multipart),
        SourceModel::RawBody => Some(ExtractionModel::RawBody),
        SourceModel::BorrowedBody => Some(ExtractionModel::BorrowedBody),
        SourceModel::Injected(name) => if parameter.ty is Reference {
            Some(ExtractionModel::Borrowed(name))
        } else {
            Some(ExtractionModel::Cloned(name))
        },
    }
}

/// What a parameter whose value cannot be made is answered with.
pub open spec fn failure_of(parameter: ParameterModel) -> FailureModel {
    match parameter.source {
        SourceModel::Path(index) => FailureModel::Reject {
            kind: RejectionKind::Path,
            input: RefusedModel::Capture(index),
        },
        SourceModel::Query { .. } | SourceModel::QueryMany(_) | SourceModel::QueryObject =>
        FailureModel::Reject {
            kind: RejectionKind::Query,
            input: RefusedModel::Query(parameter.ident),
        },
        SourceModel::Header { name, .. } => FailureModel::Reject {
            kind: RejectionKind::Header,
            input: RefusedModel::Header(name),
        },
        SourceModel::JsonBody => FailureModel::Reject {
            kind: RejectionKind::Body,
            input: RefusedModel::Body,
        },
        SourceModel::FormBody | SourceModel::MultipartBody => FailureModel::RejectBody,
        _ => FailureModel::Never,
    }
}

/// How a parameter is bound.
pub open spec fn binding_plan(parameter: ParameterModel) -> Option<BindingPlanModel> {
    match extraction_of(parameter) {
        Some(extraction) => Some(
            BindingPlanModel {
                ident: parameter.ident,
                ty: parameter.ty,
                extraction,
                on_failure: failure_of(parameter),
            },
        ),
        None => None,
    }
}

pub open spec fn plan_model(plan: Option<BindingPlan<'_>>) -> Option<BindingPlanModel> {
    match plan {
        Some(plan) => Some(plan@),
        None => None,
    }
}

/// Plans the binding of a parameter.
pub fn expand_parameter<'a>(parameter: &'a Parameter<'a>) -> (plan: Option<BindingPlan<'a>>)
    ensures
        plan_model(plan) == binding_plan(parameter@),
{
    let ident = parameter.ident;
    let ty = parameter.ty;
    let (extraction, on_failure) = match &parameter.source {
        ParameterSource::Path(index) => (
            Extraction::Path(*index),
            OnFailure::Reject { kind: RejectionKind::Path, input: RefusedInput::Capture(*index) },
        ),
        ParameterSource::Query { key, optional_inner } => (
            match optional_inner {
                Some(inner) => Extraction::QueryOptional { key: *key, inner: *inner },
                None => Extraction::QueryRequired { key: *key, ty },
            },
            OnFailure::Reject { kind: RejectionKind::Query, input: RefusedInput::Query(ident) },
        ),
        ParameterSource::Header { name, optional_inner } => (
            match optional_inner {
                Some(inner) => Extraction::HeaderOptional { name: name.as_str(), inner: *inner },
                None => Extraction::HeaderRequired { name: name.as_str(), ty },
            },
            OnFailure::Reject { kind: RejectionKind::Header, input: RefusedInput::Header(name.as_str()) },
        ),
        ParameterSource::QueryMany(inner) => (
            Extraction::QueryMany { key: ident, inner: *inner },
            OnFailure::Reject { kind: RejectionKind::Query, input: RefusedInput::Query(ident) },
        ),
        ParameterSource::QueryObject => (
            Extraction::QueryObject,
            OnFailure::Reject { kind: RejectionKind::Query, input: RefusedInput::Query(ident) },
        ),
        ParameterSource::Injected(name) => (
            if matches!(ty, TypeSyntax::Reference { .. }) {
                Extraction::Borrowed(*name)
            } else {
                Extraction::Cloned(*name)
            },
            OnFailure::Never,
        ),
        ParameterSource::Authenticated => {
            return None;
        },
        ParameterSource::JsonBody => (
            Extraction::Json,
            OnFailure::Reject { kind: RejectionKind::Body, input: RefusedInput::Body },
        ),
        ParameterSource::FormBody => (Extraction::Form, OnFailure::RejectBody),
        ParameterSource::MultipartBody => (Extraction::Multipart, OnFailure::RejectBody),
        ParameterSource::RawBody => (Extraction::RawBody, OnFailure::Never),
        ParameterSource::BorrowedBody => (Extraction::BorrowedBody, OnFailure::Never),
    };
    Some(BindingPlan { ident, ty, extraction, on_failure })
}

/// What an endpoint does to know its caller.
#[derive(Debug)]
pub enum AuthPlan<'a> {
    Nothing,
    /// It binds the principal to a parameter.
    Bind { required: bool, ident: &'a str, ty: &'a TypeSyntax },
    /// It only refuses callers.
    Check { required: bool },
}

/// What an [`AuthPlan`] says.
pub enum AuthPlanModel {
    Nothing,
    Bind { required: bool, ident: Seq<char>, ty: TypeModel },
    Check { required: bool },
}

impl<'a> View for AuthPlan<'a> {
    type V = AuthPlanModel;

    open spec fn view(&self) -> AuthPlanModel {
        match self {
            AuthPlan::Nothing => AuthPlanModel::Nothing,
            AuthPlan::Bind { required, ident, ty } => AuthPlanModel::Bind {
                required: *required,
                ident: ident@,
                ty: ty.model(),
            },
            AuthPlan::Check { required } => AuthPlanModel::Check { required: *required },
        }
    }
}

/// What an endpoint does to know its caller.
pub open spec fn auth_plan(endpoint: EndpointModel) -> AuthPlanModel {
    match (endpoint.auth, authenticated_from(endpoint.parameters, 0)) {
        (AuthMode::Off, _) => AuthPlanModel::Nothing,
        (auth, Some(parameter)) => AuthPlanModel::Bind {
            required: auth == AuthMode::Required,
            ident: parameter.ident,
            ty: parameter.ty,
        },
        (auth, None) => AuthPlanModel::Check { required: auth == AuthMode::Required },
    }
}

/// Plans how an endpoint knows its caller. Only an endpoint with authentication
/// has a parameter for it.
pub fn expand_authentication<'a>(endpoint: &'a Endpoint<'a>) -> (plan: AuthPlan<'a>)
    requires
        auth_fault(endpoint@.auth, endpoint@.parameters) is None,
    ensures
        plan@ == auth_plan(endpoint@),
{
    if endpoint.auth == AuthMode::Off {
        return AuthPlan::Nothing;
    }
    let required = endpoint.auth == AuthMode::Required;
    let ghost models = parameter_models(endpoint.parameters@);
    let mut i: usize = 0;
    while i < endpoint.parameters.len()
        invariant
            0 <= i <= endpoint.parameters@.len(),
            models == parameter_models(endpoint.parameters@),
            authenticated_from(models, 0) == authenticated_from(models, i as int),
            endpoint.auth != AuthMode::Off,
            required == (endpoint.auth == AuthMode::Required),
        decreases endpoint.parameters@.len() - i,
    {
        let parameter = &endpoint.parameters[i];
        assert(models[i as int] == parameter@);
        if matches!(&parameter.source, ParameterSource::Authenticated) {
            return AuthPlan::Bind { required, ident: parameter.ident, ty: parameter.ty };
        }
        i += 1;
    }
    AuthPlan::Check { required }
}

/// What is done for a request of one method, in this order: the caller is
/// authenticated, the type of a JSON body is checked, the other parameters are
/// bound, the function is called, and its result is answered.
#[derive(Debug)]
pub struct ArmPlan<'a> {
    pub method: &'static str,
    pub authentication: AuthPlan<'a>,
    pub checks_json: bool,
    pub bindings: Vec<BindingPlan<'a>>,
    pub handler: &'a str,
    pub arguments: Vec<&'a str>,
    pub result: ResultKind,
}

/// What an [`ArmPlan`] says.
#[verifier::ext_equal]
pub struct ArmModel {
    pub method: Seq<char>,
    pub authentication: AuthPlanModel,
    pub checks_json: bool,
    pub bindings: Seq<BindingPlanModel>,
    pub handler: Seq<char>,
    pub arguments: Seq<Seq<char>>,
    pub result: ResultKind,
}

impl<'a> View for ArmPlan<'a> {
    type V = ArmModel;

    open spec fn view(&self) -> ArmModel {
        ArmModel {
            method: self.method@,
            authentication: self.authentication@,
            checks_json: self.checks_json,
            bindings: plan_models(self.bindings@),
            handler: self.handler@,
            arguments: texts(self.arguments@),
            result: self.result,
        }
    }
}

/// The bindings of the first of the parameters.
pub open spec fn binding_plans(parameters: Seq<ParameterModel>, count: int) -> Seq<BindingPlanModel>
    decreases count,
{
    if count <= 0 {
        Seq::empty()
    } else {
        match binding_plan(parameters[count - 1]) {
            Some(plan) => binding_plans(parameters, count - 1).push(plan),
            None => binding_plans(parameters, count - 1),
        }
    }
}

/// What is done for a request that an endpoint answers.
pub open spec fn arm_of(endpoint: EndpointModel) -> ArmModel {
    ArmModel {
        method: endpoint.method,
        authentication: auth_plan(endpoint),
        checks_json: endpoint.has_json_body,
        bindings: binding_plans(endpoint.parameters, endpoint.parameters.len() as int),
        handler: endpoint.handler,
        arguments: endpoint.parameters.map_values(|parameter: ParameterModel| parameter.ident),
        result: endpoint.result,
    }
}

/// Plans what is done for a request that an endpoint answers.
pub fn expand_endpoint<'a>(endpoint: &'a Endpoint<'a>) -> (plan: ArmPlan<'a>)
    requires
        auth_fault(endpoint@.auth, endpoint@.parameters) is None,
    ensures
        plan@ == arm_of(endpoint@),
{
    let ghost models = parameter_models(endpoint.parameters@);
    let ghost idents = models.map_values(|parameter: ParameterModel| parameter.ident);
    let mut bindings: Vec<BindingPlan<'a>> = Vec::new();
    let mut arguments: Vec<&'a str> = Vec::new();
    let mut i: usize = 0;
    proof {
        assert(plan_models(bindings@) =~= Seq::empty());
        assert(texts(arguments@) =~= idents.take(0));
    }
    while i < endpoint.parameters.len()
        invariant
            0 <= i <= endpoint.parameters@.len(),
            models == parameter_models(endpoint.parameters@),
            idents == models.map_values(|parameter: ParameterModel| parameter.ident),
            plan_models(bindings@) == binding_plans(models, i as int),
            texts(arguments@) == idents.take(i as int),
        decreases endpoint.parameters@.len() - i,
    {
        let parameter = &endpoint.parameters[i];
        assert(models[i as int] == parameter@);
        let ghost before = plan_models(bindings@);
        if let Some(plan) = expand_parameter(parameter) {
            let ghost model = plan@;
            bindings.push(plan);
            assert(plan_models(bindings@) =~= before.push(model));
        }
        let ghost named = texts(arguments@);
        arguments.push(parameter.ident);
        i += 1;
        assert(texts(arguments@) =~= named.push(parameter.ident@));
        assert(texts(arguments@) =~= idents.take(i as int));
    }
    assert(idents.take(i as int) =~= idents);
    ArmPlan {
        method: endpoint.method,
        authentication: expand_authentication(endpoint),
        checks_json: endpoint.has_json_body,
        bindings,
        handler: endpoint.handler,
        arguments,
        result: endpoint.result,
    }
}

/// What is done for a request whose path a template matches.
#[derive(Debug)]
pub struct GroupPlan<'a> {
    pub path: String,
    pub methods: u16,
    pub arms: Vec<ArmPlan<'a>>,
}

pub open spec fn arm_models(arms: Seq<ArmPlan<'_>>) -> Seq<ArmModel> {
    arms.map_values(|arm: ArmPlan<'_>| arm@)
}

/// Plans what is done for a request whose path a template matches.
pub fn expand_group<'a>(group: &'a RouteGroup<'a>) -> (plan: GroupPlan<'a>)
    requires
        forall|k: int|
            0 <= k < group@.endpoints.len() ==> auth_fault(
                (#[trigger] group@.endpoints[k]).auth,
                group@.endpoints[k].parameters,
            ) is None,
    ensures
        plan.path@ == group@.path,
        plan.methods == group_bits(group@),
        arm_models(plan.arms@) == group@.endpoints.map_values(
            |endpoint: EndpointModel| arm_of(endpoint),
        ),
{
    let ghost models = endpoint_models(group.endpoints@);
    let ghost planned = models.map_values(|endpoint: EndpointModel| arm_of(endpoint));
    let mut arms: Vec<ArmPlan<'a>> = Vec::new();
    let mut i: usize = 0;
    while i < group.endpoints.len()
        invariant
            0 <= i <= group.endpoints@.len(),
            models == endpoint_models(group.endpoints@),
            models == group@.endpoints,
            planned == models.map_values(|endpoint: EndpointModel| arm_of(endpoint)),
            forall|k: int|
                0 <= k < models.len() ==> auth_fault(
                    (#[trigger] models[k]).auth,
                    models[k].parameters,
                ) is None,
            arm_models(arms@) == planned.take(i as int),
        decreases group.endpoints@.len() - i,
    {
        assert(models[i as int] == group.endpoints@[i as int]@);
        let arm = expand_endpoint(&group.endpoints[i]);
        let ghost before = arm_models(arms@);
        let ghost model = arm@;
        arms.push(arm);
        i += 1;
        assert(arm_models(arms@) =~= before.push(model));
        assert(arm_models(arms@) =~= planned.take(i as int));
    }
    assert(planned.take(i as int) =~= planned);
    GroupPlan { path: group.path.clone(), methods: group_methods(group), arms }
}

/// Whether a plan binds a name: by authentication, or from the request.
pub open spec fn binds_name(arm: ArmModel, name: Seq<char>) -> bool {
    ||| arm.authentication matches AuthPlanModel::Bind { ident, .. } && ident == name
    ||| exists|i: int| 0 <= i < arm.bindings.len() && (#[trigger] arm.bindings[i]).ident == name
}

proof fn lemma_planned(parameters: Seq<ParameterModel>, count: int, at: int)
    requires
        0 <= at < count <= parameters.len(),
        !(parameters[at].source is Authenticated),
    ensures
        exists|i: int|
            0 <= i < binding_plans(parameters, count).len() && (#[trigger] binding_plans(
                parameters,
                count,
            )[i]).ident == parameters[at].ident,
    decreases count,
{
    let all = binding_plans(parameters, count);
    let before = binding_plans(parameters, count - 1);
    if at == count - 1 {
        assert(all[before.len() as int].ident == parameters[at].ident);
    } else {
        lemma_planned(parameters, count - 1, at);
        let i = choose|i: int|
            0 <= i < before.len() && (#[trigger] before[i]).ident == parameters[at].ident;
        assert(all[i] == before[i]);
    }
}

proof fn lemma_first_authenticated(parameters: Seq<ParameterModel>, start: int, at: int)
    requires
        0 <= start <= at < parameters.len(),
        parameters[at].source is Authenticated,
    ensures
        authenticated_from(parameters, start) is Some,
        (forall|i: int| start <= i < at ==> !((#[trigger] parameters[i]).source is Authenticated))
            ==> authenticated_from(parameters, start) == Some(parameters[at]),
    decreases at - start,
{
    if start < at && !(parameters[start].source is Authenticated) {
        lemma_first_authenticated(parameters, start + 1, at);
    }
}

/// Every argument that a function is called with was bound before the call,
/// for an endpoint that was found without fault and has one principal at most.
pub proof fn law_every_argument_is_bound(endpoint: EndpointModel, at: int)
    requires
        auth_fault(endpoint.auth, endpoint.parameters) is None,
        forall|i: int, j: int|
            0 <= i < j < endpoint.parameters.len() ==> !((
            #[trigger] endpoint.parameters[i]).source is Authenticated && (
            #[trigger] endpoint.parameters[j]).source is Authenticated),
        0 <= at < arm_of(endpoint).arguments.len(),
    ensures
        binds_name(arm_of(endpoint), arm_of(endpoint).arguments[at]),
{
    let parameters = endpoint.parameters;
    if parameters[at].source is Authenticated {
        lemma_first_authenticated(parameters, 0, at);
    } else {
        lemma_planned(parameters, parameters.len() as int, at);
    }
}

} // verus!
