//! Free functions that answer a route.
use vstd::prelude::*;

#[allow(unused_imports)]
use vstd::seq_lib::*;
#[allow(unused_imports)]
use vstd::set_lib::*;

use crate::macros::api::{route_attribute, AttributeSyntax};
#[allow(unused_imports)]
use crate::macros::api::{attribute_pairs, route_annotation};
use crate::macros::arguments::{copied, ArgToken, AuthMode, Codec, PathSyntax, RouteArguments};
#[allow(unused_imports)]
use crate::macros::arguments::{route_arguments, token_models, PathModel, RouteModel};
use crate::macros::endpoint::{
    parse_endpoint, Endpoint, FunctionSyntax, InputSyntax, PatternSyntax,
};
#[allow(unused_imports)]
use crate::macros::endpoint::{endpoint_of, EndpointModel};
use crate::macros::paths::holds_text;
use crate::macros::registry::{group_path, unraw_name};
#[allow(unused_imports)]
use crate::macros::registry::{group_module_path, unraw};
use crate::macros::SyntaxError;
use crate::text::push_char;
use crate::text::glue_strings;
#[allow(unused_imports)]
use crate::text::{glued, string_texts};

verus! {

/// The names of the parameters of a free function from a position on, behind
/// others, or the first fault in them.
pub open spec fn argument_names(inputs: Seq<InputSyntax>, at: int, done: Seq<Seq<char>>) -> Result<
    Seq<Seq<char>>,
    Seq<char>,
>
    decreases inputs.len() - at,
{
    if at < 0 || at >= inputs.len() {
        Ok(done)
    } else {
        match inputs[at] {
            InputSyntax::Receiver { .. } => Err(
                "HTTP route attributes require a free function without self"@,
            ),
            InputSyntax::Typed { pattern, .. } => match pattern {
                PatternSyntax::Other => Err("HTTP API parameter patterns must be identifiers"@),
                PatternSyntax::Decorated(_) => Err(
                    "HTTP API parameter patterns must be plain identifiers"@,
                ),
                PatternSyntax::Plain(ident) => argument_names(inputs, at + 1, done.push(ident@)),
            },
        }
    }
}

fn read_arguments(function: &FunctionSyntax) -> (outcome: Result<Vec<String>, SyntaxError>)
    ensures
        match outcome {
            Ok(names) => argument_names(function.inputs@, 0, Seq::empty()) == Ok::<
                Seq<Seq<char>>,
                Seq<char>,
            >(string_texts(names@)),
            Err(error) => argument_names(function.inputs@, 0, Seq::empty()) == Err::<
                Seq<Seq<char>>,
                Seq<char>,
            >(error@),
        },
{
    let mut names: Vec<String> = Vec::new();
    let mut i: usize = 0;
    assert(string_texts(names@) =~= Seq::empty());
    while i < function.inputs.len()
        invariant
            0 <= i <= function.inputs@.len(),
            argument_names(function.inputs@, 0, Seq::empty()) == argument_names(
                function.inputs@,
                i as int,
                string_texts(names@),
            ),
        decreases function.inputs@.len() - i,
    {
        match &function.inputs[i] {
            InputSyntax::Receiver { .. } => {
                return Err(
                    SyntaxError::of("HTTP route attributes require a free function without self"),
                );
            },
            InputSyntax::Typed { pattern, .. } => match pattern {
                PatternSyntax::Other => {
                    return Err(SyntaxError::of("HTTP API parameter patterns must be identifiers"));
                },
                PatternSyntax::Decorated(_) => {
                    return Err(
                        SyntaxError::of("HTTP API parameter patterns must be plain identifiers"),
                    );
                },
                PatternSyntax::Plain(ident) => {
                    let ghost before = string_texts(names@);
                    names.push(ident.clone());
                    assert(string_texts(names@) =~= before.push(ident@));
                },
            },
        }
        i += 1;
    }
    Ok(names)
}

/// A name with this many underscores behind it.
pub open spec fn underscored(name: Seq<char>, count: nat) -> Seq<char> {
    name + Seq::new(count, |i: int| '_')
}

/// Whether an alias is the name with as few underscores behind it as keep it
/// apart from the arguments.
pub open spec fn is_fresh(alias: Seq<char>, name: Seq<char>, arguments: Seq<Seq<char>>) -> bool {
    exists|count: nat|
        alias == #[trigger] underscored(name, count) && !arguments.contains(
            underscored(name, count),
        ) && forall|fewer: nat|
            fewer < count ==> arguments.contains(#[trigger] underscored(name, fewer))
}

/// There are no more different names among the arguments than arguments.
proof fn lemma_taken(name: Seq<char>, arguments: Seq<Seq<char>>, count: nat)
    requires
        forall|fewer: nat|
            fewer < count ==> arguments.contains(#[trigger] underscored(name, fewer)),
    ensures
        count <= arguments.len(),
{
    let names = Seq::new(count, |i: int| underscored(name, i as nat));
    assert(names.no_duplicates()) by {
        assert forall|i: int, j: int|
            0 <= i < names.len() && 0 <= j < names.len() && i != j implies names[i] != names[j] by {
            assert(names[i].len() == name.len() + i);
            assert(names[j].len() == name.len() + j);
        }
    }
    names.unique_seq_to_set();
    arguments.lemma_cardinality_of_set();
    assert(names.to_set().subset_of(arguments.to_set())) by {
        assert forall|x: Seq<char>| names.to_set().contains(x) implies arguments.to_set().contains(
            x,
        ) by {
            let i = choose|i: int| 0 <= i < names.len() && names[i] == x;
            assert(arguments.contains(underscored(name, i as nat)));
        }
    }
    seq_to_set_is_finite(arguments);
    lemma_len_subset(names.to_set(), arguments.to_set());
}

/// A name for the function that no argument has.
pub fn fresh_alias(arguments: &Vec<String>) -> (alias: String)
    ensures
        is_fresh(alias@, "__http_business_function"@, string_texts(arguments@)),
{
    let ghost name = "__http_business_function"@;
    let ghost names = string_texts(arguments@);
    let mut alias = "__http_business_function".to_owned();
    let ghost mut count: nat = 0;
    assert(alias@ =~= underscored(name, 0));
    while holds_text(arguments, alias.as_str())
        invariant
            name == "__http_business_function"@,
            names == string_texts(arguments@),
            alias@ == underscored(name, count),
            forall|fewer: nat|
                fewer < count ==> names.contains(#[trigger] underscored(name, fewer)),
        decreases names.len() - count,
    {
        proof {
            lemma_taken(name, names, count + 1);
        }
        push_char(&mut alias, '_');
        proof {
            assert(alias@ =~= underscored(name, count + 1));
            count = count + 1;
        }
    }
    alias
}

/// An annotation that decides whether a function exists.
#[derive(Debug)]
pub enum MetaSyntax {
    /// `cfg(..)`, as it was written.
    Cfg(String),
    /// `cfg_attr(..)`, with its condition and the annotations behind it.
    CfgAttr { condition: Option<String>, entries: Vec<MetaSyntax> },
    Other,
}

/// The gates among annotations from a position on, behind others, or what is
/// wrong with them.
pub open spec fn gates_from(entries: Seq<MetaSyntax>, at: int, done: Seq<Seq<char>>) -> Result<
    Seq<Seq<char>>,
    Seq<char>,
>
    decreases entries, entries.len() - at,
{
    if at < 0 || at >= entries.len() {
        Ok(done)
    } else {
        match gate_of(entries[at]) {
            Err(message) => Err(message),
            Ok(None) => gates_from(entries, at + 1, done),
            Ok(Some(gate)) => gates_from(entries, at + 1, done.push(gate)),
        }
    }
}

/// What of an annotation decides whether a function exists. Anything else of
/// it belongs to the function alone.
pub open spec fn gate_of(meta: MetaSyntax) -> Result<Option<Seq<char>>, Seq<char>>
    decreases meta, 0int,
{
    match meta {
        MetaSyntax::Cfg(text) => Ok(Some(text@)),
        MetaSyntax::CfgAttr { condition: None, .. } => Err("cfg_attr requires a condition"@),
        MetaSyntax::CfgAttr { condition: Some(condition), entries } => match gates_from(
            entries@,
            0,
            Seq::empty(),
        ) {
            Err(message) => Err(message),
            Ok(gates) => if gates.len() == 0 {
                Ok(None)
            } else {
                Ok(Some("cfg_attr("@ + condition@ + ", "@ + glued(gates, ", "@) + ")"@))
            },
        },
        MetaSyntax::Other => Ok(None),
    }
}

/// Finds what of an annotation decides whether a function exists.
pub fn gating_attribute(meta: &MetaSyntax) -> (outcome: Result<Option<String>, SyntaxError>)
    ensures
        match outcome {
            Ok(Some(gate)) => gate_of(*meta) == Ok::<Option<Seq<char>>, Seq<char>>(Some(gate@)),
            Ok(None) => gate_of(*meta) == Ok::<Option<Seq<char>>, Seq<char>>(None),
            Err(error) => gate_of(*meta) == Err::<Option<Seq<char>>, Seq<char>>(error@),
        },
    decreases meta,
{
    match meta {
        MetaSyntax::Cfg(text) => Ok(Some(text.clone())),
        MetaSyntax::Other => Ok(None),
        MetaSyntax::CfgAttr { condition, entries } => {
            let condition = match condition {
                None => {
                    return Err(SyntaxError::of("cfg_attr requires a condition"));
                },
                Some(condition) => condition,
            };
            let mut gates: Vec<String> = Vec::new();
            let mut i: usize = 0;
            assert(string_texts(gates@) =~= Seq::empty());
            while i < entries.len()
                invariant
                    0 <= i <= entries@.len(),
                    *meta == (MetaSyntax::CfgAttr { condition: Some(*condition), entries: *entries }),
                    gates_from(entries@, 0, Seq::empty()) == gates_from(
                        entries@,
                        i as int,
                        string_texts(gates@),
                    ),
                decreases entries@.len() - i,
            {
                assert(decreases_to!(*meta => entries@[i as int]));
                match gating_attribute(&entries[i]) {
                    Err(error) => {
                        return Err(error);
                    },
                    Ok(None) => {},
                    Ok(Some(gate)) => {
                        let ghost before = string_texts(gates@);
                        let ghost text = gate@;
                        gates.push(gate);
                        assert(string_texts(gates@) =~= before.push(text));
                    },
                }
                i += 1;
            }
            if gates.len() == 0 {
                return Ok(None);
            }
            let joined = glue_strings(&gates, ", ");
            Ok(
                Some(
                    "cfg_attr(".to_owned().concat(condition.as_str()).concat(", ").concat(
                        joined.as_str(),
                    ).concat(")"),
                ),
            )
        },
    }
}

/// A free function with its annotations.
#[derive(Debug)]
pub struct FreeFunction {
    pub function: FunctionSyntax,
    pub attributes: Vec<AttributeSyntax>,
    /// The same annotations, as far as they decide whether the function exists.
    pub gates: Vec<MetaSyntax>,
}

/// What an exported function is made of.
#[derive(Debug)]
pub struct FunctionPlan<'a> {
    /// The module of the registry that it is enrolled in.
    pub registry: PathSyntax,
    /// The type that adapts it.
    pub adapter: String,
    /// The name that it is called by.
    pub alias: String,
    pub endpoint: Endpoint<'a>,
    /// The annotations under which its adapter exists.
    pub gates: Vec<String>,
}

/// The group that a function is enrolled in.
pub open spec fn enrolled_in(route: RouteModel) -> PathModel {
    match route.group {
        Some(group) => group,
        None => PathModel { leading_colon: false, segments: seq!["http_apis"@] },
    }
}

/// What is wrong with a free function, before its endpoint is looked at.
pub open spec fn declaration_fault(input: FreeFunction) -> Option<Seq<char>> {
    if route_annotation(attribute_pairs(input.attributes@), 0) is Some {
        Some("use exactly one HTTP route attribute per function"@)
    } else if input.function.unsafe_signature {
        Some("HTTP API functions must use a safe Rust signature"@)
    } else {
        match argument_names(input.function.inputs@, 0, Seq::empty()) {
            Err(message) => Some(message),
            Ok(_) => None,
        }
    }
}

/// The endpoint that a free function is, or the first fault of its declaration.
pub open spec fn function_endpoint(
    method: Seq<char>,
    route: RouteModel,
    input: FreeFunction,
) -> Result<EndpointModel, Seq<char>> {
    let auth = match route.auth {
        Some(auth) => auth,
        None => AuthMode::Off,
    };
    match declaration_fault(input) {
        Some(message) => Err(message),
        None => if route.consumes == Some(Codec::Protobuf) || route.produces == Some(
            Codec::Protobuf,
        ) {
            Err("protobuf API codecs are declared but not implemented yet; use json"@)
        } else {
            endpoint_of(method, Seq::empty(), input.function@, route, auth)
        },
    }
}

/// Whether a plan is the one of this function, for a route in which no fault
/// was found.
pub open spec fn is_function_plan(
    plan: FunctionPlan<'_>,
    method: Seq<char>,
    route: RouteModel,
    input: FreeFunction,
) -> bool {
    &&& plan.registry@ == group_module_path(enrolled_in(route))
    &&& plan.adapter@ == "__HttpEndpoint_"@ + unraw(input.function.name@)
    &&& is_fresh(
        plan.alias@,
        "__http_business_function"@,
        argument_names(input.function.inputs@, 0, Seq::empty())->Ok_0,
    )
    &&& function_endpoint(method, route, input) == Ok::<EndpointModel, Seq<char>>(plan.endpoint@)
    &&& gates_from(input.gates@, 0, Seq::empty()) == Ok::<Seq<Seq<char>>, Seq<char>>(
        string_texts(plan.gates@),
    )
}

fn read_gates(input: &FreeFunction) -> (outcome: Result<Vec<String>, SyntaxError>)
    ensures
        match outcome {
            Ok(gates) => gates_from(input.gates@, 0, Seq::empty()) == Ok::<
                Seq<Seq<char>>,
                Seq<char>,
            >(string_texts(gates@)),
            Err(error) => gates_from(input.gates@, 0, Seq::empty()) == Err::<
                Seq<Seq<char>>,
                Seq<char>,
            >(error@),
        },
{
    let mut gates: Vec<String> = Vec::new();
    let mut i: usize = 0;
    assert(string_texts(gates@) =~= Seq::empty());
    while i < input.gates.len()
        invariant
            0 <= i <= input.gates@.len(),
            gates_from(input.gates@, 0, Seq::empty()) == gates_from(
                input.gates@,
                i as int,
                string_texts(gates@),
            ),
        decreases input.gates@.len() - i,
    {
        match gating_attribute(&input.gates[i]) {
            Err(error) => {
                return Err(error);
            },
            Ok(None) => {},
            Ok(Some(gate)) => {
                let ghost before = string_texts(gates@);
                let ghost text = gate@;
                gates.push(gate);
                assert(string_texts(gates@) =~= before.push(text));
            },
        }
        i += 1;
    }
    Ok(gates)
}

/// Plans the export of a free function.
pub fn expand<'a>(
    method: &'static str,
    arguments: &[ArgToken],
    input: &'a FreeFunction,
) -> (outcome: Result<FunctionPlan<'a>, SyntaxError>)
    ensures
        match route_arguments(token_models(arguments@)) {
            Err(message) => outcome matches Err(error) && error@ == message,
            Ok(route) => match (function_endpoint(method@, route, *input), gates_from(
                input.gates@,
                0,
                Seq::empty(),
            )) {
                (Err(message), _) => outcome matches Err(error) && error@ == message,
                (Ok(_), Err(message)) => outcome matches Err(error) && error@ == message,
                (Ok(_), Ok(_)) => outcome matches Ok(plan) && is_function_plan(
                    plan,
                    method@,
                    route,
                    *input,
                ),
            },
        },
{
    let route = match RouteArguments::parse(arguments) {
        Err(error) => {
            return Err(error);
        },
        Ok(route) => route,
    };
    if route_attribute(input.attributes.as_slice()).is_some() {
        return Err(SyntaxError::of("use exactly one HTTP route attribute per function"));
    }
    if input.function.unsafe_signature {
        return Err(SyntaxError::of("HTTP API functions must use a safe Rust signature"));
    }
    let names = match read_arguments(&input.function) {
        Err(error) => {
            return Err(error);
        },
        Ok(names) => names,
    };
    if route.consumes == Some(Codec::Protobuf) || route.produces == Some(Codec::Protobuf) {
        return Err(
            SyntaxError::of("protobuf API codecs are declared but not implemented yet; use json"),
        );
    }
    let auth = match route.auth {
        Some(auth) => auth,
        None => AuthMode::Off,
    };
    proof {
        reveal_strlit("");
        assert(""@ =~= Seq::<char>::empty());
    }
    let endpoint = match parse_endpoint(method, "", &input.function, &route, auth) {
        Err(error) => {
            return Err(error);
        },
        Ok(endpoint) => endpoint,
    };
    let gates = match read_gates(input) {
        Err(error) => {
            return Err(error);
        },
        Ok(gates) => gates,
    };
    let group = match &route.group {
        Some(group) => PathSyntax {
            leading_colon: group.leading_colon,
            segments: copied(&group.segments),
        },
        None => {
            let mut segments: Vec<String> = Vec::new();
            segments.push("http_apis".to_owned());
            assert(string_texts(segments@) =~= seq!["http_apis"@]);
            PathSyntax { leading_colon: false, segments }
        },
    };
    Ok(
        FunctionPlan {
            registry: group_path(group),
            adapter: "__HttpEndpoint_".to_owned().concat(unraw_name(input.function.name.as_str())),
            alias: fresh_alias(&names),
            endpoint,
            gates,
        },
    )
}

} // verus!
