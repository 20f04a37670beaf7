//! Laws of declarations: the options of annotations, registries and groups of
//! endpoints.
use vstd::prelude::*;
use vstd::utf8::*;

#[allow(unused_imports)]
use crate::macros::arguments::{
    api_arguments, api_defaults, api_option, api_options, auth_at, codec_at, flag_at,
    header_bindings, is_at, name_at, names_pair, path_at, path_text, plain_route, route_arguments,
    route_options, text_at, value_at, with_pair,
};
use crate::macros::arguments::{
    ApiModel, AuthMode, Codec, PathModel, RouteModel, TokenModel,
};
use crate::macros::endpoint::{Endpoint, EndpointModel};
#[allow(unused_imports)]
use crate::macros::groups::{
    ambiguity, endpoint_models, group_endpoints, group_models, is_duplicate, is_first_duplicate,
    is_group, is_grouping, pair_at_most, path_before, path_of_shape, text_before,
};
use crate::macros::groups::{GroupModel, RouteGroup};
#[allow(unused_imports)]
use crate::macros::paths::{has_catch_all, literal_count, normalized_prefix, prefix_fault};
#[allow(unused_imports)]
use crate::macros::registry::{
    collect_arguments, collected_values, crate_ident, crate_path, dependency_fields,
    dependency_models, empty_registry, group_module_path, is_declaration, module_name,
    registry_names, registry_option, registry_options, unraw,
};
use crate::macros::registry::{
    CollectModel, FoundCrate, RegistryArguments, RegistryModel, RegistryNames,
};
use crate::macros::SyntaxError;
#[allow(unused_imports)]
use crate::registry::{
    at_most, lemma_at_most_antisymmetric, lemma_at_most_total, lemma_at_most_transitive,
};
#[allow(unused_imports)]
use crate::text::{glued, lemma_text_of_bytes, split, starts_with};

verus! {

proof fn lemma_option_names()
    ensures
        "prefix"@ != "consumes"@,
        "prefix"@ != "produces"@,
        "prefix"@ != "auth"@,
        "prefix"@ != "register"@,
        "consumes"@ != "produces"@,
        "consumes"@ != "auth"@,
        "consumes"@ != "register"@,
        "produces"@ != "auth"@,
        "produces"@ != "register"@,
        "auth"@ != "register"@,
        "headers"@ != "consumes"@,
        "headers"@ != "produces"@,
        "headers"@ != "auth"@,
        "headers"@ != "access"@,
        "headers"@ != "group"@,
        "headers"@ != "api_log"@,
        "access"@ != "consumes"@,
        "access"@ != "produces"@,
        "access"@ != "auth"@,
        "access"@ != "group"@,
        "access"@ != "api_log"@,
        "group"@ != "consumes"@,
        "group"@ != "produces"@,
        "group"@ != "auth"@,
        "group"@ != "api_log"@,
        "api_log"@ != "consumes"@,
        "api_log"@ != "produces"@,
        "api_log"@ != "auth"@,
        "dependencies"@ != "group"@,
        "dependencies"@ != "auth"@,
        "json"@ != "protobuf"@,
        "none"@ != "optional"@,
        "none"@ != "required"@,
        "optional"@ != "required"@,
        "true"@ != "false"@,
{
    reveal_strlit("prefix");
    reveal_strlit("consumes");
    reveal_strlit("produces");
    reveal_strlit("auth");
    reveal_strlit("register");
    reveal_strlit("headers");
    reveal_strlit("access");
    reveal_strlit("group");
    reveal_strlit("api_log");
    reveal_strlit("dependencies");
    reveal_strlit("json");
    reveal_strlit("protobuf");
    reveal_strlit("none");
    reveal_strlit("optional");
    reveal_strlit("required");
    reveal_strlit("true");
    reveal_strlit("false");
    assert("consumes"@[0] == 'c' && "produces"@[0] == 'p' && "register"@[0] == 'r');
    assert("prefix"@[0] == 'p' && "headers"@[0] == 'h' && "api_log"@[0] == 'a');
    assert("access"@[0] == 'a' && "optional"@[0] == 'o' && "required"@[0] == 'r');
    assert("prefix"@.len() == 6 && "produces"@.len() == 8 && "json"@.len() == 4);
    assert("true"@.len() == 4 && "false"@.len() == 5);
    assert("protobuf"@.len() == 8 && "access"@.len() == 6 && "group"@.len() == 5 && "auth"@.len() == 4);
}

/// Codecs, kinds of authentication and truth values are named by their words,
/// and by no other.
pub proof fn law_words_name_their_values(name: Seq<char>, tokens: Seq<TokenModel>, at: int)
    requires
        0 <= at < tokens.len(),
    ensures
        codec_at(tokens, at) == Ok::<Codec, Seq<char>>(Codec::Json) <==> tokens[at]
            == TokenModel::Name("json"@),
        codec_at(tokens, at) == Ok::<Codec, Seq<char>>(Codec::Protobuf) <==> tokens[at]
            == TokenModel::Name("protobuf"@),
        auth_at(tokens, at) == Ok::<AuthMode, Seq<char>>(AuthMode::Off) <==> tokens[at]
            == TokenModel::Name("none"@),
        auth_at(tokens, at) == Ok::<AuthMode, Seq<char>>(AuthMode::Optional) <==> tokens[at]
            == TokenModel::Name("optional"@),
        auth_at(tokens, at) == Ok::<AuthMode, Seq<char>>(AuthMode::Required) <==> tokens[at]
            == TokenModel::Name("required"@),
        flag_at(tokens, at) == Ok::<bool, Seq<char>>(true) <==> tokens[at] == TokenModel::Name(
            "true"@,
        ),
        flag_at(tokens, at) == Ok::<bool, Seq<char>>(false) <==> tokens[at] == TokenModel::Name(
            "false"@,
        ),
        flag_at(tokens, at) is Err ==> flag_at(tokens, at)->Err_0 == "expected boolean literal"@,
        tokens[at] is Name && codec_at(tokens, at) is Err ==> codec_at(tokens, at)->Err_0
            == "supported codecs are json and protobuf"@,
        tokens[at] is Name && auth_at(tokens, at) is Err ==> auth_at(tokens, at)->Err_0
            == "supported auth modes are none, optional, and required"@,
{
    lemma_option_names();
}

/// Paths are written with colons between their segments, and a bare name is one.
pub proof fn law_paths_are_read_as_written(tokens: Seq<TokenModel>, at: int)
    requires
        0 <= at < tokens.len(),
    ensures
        tokens[at] matches TokenModel::Name(name) ==> path_at(tokens, at) == Some(
            PathModel { leading_colon: false, segments: seq![name] },
        ) && value_at(tokens, at) == Some(name) && name_at(tokens, at) == Some(name),
        tokens[at] matches TokenModel::Path(path) ==> value_at(tokens, at) == Some(
            (if path.leading_colon {
                "::"@
            } else {
                Seq::empty()
            }) + glued(path.segments, "::"@),
        ) && (path.segments.len() > 0 ==> path_at(tokens, at) == Some(path)),
        tokens[at] matches TokenModel::Value(value) ==> value_at(tokens, at) == Some(value),
        tokens[at] matches TokenModel::Text(text) ==> text_at(tokens, at) == Some(text),
        !(tokens[at] is Text) ==> text_at(tokens, at) is None,
        !(tokens[at] is Name) ==> name_at(tokens, at) is None,
        !(tokens[at] is Name || tokens[at] is Path) ==> path_at(tokens, at) is None,
        !(tokens[at] is Name || tokens[at] is Path || tokens[at] is Value) ==> value_at(tokens, at)
            is None,
{
    if let TokenModel::Path(path) = tokens[at] {
        assert(Seq::<char>::empty() + glued(path.segments, "::"@) =~= glued(
            path.segments,
            "::"@,
        ));
    }
}

/// Every option of a group of methods sets what it names and leaves the rest,
/// and commas divide the options.
pub proof fn law_options_set_what_they_name(tokens: Seq<TokenModel>, at: int, options: ApiModel)
    requires
        0 <= at,
        at + 3 <= tokens.len(),
        tokens[at] is Name,
        tokens[at + 1] is Equals,
        at + 3 < tokens.len() ==> tokens[at + 3] is Comma,
    ensures
        tokens[at] == TokenModel::Name("prefix"@) ==> (tokens[at + 2] matches TokenModel::Text(
            prefix,
        ) ==> api_options(tokens, at, options) == api_options(
            tokens,
            at + 4,
            ApiModel { prefix, ..options },
        )),
        tokens[at] == TokenModel::Name("consumes"@) ==> (codec_at(tokens, at + 2) matches Ok(
            consumes,
        ) ==> api_options(tokens, at, options) == api_options(
            tokens,
            at + 4,
            ApiModel { consumes, ..options },
        )),
        tokens[at] == TokenModel::Name("produces"@) ==> (codec_at(tokens, at + 2) matches Ok(
            produces,
        ) ==> api_options(tokens, at, options) == api_options(
            tokens,
            at + 4,
            ApiModel { produces, ..options },
        )),
        tokens[at] == TokenModel::Name("auth"@) ==> (auth_at(tokens, at + 2) matches Ok(auth)
            ==> api_options(tokens, at, options) == api_options(
            tokens,
            at + 4,
            ApiModel { auth, ..options },
        )),
        tokens[at] == TokenModel::Name("register"@) ==> (flag_at(tokens, at + 2) matches Ok(
            register,
        ) ==> api_options(tokens, at, options) == api_options(
            tokens,
            at + 4,
            ApiModel { register, ..options },
        )),
        api_options(tokens, at, options) is Ok ==> seq![
            "prefix"@,
            "consumes"@,
            "produces"@,
            "auth"@,
            "register"@,
        ].contains(tokens[at]->Name_0),
        !seq!["prefix"@, "consumes"@, "produces"@, "auth"@, "register"@].contains(
            tokens[at]->Name_0,
        ) ==> api_options(tokens, at, options) == Err::<ApiModel, Seq<char>>(
            "supported api options are prefix, consumes, produces, auth, and register"@,
        ),
        tokens[at] == TokenModel::Name("prefix"@) && !(tokens[at + 2] is Text) ==> api_options(
            tokens,
            at,
            options,
        ) is Err,
        (tokens[at] == TokenModel::Name("consumes"@) || tokens[at] == TokenModel::Name(
            "produces"@,
        )) && codec_at(tokens, at + 2) is Err ==> api_options(tokens, at, options) is Err,
        tokens[at] == TokenModel::Name("auth"@) && auth_at(tokens, at + 2) is Err ==> api_options(
            tokens,
            at,
            options,
        ) is Err,
        tokens[at] == TokenModel::Name("register"@) && flag_at(tokens, at + 2) is Err
            ==> api_options(tokens, at, options) is Err,
{
    lemma_option_names();
    reveal_with_fuel(api_options, 2);
    let names = seq!["prefix"@, "consumes"@, "produces"@, "auth"@, "register"@];
    assert(names[0] == "prefix"@ && names[1] == "consumes"@ && names[2] == "produces"@ && names[3]
        == "auth"@ && names[4] == "register"@);
}

/// Options have to be written as a name, an equals sign and a value, with a
/// comma between each two.
pub proof fn law_options_are_written_in_pairs(tokens: Seq<TokenModel>, at: int, options: ApiModel)
    requires
        0 <= at < tokens.len(),
    ensures
        api_options(tokens, at, options) is Ok ==> {
            &&& tokens[at] is Name
            &&& at + 2 < tokens.len()
            &&& tokens[at + 1] is Equals
            &&& at + 3 < tokens.len() ==> tokens[at + 3] is Comma
        },
        api_options(tokens, tokens.len() as int, options) == Ok::<ApiModel, Seq<char>>(options),
{
}

/// A group of methods is read and answered in JSON, needs no authentication and
/// is enrolled, unless it says otherwise; its prefix is checked.
pub proof fn law_groups_have_defaults(tokens: Seq<TokenModel>)
    ensures
        api_arguments(Seq::empty()) == Ok::<ApiModel, Seq<char>>(
            ApiModel {
                prefix: Seq::empty(),
                consumes: Codec::Json,
                produces: Codec::Json,
                auth: AuthMode::Off,
                register: true,
            },
        ),
        api_arguments(tokens) matches Ok(arguments) ==> {
            &&& api_options(
                tokens,
                0,
                api_arguments(Seq::empty())->Ok_0,
            ) is Ok
            &&& prefix_fault(api_options(tokens, 0, api_arguments(Seq::empty())->Ok_0)->Ok_0.prefix)
                is Ok
            &&& arguments == (ApiModel {
                prefix: normalized_prefix(
                    api_options(tokens, 0, api_arguments(Seq::empty())->Ok_0)->Ok_0.prefix,
                ),
                ..api_options(tokens, 0, api_arguments(Seq::empty())->Ok_0)->Ok_0
            })
        },
        api_options(tokens, 0, api_defaults()) is Ok && prefix_fault(
            api_options(tokens, 0, api_defaults())->Ok_0.prefix,
        ) is Ok ==> api_arguments(tokens) is Ok,
{
    assert(normalized_prefix(Seq::empty()) =~= Seq::<char>::empty());
    assert(api_arguments(Seq::empty())->Ok_0 =~= api_defaults());
}

/// Every option of a route sets what it names and leaves the rest.
pub proof fn law_route_options_set_what_they_name(
    tokens: Seq<TokenModel>,
    at: int,
    route: RouteModel,
)
    requires
        0 <= at,
        at + 4 <= tokens.len(),
        tokens[at] is Comma,
        tokens[at + 1] is Name,
        tokens[at + 2] is Equals,
    ensures
        tokens[at + 1] == TokenModel::Name("consumes"@) ==> (codec_at(tokens, at + 3) matches Ok(
            codec,
        ) ==> route_options(tokens, at, route) == route_options(
            tokens,
            at + 4,
            RouteModel { consumes: Some(codec), ..route },
        )),
        tokens[at + 1] == TokenModel::Name("produces"@) ==> (codec_at(tokens, at + 3) matches Ok(
            codec,
        ) ==> route_options(tokens, at, route) == route_options(
            tokens,
            at + 4,
            RouteModel { produces: Some(codec), ..route },
        )),
        tokens[at + 1] == TokenModel::Name("auth"@) ==> (auth_at(tokens, at + 3) matches Ok(auth)
            ==> route_options(tokens, at, route) == route_options(
            tokens,
            at + 4,
            RouteModel { auth: Some(auth), ..route },
        )),
        tokens[at + 1] == TokenModel::Name("group"@) ==> (path_at(tokens, at + 3) matches Some(
            group,
        ) ==> route_options(tokens, at, route) == route_options(
            tokens,
            at + 4,
            RouteModel { group: Some(group), ..route },
        )),
        tokens[at + 1] == TokenModel::Name("api_log"@) ==> (flag_at(tokens, at + 3) matches Ok(
            api_log,
        ) ==> route_options(tokens, at, route) == route_options(
            tokens,
            at + 4,
            RouteModel { api_log, ..route },
        )),
        tokens[at + 1] == TokenModel::Name("access"@) && tokens[at + 3] == TokenModel::Name(
            "public"@,
        ) ==> route_options(tokens, at, route) == route_options(tokens, at + 4, route),
        tokens[at + 1] == TokenModel::Name("access"@) && tokens[at + 3] != TokenModel::Name(
            "public"@,
        ) ==> route_options(tokens, at, route) is Err,
        tokens[at + 1] == TokenModel::Name("group"@) && path_at(tokens, at + 3) is None
            ==> route_options(tokens, at, route) is Err,
        (tokens[at + 1] == TokenModel::Name("consumes"@) || tokens[at + 1] == TokenModel::Name(
            "produces"@,
        )) && codec_at(tokens, at + 3) is Err ==> route_options(tokens, at, route) is Err,
        tokens[at + 1] == TokenModel::Name("auth"@) && auth_at(tokens, at + 3) is Err
            ==> route_options(tokens, at, route) is Err,
        tokens[at + 1] == TokenModel::Name("api_log"@) && flag_at(tokens, at + 3) is Err
            ==> route_options(tokens, at, route) is Err,
        !seq!["consumes"@, "produces"@, "auth"@, "access"@, "group"@, "api_log"@, "headers"@].contains(
            tokens[at + 1]->Name_0,
        ) ==> route_options(tokens, at, route) == Err::<RouteModel, Seq<char>>(
            "supported route options are consumes, produces, auth, group, api_log, and headers(...)"@,
        ),
{
    lemma_option_names();
    reveal_with_fuel(route_options, 2);
    let names = seq![
        "consumes"@,
        "produces"@,
        "auth"@,
        "access"@,
        "group"@,
        "api_log"@,
        "headers"@,
    ];
    assert(names[0] == "consumes"@ && names[1] == "produces"@ && names[2] == "auth"@ && names[3]
        == "access"@ && names[4] == "group"@ && names[5] == "api_log"@ && names[6] == "headers"@);
}

/// The arguments of a route start with its template. Without more it is logged
/// and takes all else from its group of methods.
pub proof fn law_routes_start_with_their_template(tokens: Seq<TokenModel>)
    ensures
        tokens.len() == 0 || !(tokens[0] is Text) ==> route_arguments(tokens) == Err::<
            RouteModel,
            Seq<char>,
        >("expected string literal"@),
        tokens.len() == 1 ==> (tokens[0] matches TokenModel::Text(path) ==> route_arguments(tokens)
            == Ok::<RouteModel, Seq<char>>(
            RouteModel {
                path,
                consumes: None,
                produces: None,
                auth: None,
                group: None,
                api_log: true,
                headers: Seq::empty(),
            },
        )),
        tokens.len() > 1 && tokens[0] is Text ==> route_arguments(tokens) == route_options(
            tokens,
            1,
            route_arguments(tokens.take(1))->Ok_0,
        ),
        tokens.len() > 1 && !(tokens[1] is Comma) ==> route_arguments(tokens) is Err,
{
    reveal_with_fuel(route_options, 2);
}

/// Headers are bound name by name, each parameter to one header.
pub proof fn law_headers_are_bound_once(
    tokens: Seq<TokenModel>,
    at: int,
    bound: Seq<(Seq<char>, Seq<char>)>,
    name: Seq<char>,
    header: Seq<char>,
)
    requires
        0 <= at,
        at + 4 <= tokens.len(),
        tokens[at] == TokenModel::Name(name),
        tokens[at + 1] is Equals,
        tokens[at + 2] == TokenModel::Text(header),
    ensures
        (exists|i: int| 0 <= i < bound.len() && (#[trigger] bound[i]).0 == name)
            ==> header_bindings(tokens, at, bound) == Err::<
            (Seq<(Seq<char>, Seq<char>)>, int),
            Seq<char>,
        >("a parameter may only bind one HTTP header"@),
        (forall|i: int| 0 <= i < bound.len() ==> (#[trigger] bound[i]).0 != name) ==> {
            &&& tokens[at + 3] is Close ==> header_bindings(tokens, at, bound) == Ok::<
                (Seq<(Seq<char>, Seq<char>)>, int),
                Seq<char>,
            >((with_pair(bound, (name, header)), at + 4))
            &&& tokens[at + 3] is Comma ==> header_bindings(tokens, at, bound) == header_bindings(
                tokens,
                at + 4,
                with_pair(bound, (name, header)),
            )
            &&& !(tokens[at + 3] is Close || tokens[at + 3] is Comma) ==> header_bindings(
                tokens,
                at,
                bound,
            ) is Err
        },
        tokens[at + 3] is Close ==> header_bindings(tokens, at + 3, bound) == Ok::<
            (Seq<(Seq<char>, Seq<char>)>, int),
            Seq<char>,
        >((bound, at + 4)),
{
    reveal_with_fuel(header_bindings, 2);
}

/// A pair is put among others by its name: it is added, and the order stays.
pub proof fn law_pairs_stay_ordered(
    pairs: Seq<(Seq<char>, Seq<char>)>,
    pair: (Seq<char>, Seq<char>),
)
    requires
        forall|i: int, j: int|
            0 <= i < j < pairs.len() ==> at_most(
                encode_utf8((#[trigger] pairs[i]).0),
                encode_utf8((#[trigger] pairs[j]).0),
            ),
    ensures
        exists|place: int|
            0 <= place <= pairs.len() && with_pair(pairs, pair) == #[trigger] pairs.insert(
                place,
                pair,
            ),
        forall|i: int, j: int|
            0 <= i < j < with_pair(pairs, pair).len() ==> at_most(
                encode_utf8((#[trigger] with_pair(pairs, pair)[i]).0),
                encode_utf8((#[trigger] with_pair(pairs, pair)[j]).0),
            ),
    decreases pairs.len(),
{
    let after = with_pair(pairs, pair);
    if pairs.len() == 0 {
        assert(after =~= pairs.insert(0, pair));
    } else if at_most(encode_utf8(pairs.last().0), encode_utf8(pair.0)) {
        assert(after =~= pairs.insert(pairs.len() as int, pair));
        assert forall|i: int, j: int| 0 <= i < j < after.len() implies at_most(
            encode_utf8((#[trigger] after[i]).0),
            encode_utf8((#[trigger] after[j]).0),
        ) by {
            if j == pairs.len() && i < j {
                let last = pairs[pairs.len() - 1];
                if i < pairs.len() - 1 {
                    assert(at_most(encode_utf8(pairs[i].0), encode_utf8(last.0)));
                    lemma_at_most_transitive(
                        encode_utf8(pairs[i].0),
                        encode_utf8(last.0),
                        encode_utf8(pair.0),
                    );
                }
            }
        }
    } else {
        let front = pairs.drop_last();
        law_pairs_stay_ordered(front, pair);
        let inner = with_pair(front, pair);
        let place = choose|place: int|
            0 <= place <= front.len() && inner == #[trigger] front.insert(place, pair);
        let last = pairs.last();
        lemma_at_most_total(encode_utf8(last.0), encode_utf8(pair.0));
        assert(after =~= inner.push(last));
        assert(after =~= pairs.insert(place, pair));
        assert forall|i: int, j: int| 0 <= i < j < after.len() implies at_most(
            encode_utf8((#[trigger] after[i]).0),
            encode_utf8((#[trigger] after[j]).0),
        ) by {
            if j < inner.len() {
                assert(after[i] == inner[i] && after[j] == inner[j]);
            } else {
                assert(after[j] == last);
                if i == place {
                    assert(after[i] == pair);
                } else if i < place {
                    assert(after[i] == pairs[i]);
                    assert(at_most(
                        encode_utf8(pairs[i].0),
                        encode_utf8(pairs[pairs.len() - 1].0),
                    ));
                } else {
                    assert(after[i] == pairs[i - 1]);
                    assert(at_most(
                        encode_utf8(pairs[i - 1].0),
                        encode_utf8(pairs[pairs.len() - 1].0),
                    ));
                }
            }
        }
    }
}

/// Dependencies are declared name by name, each of them once, with a type.
pub proof fn law_dependencies_are_declared_once(
    tokens: Seq<TokenModel>,
    at: int,
    fields: Seq<(Seq<char>, Seq<char>)>,
    name: Seq<char>,
    ty: Seq<char>,
)
    requires
        0 <= at,
        at + 4 <= tokens.len(),
        tokens[at] == TokenModel::Name(name),
        tokens[at + 1] is Colon,
        value_at(tokens, at + 2) == Some(ty),
    ensures
        (exists|i: int| 0 <= i < fields.len() && (#[trigger] fields[i]).0 == name)
            ==> dependency_fields(tokens, at, fields) == Err::<
            (Seq<(Seq<char>, Seq<char>)>, int),
            Seq<char>,
        >("duplicate dependency name"@),
        (forall|i: int| 0 <= i < fields.len() ==> (#[trigger] fields[i]).0 != name) ==> {
            &&& tokens[at + 3] is Close ==> dependency_fields(tokens, at, fields) == Ok::<
                (Seq<(Seq<char>, Seq<char>)>, int),
                Seq<char>,
            >((fields.push((name, ty)), at + 4))
            &&& tokens[at + 3] is Comma ==> dependency_fields(tokens, at, fields)
                == dependency_fields(tokens, at + 4, fields.push((name, ty)))
            &&& !(tokens[at + 3] is Close || tokens[at + 3] is Comma) ==> dependency_fields(
                tokens,
                at,
                fields,
            ) is Err
        },
        tokens[at + 3] is Close ==> dependency_fields(tokens, at + 3, fields) == Ok::<
            (Seq<(Seq<char>, Seq<char>)>, int),
            Seq<char>,
        >((fields, at + 4)),
{
    reveal_with_fuel(dependency_fields, 2);
}

/// A registry names its group, its dependencies and its authenticator, each of
/// them at most once.
pub proof fn law_registries_say_each_thing_once(
    tokens: Seq<TokenModel>,
    at: int,
    registry: RegistryModel,
)
    requires
        0 <= at,
        at + 3 <= tokens.len(),
    ensures
        tokens[at] == TokenModel::Name("group"@) && tokens[at + 1] is Equals && registry.name is None
            ==> (tokens[at + 2] matches TokenModel::Name(name) ==> registry_option(
            tokens,
            at,
            registry,
        ) == Ok::<(RegistryModel, int), Seq<char>>(
            (RegistryModel { name: Some(name), ..registry }, at + 3),
        )),
        tokens[at] == TokenModel::Name("auth"@) && tokens[at + 1] is Equals && registry.auth is None
            ==> (value_at(tokens, at + 2) matches Some(auth) ==> registry_option(
            tokens,
            at,
            registry,
        ) == Ok::<(RegistryModel, int), Seq<char>>(
            (RegistryModel { auth: Some(auth), ..registry }, at + 3),
        )),
        tokens[at] == TokenModel::Name("dependencies"@) && tokens[at + 1] is Open
            && registry.dependencies is None ==> (dependency_fields(
            tokens,
            at + 2,
            Seq::empty(),
        ) matches Ok((fields, next)) ==> registry_option(tokens, at, registry) == Ok::<
            (RegistryModel, int),
            Seq<char>,
        >((RegistryModel { dependencies: Some(fields), ..registry }, next))),
        tokens[at] == TokenModel::Name("group"@) && registry.name is Some ==> registry_option(
            tokens,
            at,
            registry,
        ) is Err,
        tokens[at] == TokenModel::Name("auth"@) && registry.auth is Some ==> registry_option(
            tokens,
            at,
            registry,
        ) is Err,
        tokens[at] == TokenModel::Name("dependencies"@) && registry.dependencies is Some
            ==> registry_option(tokens, at, registry) is Err,
        registry_option(tokens, at, registry) is Ok ==> seq![
            TokenModel::Name("group"@),
            TokenModel::Name("auth"@),
            TokenModel::Name("dependencies"@),
        ].contains(tokens[at]),
{
    lemma_option_names();
    let names = seq![
        TokenModel::Name("group"@),
        TokenModel::Name("auth"@),
        TokenModel::Name("dependencies"@),
    ];
    assert(names[0] == TokenModel::Name("group"@) && names[1] == TokenModel::Name("auth"@)
        && names[2] == TokenModel::Name("dependencies"@));
}

/// Commas divide the parts of a declaration, which say more and more of one
/// registry; one that says nothing is named `http_apis`.
pub proof fn law_declarations_are_read_part_by_part(
    tokens: Seq<TokenModel>,
    at: int,
    registry: RegistryModel,
    declared: RegistryArguments,
)
    requires
        0 <= at <= tokens.len(),
    ensures
        at == tokens.len() ==> registry_options(tokens, at, registry) == Ok::<
            RegistryModel,
            Seq<char>,
        >(registry),
        at < tokens.len() ==> (registry_option(tokens, at, registry) matches Err(message)
            ==> registry_options(tokens, at, registry) == Err::<RegistryModel, Seq<char>>(message)),
        at < tokens.len() ==> (registry_option(tokens, at, registry) matches Ok((next, end))
            ==> registry_options(tokens, at, registry) == (if end >= tokens.len() {
            Ok::<RegistryModel, Seq<char>>(next)
        } else if tokens[end] is Comma {
            registry_options(tokens, end + 1, next)
        } else {
            Err("expected `,`"@)
        })),
        is_declaration(declared, RegistryModel { name: None, dependencies: None, auth: None })
            ==> declared.name@ == "http_apis"@ && declared.dependencies@.len() == 0
            && declared.auth is None,
        is_declaration(declared, registry) ==> {
            &&& registry.name matches Some(name) ==> declared.name@ == name
            &&& registry.dependencies matches Some(fields) ==> dependency_models(
                declared.dependencies@,
            ) == fields
            &&& registry.auth matches Some(auth) ==> (declared.auth matches Some(text) && text@
                == auth)
        },
        empty_registry() == (RegistryModel { name: None, dependencies: None, auth: None }),
{
    crate::macros::registry::lemma_fields_advance(tokens, at + 2, Seq::empty());
    if at < tokens.len() {
        if let Ok((next, end)) = registry_option(tokens, at, registry) {
            assert(end > at);
        }
    }
    if is_declaration(declared, RegistryModel { name: None, dependencies: None, auth: None }) {
        assert(dependency_models(declared.dependencies@).len() == declared.dependencies@.len());
    }
}

/// The values that a registry is built with are given name by name, each of
/// them once. A name alone stands for the variable of that name.
pub proof fn law_values_are_collected_once(
    tokens: Seq<TokenModel>,
    at: int,
    values: Seq<(Seq<char>, Seq<char>)>,
    name: Seq<char>,
)
    requires
        0 <= at < tokens.len(),
        tokens[at] == TokenModel::Name(name),
    ensures
        (exists|i: int| 0 <= i < values.len() && (#[trigger] values[i]).0 == name)
            ==> collected_values(tokens, at, values) == Err::<
            (Seq<(Seq<char>, Seq<char>)>, int),
            Seq<char>,
        >("duplicate dependency name"@),
        (forall|i: int| 0 <= i < values.len() ==> (#[trigger] values[i]).0 != name) ==> {
            &&& at + 1 == tokens.len() || tokens[at + 1] is Semicolon ==> collected_values(
                tokens,
                at,
                values,
            ) == Ok::<(Seq<(Seq<char>, Seq<char>)>, int), Seq<char>>(
                (values.push((name, name)), at + 1),
            )
            &&& at + 1 < tokens.len() && tokens[at + 1] is Comma ==> collected_values(
                tokens,
                at,
                values,
            ) == collected_values(tokens, at + 2, values.push((name, name)))
            &&& at + 2 < tokens.len() && tokens[at + 1] is Equals ==> (value_at(
                tokens,
                at + 2,
            ) matches Some(value) ==> {
                &&& at + 3 == tokens.len() || tokens[at + 3] is Semicolon ==> collected_values(
                    tokens,
                    at,
                    values,
                ) == Ok::<(Seq<(Seq<char>, Seq<char>)>, int), Seq<char>>(
                    (values.push((name, value)), at + 3),
                )
                &&& at + 3 < tokens.len() && tokens[at + 3] is Comma ==> collected_values(
                    tokens,
                    at,
                    values,
                ) == collected_values(tokens, at + 4, values.push((name, value)))
            })
            &&& at + 2 < tokens.len() && tokens[at + 1] is Equals && value_at(tokens, at + 2) is None
                ==> collected_values(tokens, at, values) is Err
        },
        collected_values(tokens, tokens.len() as int, values) == Ok::<
            (Seq<(Seq<char>, Seq<char>)>, int),
            Seq<char>,
        >((values, tokens.len() as int)),
{
    reveal_with_fuel(collected_values, 2);
}

/// A registry is built from the group that is named behind the values, and from
/// the one of the crate where none is.
pub proof fn law_registries_are_built_from_a_group(tokens: Seq<TokenModel>)
    ensures
        collected_values(tokens, 0, Seq::empty()) matches Ok((dependencies, at)) ==> {
            &&& at >= tokens.len() ==> collect_arguments(tokens) == Ok::<CollectModel, Seq<char>>(
                CollectModel {
                    dependencies,
                    registry: PathModel {
                        leading_colon: false,
                        segments: seq!["crate"@, "__http_registry_"@ + "http_apis"@],
                    },
                },
            )
            &&& at + 4 == tokens.len() && tokens[at + 1] == TokenModel::Name("group"@) && tokens[at
                + 2] is Equals ==> (path_at(tokens, at + 3) matches Some(group)
                ==> collect_arguments(tokens) == Ok::<CollectModel, Seq<char>>(
                CollectModel { dependencies, registry: group_module_path(group) },
            ))
            &&& at < tokens.len() && name_at(tokens, at + 1) is Some && name_at(tokens, at + 1)
                != Some("group"@) ==> collect_arguments(tokens) == Err::<CollectModel, Seq<char>>(
                "expected group = path"@,
            )
        },
        collected_values(tokens, 0, Seq::empty()) matches Err(message) ==> collect_arguments(tokens)
            == Err::<CollectModel, Seq<char>>(message),
{
    reveal_strlit("http_apis");
    let default = PathModel { leading_colon: false, segments: seq!["http_apis"@] };
    assert("http_apis"@[0] == 'h');
    assert(default.segments.update(0, module_name("http_apis"@)) =~= seq![
        module_name("http_apis"@),
    ]);
    assert(group_module_path(default).segments =~= seq![
        "crate"@,
        "__http_registry_"@ + "http_apis"@,
    ]);
    assert(group_module_path(default) =~= (PathModel {
        leading_colon: false,
        segments: seq!["crate"@, "__http_registry_"@ + "http_apis"@],
    }));
}

/// What is generated for a group is named after it, without the mark of a raw
/// identifier.
pub proof fn law_generated_names_start_alike(name: Seq<char>, group: &str, names: RegistryNames)
    requires
        call_ensures(registry_names, (group,), names),
    ensures
        unraw(seq!['r', '#'] + name) == name,
        name.len() < 2 || name[0] != 'r' || name[1] != '#' ==> unraw(name) == name,
        module_name(name) == "__http_registry_"@ + unraw(name),
        names.module@ == "__http_registry_"@ + unraw(group@),
        names.state@ == "__HttpDependencies_"@ + unraw(group@),
        names.auth@ == "__HttpRegistryAuth_"@ + unraw(group@),
{
    let raw = seq!['r', '#'] + name;
    assert(raw[0] == 'r' && raw[1] == '#');
    assert(raw.skip(2) =~= name);
}

/// The module of a group stands where the group is said to be, under its own
/// name; a bare name is looked for in the root of the crate.
pub proof fn law_modules_stand_where_their_group_is(
    parents: Seq<Seq<char>>,
    group: Seq<char>,
    leading_colon: bool,
)
    requires
        parents.len() > 0 || leading_colon,
    ensures
        group_module_path(PathModel { leading_colon, segments: parents.push(group) }) == (PathModel {
            leading_colon,
            segments: parents.push(module_name(group)),
        }),
        group_module_path(PathModel { leading_colon: false, segments: seq![group] }) == (PathModel {
            leading_colon: false,
            segments: seq!["crate"@, module_name(group)],
        }),
{
    let inner = parents.push(group);
    assert(inner.last() == group);
    assert(inner.update(inner.len() - 1, module_name(group)) =~= parents.push(module_name(group)));
    let one = seq![group];
    assert(one.last() == group);
    assert(seq!["crate"@] + one.update(0, module_name(group)) =~= seq!["crate"@, module_name(group)]);
}

/// A crate is named by its package, with every hyphen written as an underscore.
pub proof fn law_crates_are_named_by_their_package(name: Seq<char>, index: int, found: FoundCrate)
    requires
        0 <= index < name.len(),
    ensures
        crate_ident(name).len() == name.len(),
        name[index] == '-' ==> crate_ident(name)[index] == '_',
        name[index] != '-' ==> crate_ident(name)[index] == name[index],
        found is Itself ==> crate_path(found) == "crate"@,
        found is Missing ==> crate_path(found) == "::http_server"@,
        found matches FoundCrate::Named(package) ==> crate_path(found) == "::"@ + crate_ident(
            package@,
        ),
{
}

/// Templates are tried in one order: those without a catch-all first, then
/// those with more literals, then by their text.
pub proof fn law_templates_are_tried_in_one_order(left: Seq<char>, right: Seq<char>)
    ensures
        !(path_before(left, right) && path_before(right, left)),
        left != right ==> path_before(left, right) || path_before(right, left),
        !path_before(left, left),
        !has_catch_all(split(left, '/')) && has_catch_all(split(right, '/')) ==> path_before(
            left,
            right,
        ),
        has_catch_all(split(left, '/')) == has_catch_all(split(right, '/')) && literal_count(
            split(left, '/'),
        ) > literal_count(split(right, '/')) ==> path_before(left, right),
        has_catch_all(split(left, '/')) == has_catch_all(split(right, '/')) && literal_count(
            split(left, '/'),
        ) == literal_count(split(right, '/')) ==> (path_before(left, right) <==> left != right
            && at_most(encode_utf8(left), encode_utf8(right))),
{
    lemma_at_most_total(encode_utf8(left), encode_utf8(right));
    if left != right && at_most(encode_utf8(left), encode_utf8(right)) && at_most(
        encode_utf8(right),
        encode_utf8(left),
    ) {
        lemma_at_most_antisymmetric(encode_utf8(left), encode_utf8(right));
        lemma_text_of_bytes(left, right);
    }
}

proof fn lemma_first_path(endpoints: Seq<EndpointModel>, shape: Seq<char>, at: int) -> (first: int)
    requires
        0 <= at <= endpoints.len(),
        path_of_shape(endpoints, shape, at) is Some,
    ensures
        0 <= first < at,
        endpoints[first].shape == shape,
        path_of_shape(endpoints, shape, at) == Some(endpoints[first].path),
    decreases at,
{
    if path_of_shape(endpoints, shape, at - 1) is Some {
        lemma_first_path(endpoints, shape, at - 1)
    } else {
        at - 1
    }
}

proof fn lemma_path_stays(endpoints: Seq<EndpointModel>, shape: Seq<char>, from: int, at: int)
    requires
        0 <= from <= at,
        path_of_shape(endpoints, shape, from) is Some,
    ensures
        path_of_shape(endpoints, shape, at) == path_of_shape(endpoints, shape, from),
    decreases at,
{
    if from < at {
        lemma_path_stays(endpoints, shape, from, at - 1);
    }
}

proof fn lemma_unambiguous(endpoints: Seq<EndpointModel>, at: int, index: int)
    requires
        0 <= at <= index < endpoints.len(),
        ambiguity(endpoints, at) is None,
        path_of_shape(endpoints, endpoints[index].shape, index) is Some,
    ensures
        path_of_shape(endpoints, endpoints[index].shape, index) == Some(endpoints[index].path),
    decreases index - at,
{
    if at < index {
        lemma_unambiguous(endpoints, at + 1, index);
    }
}

proof fn lemma_clash(endpoints: Seq<EndpointModel>, at: int) -> (clash: (int, int))
    requires
        0 <= at <= endpoints.len(),
        ambiguity(endpoints, at) is Some,
    ensures
        0 <= clash.0 < clash.1 < endpoints.len(),
        endpoints[clash.0].shape == endpoints[clash.1].shape,
        endpoints[clash.0].path != endpoints[clash.1].path,
        ambiguity(endpoints, at) == Some(
            "ambiguous route templates "@ + endpoints[clash.0].path + " and "@
                + endpoints[clash.1].path + "; rename captures consistently"@,
        ),
    decreases endpoints.len() - at,
{
    match path_of_shape(endpoints, endpoints[at].shape, at) {
        Some(existing) if existing != endpoints[at].path => {
            let first = lemma_first_path(endpoints, endpoints[at].shape, at);
            (first, at)
        },
        _ => lemma_clash(endpoints, at + 1),
    }
}

/// Templates of one shape have to be written alike: where two are not, the
/// clash is told with both of them.
pub proof fn law_shapes_are_written_alike(endpoints: Seq<EndpointModel>)
    ensures
        ambiguity(endpoints, 0) is None <==> forall|i: int, j: int|
            0 <= i < j < endpoints.len() && (#[trigger] endpoints[i]).shape == (
            #[trigger] endpoints[j]).shape ==> endpoints[i].path == endpoints[j].path,
        ambiguity(endpoints, 0) matches Some(message) ==> exists|i: int, j: int|
            0 <= i < j < endpoints.len() && (#[trigger] endpoints[i]).shape == (
            #[trigger] endpoints[j]).shape && endpoints[i].path != endpoints[j].path && message
                == "ambiguous route templates "@ + endpoints[i].path + " and "@ + endpoints[j].path
                + "; rename captures consistently"@,
{
    if ambiguity(endpoints, 0) is None {
        assert forall|i: int, j: int|
            0 <= i < j < endpoints.len() && (#[trigger] endpoints[i]).shape == (
            #[trigger] endpoints[j]).shape implies endpoints[i].path == endpoints[j].path by {
            let shape = endpoints[i].shape;
            if path_of_shape(endpoints, shape, i) is Some {
                lemma_unambiguous(endpoints, 0, i);
                lemma_path_stays(endpoints, shape, i, j);
            } else {
                lemma_path_stays(endpoints, shape, i + 1, j);
            }
            lemma_unambiguous(endpoints, 0, j);
        }
    } else {
        let (i, j) = lemma_clash(endpoints, 0);
        assert(endpoints[i].shape == endpoints[j].shape);
    }
}

/// Of several routes that are answered twice, the one is told whose template
/// comes first, and of one template the method that comes first.
pub proof fn law_the_first_duplicate_is_told(
    endpoints: Seq<EndpointModel>,
    path: Seq<char>,
    method: Seq<char>,
    first: int,
    second: int,
)
    requires
        is_first_duplicate(endpoints, path, method),
        0 <= first < second < endpoints.len(),
        endpoints[first].path == endpoints[second].path,
        endpoints[first].method == endpoints[second].method,
    ensures
        is_duplicate(endpoints, path, method),
        path != endpoints[first].path ==> at_most(
            encode_utf8(path),
            encode_utf8(endpoints[first].path),
        ),
        path == endpoints[first].path ==> at_most(
            encode_utf8(method),
            encode_utf8(endpoints[first].method),
        ),
{
    assert(is_duplicate(endpoints, endpoints[first].path, endpoints[first].method));
    if path == endpoints[first].path {
        lemma_at_most_total(encode_utf8(path), encode_utf8(path));
    }
}

/// Endpoints that are accepted stand in groups of one template each, one for
/// every method, and the groups in the order in which templates are tried. None
/// is lost, and none is refused but for a template that is written in two ways
/// or a method that is answered twice.
pub proof fn law_endpoints_are_grouped_by_template<'a>(
    endpoints: Vec<Endpoint<'a>>,
    outcome: Result<Vec<RouteGroup<'a>>, SyntaxError>,
)
    requires
        call_ensures(group_endpoints, (endpoints,), outcome),
    ensures
        ({
            let all = endpoint_models(endpoints@);
            &&& outcome is Ok <==> {
                &&& forall|i: int, j: int|
                    0 <= i < j < all.len() && (#[trigger] all[i]).shape == (
                    #[trigger] all[j]).shape ==> all[i].path == all[j].path
                &&& forall|i: int, j: int|
                    0 <= i < j < all.len() && (#[trigger] all[i]).path == (#[trigger] all[j]).path
                        ==> all[i].method != all[j].method
            }
            &&& outcome matches Ok(groups) ==> {
                let groups = group_models(groups@);
                &&& forall|i: int, j: int|
                    0 <= i < j < groups.len() ==> path_before(
                        (#[trigger] groups[i]).path,
                        (#[trigger] groups[j]).path,
                    )
                &&& forall|i: int, k: int|
                    0 <= i < groups.len() && 0 <= k < groups[i].endpoints.len() ==> (
                    #[trigger] groups[i].endpoints[k]).path == groups[i].path && all.contains(
                        groups[i].endpoints[k],
                    )
                &&& forall|i: int, k: int, l: int|
                    0 <= i < groups.len() && 0 <= k < l < groups[i].endpoints.len()
                        ==> text_before(
                        (#[trigger] groups[i].endpoints[k]).method,
                        (#[trigger] groups[i].endpoints[l]).method,
                    )
                &&& forall|n: int|
                    0 <= n < all.len() ==> exists|i: int, k: int|
                        0 <= i < groups.len() && 0 <= k < groups[i].endpoints.len()
                            && #[trigger] groups[i].endpoints[k] == #[trigger] all[n]
                &&& forall|i: int|
                    0 <= i < groups.len() ==> (#[trigger] groups[i]).specificity == literal_count(
                        split(groups[i].path, '/'),
                    )
            }
        }),
{
    let all = endpoint_models(endpoints@);
    law_shapes_are_written_alike(all);
    if outcome is Ok {
        assert forall|i: int, j: int|
            0 <= i < j < all.len() && (#[trigger] all[i]).path == (#[trigger] all[j]).path implies all[i].method
            != all[j].method by {
            assert(!is_duplicate(all, all[i].path, all[i].method));
        }
        let groups = group_models(outcome->Ok_0@);
        assert forall|i: int, k: int|
            0 <= i < groups.len() && 0 <= k < groups[i].endpoints.len() implies (
        #[trigger] groups[i].endpoints[k]).path == groups[i].path && all.contains(
            groups[i].endpoints[k],
        ) by {
            assert(is_group(groups[i]));
        }
        assert forall|i: int, k: int, l: int|
            0 <= i < groups.len() && 0 <= k < l < groups[i].endpoints.len() implies text_before(
            (#[trigger] groups[i].endpoints[k]).method,
            (#[trigger] groups[i].endpoints[l]).method,
        ) by {
            assert(is_group(groups[i]));
        }
        assert forall|n: int| 0 <= n < all.len() implies exists|i: int, k: int|
            0 <= i < groups.len() && 0 <= k < groups[i].endpoints.len()
                && #[trigger] groups[i].endpoints[k] == #[trigger] all[n] by {
            assert(crate::macros::groups::grouped(groups, all[n]));
        }
    } else if ambiguity(all, 0) is None {
        let (path, method) = choose|path: Seq<char>, method: Seq<char>| #[trigger]
            is_first_duplicate(all, path, method);
        let (i, j) = choose|i: int, j: int|
            0 <= i < j < all.len() && (#[trigger] all[i]).path == path && all[i].method == method
                && (#[trigger] all[j]).path == path && all[j].method == method;
        assert(all[i].path == all[j].path);
    }
}

} // verus!
