//! Registries of routes and their named dependencies.
use vstd::prelude::*;

use crate::macros::arguments::{
    has_close, has_colon, has_comma, has_equals, has_open, has_semicolon, read_name, read_path,
    read_value, ArgToken, PathSyntax,
};
#[allow(unused_imports)]
use crate::macros::arguments::{
    is_at, name_at, names_pair, owned_model, path_at, token_models, value_at, PathModel,
    TokenModel,
};
use crate::macros::paths::behind;
use crate::macros::SyntaxError;
#[allow(unused_imports)]
use crate::text::{string_texts};
use crate::text::{push_char, same_text, starts_with_ascii};

verus! {

/// A named dependency with its type, or with the value that it is given.
#[derive(Debug)]
pub struct Dependency {
    pub name: String,
    pub value: String,
}

impl View for Dependency {
    type V = (Seq<char>, Seq<char>);

    open spec fn view(&self) -> (Seq<char>, Seq<char>) {
        (self.name@, self.value@)
    }
}

pub open spec fn dependency_models(dependencies: Seq<Dependency>) -> Seq<(Seq<char>, Seq<char>)> {
    dependencies.map_values(|dependency: Dependency| dependency@)
}

fn is_declared(dependencies: &Vec<Dependency>, name: &str) -> (found: bool)
    ensures
        found == names_pair(dependency_models(dependencies@), name@),
{
    let ghost pairs = dependency_models(dependencies@);
    let mut i: usize = 0;
    while i < dependencies.len()
        invariant
            0 <= i <= dependencies@.len(),
            pairs == dependency_models(dependencies@),
            forall|j: int| 0 <= j < i ==> (#[trigger] pairs[j]).0 != name@,
        decreases dependencies@.len() - i,
    {
        assert(pairs[i as int] == dependencies@[i as int]@);
        if same_text(dependencies[i].name.as_str(), name) {
            return true;
        }
        i += 1;
    }
    false
}

/// An identifier without the mark of a raw one.
pub open spec fn unraw(name: Seq<char>) -> Seq<char> {
    if name.len() >= 2 && name[0] == 'r' && name[1] == '#' {
        name.skip(2)
    } else {
        name
    }
}

pub fn unraw_name<'a>(name: &'a str) -> (bare: &'a str)
    ensures
        bare@ == unraw(name@),
{
    assert(114u8 as char == 'r' && 35u8 as char == '#');
    if starts_with_ascii(name, 114) {
        let rest = behind(name, 114);
        if starts_with_ascii(rest, 35) {
            assert(name@.skip(1).skip(1) =~= name@.skip(2));
            return behind(rest, 35);
        }
    }
    name
}

/// The name of the module that is generated for a group.
pub open spec fn module_name(group: Seq<char>) -> Seq<char> {
    "__http_registry_"@ + unraw(group)
}

pub fn registry_module(group: &str) -> (module: String)
    ensures
        module@ == module_name(group@),
{
    "__http_registry_".to_owned().concat(unraw_name(group))
}

/// The path of the module that is generated for the group with a logical path:
/// only the last segment changes, and a bare name is looked for in the crate root.
pub open spec fn group_module_path(group: PathModel) -> PathModel {
    let mapped = group.segments.update(
        group.segments.len() - 1,
        module_name(group.segments.last()),
    );
    PathModel {
        leading_colon: group.leading_colon,
        segments: if !group.leading_colon && group.segments.len() == 1 {
            seq!["crate"@] + mapped
        } else {
            mapped
        },
    }
}

pub fn group_path(group: PathSyntax) -> (mapped: PathSyntax)
    requires
        group@.segments.len() > 0,
    ensures
        mapped@ == group_module_path(group@),
{
    let PathSyntax { leading_colon, mut segments } = group;
    let ghost before = string_texts(segments@);
    let last: usize = segments.len() - 1;
    let module = registry_module(segments[last].as_str());
    segments.set(last, module);
    assert(string_texts(segments@) =~= before.update(last as int, module_name(before[last as int])));
    if !leading_colon && segments.len() == 1 {
        let ghost mapped = string_texts(segments@);
        segments.insert(0, "crate".to_owned());
        assert(string_texts(segments@) =~= seq!["crate"@] + mapped);
    }
    PathSyntax { leading_colon, segments }
}

/// A declared registry.
#[derive(Debug)]
pub struct RegistryArguments {
    pub name: String,
    /// The dependencies with their types.
    pub dependencies: Vec<Dependency>,
    pub auth: Option<String>,
}

/// What a declaration says of a registry, as far as it was read.
#[verifier::ext_equal]
pub struct RegistryModel {
    pub name: Option<Seq<char>>,
    pub dependencies: Option<Seq<(Seq<char>, Seq<char>)>>,
    pub auth: Option<Seq<char>>,
}

/// The fields of a `dependencies(...)` group from a position on, and where the
/// declaration goes on behind it.
pub open spec fn dependency_fields(
    tokens: Seq<TokenModel>,
    at: int,
    fields: Seq<(Seq<char>, Seq<char>)>,
) -> Result<(Seq<(Seq<char>, Seq<char>)>, int), Seq<char>>
    decreases tokens.len() - at,
{
    if is_at(tokens, at, TokenModel::Close) {
        Ok((fields, at + 1))
    } else {
        match (name_at(tokens, at), value_at(tokens, at + 2)) {
            (None, _) => Err("expected identifier"@),
            (Some(name), ty) => if names_pair(fields, name) {
                Err("duplicate dependency name"@)
            } else if !is_at(tokens, at + 1, TokenModel::Colon) {
                Err("expected `:`"@)
            } else {
                match ty {
                    None => Err("expected a type"@),
                    Some(ty) => if is_at(tokens, at + 3, TokenModel::Close) {
                        Ok((fields.push((name, ty)), at + 4))
                    } else if is_at(tokens, at + 3, TokenModel::Comma) {
                        dependency_fields(tokens, at + 4, fields.push((name, ty)))
                    } else {
                        Err("expected `,`"@)
                    },
                }
            },
        }
    }
}

pub proof fn lemma_fields_advance(
    tokens: Seq<TokenModel>,
    at: int,
    fields: Seq<(Seq<char>, Seq<char>)>,
)
    requires
        0 <= at,
    ensures
        dependency_fields(tokens, at, fields) matches Ok((_, next)) ==> at < next <= tokens.len(),
    decreases tokens.len() - at,
{
    match (name_at(tokens, at), value_at(tokens, at + 2)) {
        (Some(name), Some(ty)) => {
            if is_at(tokens, at + 3, TokenModel::Comma) {
                lemma_fields_advance(tokens, at + 4, fields.push((name, ty)));
            }
        },
        _ => {},
    }
}

/// One part of a declaration, and where it goes on.
pub open spec fn registry_option(
    tokens: Seq<TokenModel>,
    at: int,
    registry: RegistryModel,
) -> Result<(RegistryModel, int), Seq<char>> {
    match name_at(tokens, at) {
        None => Err("expected identifier"@),
        Some(key) => if key == "dependencies"@ && registry.dependencies is None {
            if !is_at(tokens, at + 1, TokenModel::Open) {
                Err("expected parentheses"@)
            } else {
                match dependency_fields(tokens, at + 2, Seq::empty()) {
                    Err(message) => Err(message),
                    Ok((fields, next)) => Ok(
                        (RegistryModel { dependencies: Some(fields), ..registry }, next),
                    ),
                }
            }
        } else if !is_at(tokens, at + 1, TokenModel::Equals) {
            Err("expected `=`"@)
        } else if key == "group"@ && registry.name is None {
            match name_at(tokens, at + 2) {
                None => Err("expected identifier"@),
                Some(name) => Ok((RegistryModel { name: Some(name), ..registry }, at + 3)),
            }
        } else if key == "auth"@ && registry.auth is None {
            match value_at(tokens, at + 2) {
                None => Err("expected a type"@),
                Some(auth) => Ok((RegistryModel { auth: Some(auth), ..registry }, at + 3)),
            }
        } else {
            Err("expected dependencies(...), group, or auth, each at most once"@)
        },
    }
}

/// What a declaration says from a position on, behind what it said before.
pub open spec fn registry_options(
    tokens: Seq<TokenModel>,
    at: int,
    registry: RegistryModel,
) -> Result<RegistryModel, Seq<char>>
    decreases tokens.len() - at,
    when 0 <= at
{
    if at >= tokens.len() {
        Ok(registry)
    } else {
        proof {
            lemma_fields_advance(tokens, at + 2, Seq::empty());
        }
        match registry_option(tokens, at, registry) {
            Err(message) => Err(message),
            Ok((next, end)) => if end >= tokens.len() {
                Ok(next)
            } else if tokens[end] is Comma {
                registry_options(tokens, end + 1, next)
            } else {
                Err("expected `,`"@)
            },
        }
    }
}

/// A declaration that says nothing.
pub open spec fn empty_registry() -> RegistryModel {
    RegistryModel { name: None, dependencies: None, auth: None }
}

/// Whether a registry is what a declaration says, with the defaults where it
/// says nothing.
pub open spec fn is_declaration(registry: RegistryArguments, model: RegistryModel) -> bool {
    &&& registry.name@ == match model.name {
        Some(name) => name,
        None => "http_apis"@,
    }
    &&& dependency_models(registry.dependencies@) == match model.dependencies {
        Some(dependencies) => dependencies,
        None => Seq::empty(),
    }
    &&& owned_model(registry.auth) == model.auth
}

fn read_fields(tokens: &[ArgToken], start: usize) -> (outcome: Result<
    (Vec<Dependency>, usize),
    SyntaxError,
>)
    requires
        start <= tokens.len(),
    ensures
        match outcome {
            Ok((fields, next)) => dependency_fields(
                token_models(tokens@),
                start as int,
                Seq::empty(),
            ) == Ok::<(Seq<(Seq<char>, Seq<char>)>, int), Seq<char>>(
                (dependency_models(fields@), next as int),
            ) && start < next <= tokens.len(),
            Err(error) => dependency_fields(token_models(tokens@), start as int, Seq::empty())
                == Err::<(Seq<(Seq<char>, Seq<char>)>, int), Seq<char>>(error@),
        },
{
    let ghost models = token_models(tokens@);
    let mut fields: Vec<Dependency> = Vec::new();
    let mut at: usize = start;
    assert(dependency_models(fields@) =~= Seq::empty());
    loop
        invariant
            models == token_models(tokens@),
            start <= at <= tokens.len(),
            dependency_fields(models, start as int, Seq::empty()) == dependency_fields(
                models,
                at as int,
                dependency_models(fields@),
            ),
        decreases tokens.len() - at,
    {
        if has_close(tokens, at) {
            return Ok((fields, at + 1));
        }
        let field = match read_name(tokens, at) {
            None => {
                return Err(SyntaxError::of("expected identifier"));
            },
            Some(field) => field,
        };
        if is_declared(&fields, field.as_str()) {
            return Err(SyntaxError::of("duplicate dependency name"));
        }
        if !has_colon(tokens, at + 1) {
            return Err(SyntaxError::of("expected `:`"));
        }
        let ty = match read_value(tokens, at + 2) {
            None => {
                return Err(SyntaxError::of("expected a type"));
            },
            Some(ty) => ty,
        };
        let ghost before = dependency_models(fields@);
        let ghost pair = (field@, ty@);
        fields.push(Dependency { name: field.clone(), value: ty });
        assert(dependency_models(fields@) =~= before.push(pair));
        if has_close(tokens, at + 3) {
            return Ok((fields, at + 4));
        }
        if !has_comma(tokens, at + 3) {
            return Err(SyntaxError::of("expected `,`"));
        }
        at = at + 4;
    }
}

/// What was read of a declaration.
struct Declared {
    name: Option<String>,
    dependencies: Option<Vec<Dependency>>,
    auth: Option<String>,
}

impl View for Declared {
    type V = RegistryModel;

    closed spec fn view(&self) -> RegistryModel {
        RegistryModel {
            name: owned_model(self.name),
            dependencies: match self.dependencies {
                Some(dependencies) => Some(dependency_models(dependencies@)),
                None => None,
            },
            auth: owned_model(self.auth),
        }
    }
}

impl Declared {
    /// Reads one part of a declaration.
    fn read(&mut self, tokens: &[ArgToken], at: usize) -> (outcome: Result<usize, SyntaxError>)
        requires
            at < tokens.len(),
        ensures
            match outcome {
                Ok(next) => registry_option(token_models(tokens@), at as int, old(self)@) == Ok::<
                    (RegistryModel, int),
                    Seq<char>,
                >((final(self)@, next as int)) && at < next <= tokens.len(),
                Err(error) => registry_option(token_models(tokens@), at as int, old(self)@) == Err::<
                    (RegistryModel, int),
                    Seq<char>,
                >(error@),
            },
    {
        let key = match read_name(tokens, at) {
            None => {
                return Err(SyntaxError::of("expected identifier"));
            },
            Some(key) => key.as_str(),
        };
        if same_text(key, "dependencies") && self.dependencies.is_none() {
            if !has_open(tokens, at + 1) {
                return Err(SyntaxError::of("expected parentheses"));
            }
            return match read_fields(tokens, at + 2) {
                Err(error) => Err(error),
                Ok((fields, next)) => {
                    self.dependencies = Some(fields);
                    Ok(next)
                },
            };
        }
        if !has_equals(tokens, at + 1) {
            return Err(SyntaxError::of("expected `=`"));
        }
        if same_text(key, "group") && self.name.is_none() {
            match read_name(tokens, at + 2) {
                None => Err(SyntaxError::of("expected identifier")),
                Some(group) => {
                    self.name = Some(group.clone());
                    Ok(at + 3)
                },
            }
        } else if same_text(key, "auth") && self.auth.is_none() {
            match read_value(tokens, at + 2) {
                None => Err(SyntaxError::of("expected a type")),
                Some(auth) => {
                    self.auth = Some(auth);
                    Ok(at + 3)
                },
            }
        } else {
            Err(SyntaxError::of("expected dependencies(...), group, or auth, each at most once"))
        }
    }
}

impl RegistryArguments {
    pub fn parse(tokens: &[ArgToken]) -> (outcome: Result<Self, SyntaxError>)
        ensures
            match (outcome, registry_options(token_models(tokens@), 0, empty_registry())) {
                (Ok(registry), Ok(model)) => is_declaration(registry, model),
                (Err(error), Err(message)) => error@ == message,
                _ => false,
            },
    {
        let ghost models = token_models(tokens@);
        let mut declared = Declared { name: None, dependencies: None, auth: None };
        assert(declared@ =~= empty_registry());
        let mut at: usize = 0;
        while at < tokens.len()
            invariant
                models == token_models(tokens@),
                0 <= at <= tokens.len(),
                registry_options(models, 0, empty_registry()) == registry_options(
                    models,
                    at as int,
                    declared@,
                ),
            decreases tokens.len() - at,
        {
            match declared.read(tokens, at) {
                Err(error) => {
                    return Err(error);
                },
                Ok(next) => {
                    if next >= tokens.len() {
                        at = tokens.len();
                    } else if has_comma(tokens, next) {
                        at = next + 1;
                    } else {
                        return Err(SyntaxError::of("expected `,`"));
                    }
                },
            }
        }
        let Declared { name, dependencies, auth } = declared;
        Ok(
            RegistryArguments {
                name: match name {
                    Some(name) => name,
                    None => "http_apis".to_owned(),
                },
                dependencies: match dependencies {
                    Some(dependencies) => dependencies,
                    None => {
                        let none: Vec<Dependency> = Vec::new();
                        assert(dependency_models(none@) =~= Seq::empty());
                        none
                    },
                },
                auth,
            },
        )
    }
}

/// The values that a registry is built with.
#[derive(Debug)]
pub struct CollectArguments {
    pub dependencies: Vec<Dependency>,
    /// The path of the registry's module.
    pub registry: PathSyntax,
}

/// What [`CollectArguments`] say.
#[verifier::ext_equal]
pub struct CollectModel {
    pub dependencies: Seq<(Seq<char>, Seq<char>)>,
    pub registry: PathModel,
}

impl View for CollectArguments {
    type V = CollectModel;

    open spec fn view(&self) -> CollectModel {
        CollectModel {
            dependencies: dependency_models(self.dependencies@),
            registry: self.registry@,
        }
    }
}

/// The values from a position on, behind others, and where they end. A name
/// without a value stands for the variable of that name.
pub open spec fn collected_values(
    tokens: Seq<TokenModel>,
    at: int,
    values: Seq<(Seq<char>, Seq<char>)>,
) -> Result<(Seq<(Seq<char>, Seq<char>)>, int), Seq<char>>
    decreases tokens.len() - at,
{
    if at >= tokens.len() || is_at(tokens, at, TokenModel::Semicolon) {
        Ok((values, at))
    } else {
        match name_at(tokens, at) {
            None => Err("expected identifier"@),
            Some(name) => if names_pair(values, name) {
                Err("duplicate dependency name"@)
            } else {
                let given = is_at(tokens, at + 1, TokenModel::Equals);
                let (value, next) = if given {
                    (value_at(tokens, at + 2), at + 3)
                } else {
                    (Some(name), at + 1)
                };
                match value {
                    None => Err("expected an expression"@),
                    Some(value) => if next >= tokens.len() || is_at(
                        tokens,
                        next,
                        TokenModel::Semicolon,
                    ) {
                        Ok((values.push((name, value)), next))
                    } else if is_at(tokens, next, TokenModel::Comma) {
                        collected_values(tokens, next + 1, values.push((name, value)))
                    } else {
                        Err("expected `,`"@)
                    },
                }
            },
        }
    }
}

/// What the arguments for building a registry say.
pub open spec fn collect_arguments(tokens: Seq<TokenModel>) -> Result<CollectModel, Seq<char>> {
    match collected_values(tokens, 0, Seq::empty()) {
        Err(message) => Err(message),
        Ok((dependencies, at)) => if at >= tokens.len() {
            Ok(
                CollectModel {
                    dependencies,
                    registry: group_module_path(
                        PathModel { leading_colon: false, segments: seq!["http_apis"@] },
                    ),
                },
            )
        } else {
            match name_at(tokens, at + 1) {
                None => Err("expected identifier"@),
                Some(key) => if key != "group"@ {
                    Err("expected group = path"@)
                } else if !is_at(tokens, at + 2, TokenModel::Equals) {
                    Err("expected `=`"@)
                } else {
                    match path_at(tokens, at + 3) {
                        None => Err("expected a path"@),
                        Some(group) => {
                            let end = if is_at(tokens, at + 4, TokenModel::Comma) {
                                at + 5
                            } else {
                                at + 4
                            };
                            if end < tokens.len() {
                                Err("unexpected token"@)
                            } else {
                                Ok(CollectModel { dependencies, registry: group_module_path(group) })
                            }
                        },
                    }
                },
            }
        },
    }
}

pub open spec fn collect_outcome(outcome: Result<CollectArguments, SyntaxError>) -> Result<
    CollectModel,
    Seq<char>,
> {
    match outcome {
        Ok(arguments) => Ok(arguments@),
        Err(error) => Err(error@),
    }
}

fn read_values(tokens: &[ArgToken]) -> (outcome: Result<(Vec<Dependency>, usize), SyntaxError>)
    ensures
        match outcome {
            Ok((values, at)) => collected_values(token_models(tokens@), 0, Seq::empty()) == Ok::<
                (Seq<(Seq<char>, Seq<char>)>, int),
                Seq<char>,
            >((dependency_models(values@), at as int)) && at <= tokens.len(),
            Err(error) => collected_values(token_models(tokens@), 0, Seq::empty()) == Err::<
                (Seq<(Seq<char>, Seq<char>)>, int),
                Seq<char>,
            >(error@),
        },
{
    let ghost models = token_models(tokens@);
    let mut values: Vec<Dependency> = Vec::new();
    let mut at: usize = 0;
    assert(dependency_models(values@) =~= Seq::empty());
    loop
        invariant
            models == token_models(tokens@),
            0 <= at <= tokens.len(),
            collected_values(models, 0, Seq::empty()) == collected_values(
                models,
                at as int,
                dependency_models(values@),
            ),
        decreases tokens.len() - at,
    {
        if at >= tokens.len() || has_semicolon(tokens, at) {
            return Ok((values, at));
        }
        let dependency = match read_name(tokens, at) {
            None => {
                return Err(SyntaxError::of("expected identifier"));
            },
            Some(dependency) => dependency,
        };
        if is_declared(&values, dependency.as_str()) {
            return Err(SyntaxError::of("duplicate dependency name"));
        }
        let given = has_equals(tokens, at + 1);
        let next: usize = if given {
            at + 2
        } else {
            at + 1
        };
        let text = if given {
            match read_value(tokens, next) {
                None => {
                    return Err(SyntaxError::of("expected an expression"));
                },
                Some(text) => text,
            }
        } else {
            dependency.clone()
        };
        let end: usize = if given {
            next + 1
        } else {
            next
        };
        let ghost before = dependency_models(values@);
        let ghost pair = (dependency@, text@);
        values.push(Dependency { name: dependency.clone(), value: text });
        assert(dependency_models(values@) =~= before.push(pair));
        if end >= tokens.len() || has_semicolon(tokens, end) {
            return Ok((values, end));
        }
        if !has_comma(tokens, end) {
            return Err(SyntaxError::of("expected `,`"));
        }
        at = end + 1;
    }
}

impl CollectArguments {
    pub fn parse(tokens: &[ArgToken]) -> (outcome: Result<Self, SyntaxError>)
        ensures
            collect_outcome(outcome) == collect_arguments(token_models(tokens@)),
    {
        let (dependencies, at) = match read_values(tokens) {
            Err(error) => {
                return Err(error);
            },
            Ok(read) => read,
        };
        if at >= tokens.len() {
            let mut segments: Vec<String> = Vec::new();
            segments.push("http_apis".to_owned());
            assert(string_texts(segments@) =~= seq!["http_apis"@]);
            return Ok(
                CollectArguments {
                    dependencies,
                    registry: group_path(PathSyntax { leading_colon: false, segments }),
                },
            );
        }
        let key = match read_name(tokens, at + 1) {
            None => {
                return Err(SyntaxError::of("expected identifier"));
            },
            Some(key) => key.as_str(),
        };
        if !same_text(key, "group") {
            return Err(SyntaxError::of("expected group = path"));
        }
        if !has_equals(tokens, at + 2) {
            return Err(SyntaxError::of("expected `=`"));
        }
        let group = match read_path(tokens, at + 3) {
            None => {
                return Err(SyntaxError::of("expected a path"));
            },
            Some(group) => group,
        };
        let end: usize = if has_comma(tokens, at + 4) {
            at + 5
        } else {
            at + 4
        };
        if end < tokens.len() {
            return Err(SyntaxError::of("unexpected token"));
        }
        Ok(CollectArguments { dependencies, registry: group_path(group) })
    }
}


/// The names of what is generated for a registry.
#[derive(Debug)]
pub struct RegistryNames {
    pub module: String,
    /// The type that holds the dependencies.
    pub state: String,
    /// The alias of the authenticator.
    pub auth: String,
}

pub fn registry_names(group: &str) -> (names: RegistryNames)
    ensures
        names.module@ == module_name(group@),
        names.state@ == "__HttpDependencies_"@ + unraw(group@),
        names.auth@ == "__HttpRegistryAuth_"@ + unraw(group@),
{
    RegistryNames {
        module: registry_module(group),
        state: "__HttpDependencies_".to_owned().concat(unraw_name(group)),
        auth: "__HttpRegistryAuth_".to_owned().concat(unraw_name(group)),
    }
}

/// How the server's crate is known to the one that a macro is used in.
#[derive(Debug)]
pub enum FoundCrate {
    Itself,
    /// Under this package name.
    Named(String),
    Missing,
}

/// A package name as an identifier.
pub open spec fn crate_ident(name: Seq<char>) -> Seq<char> {
    name.map_values(
        |c: char|
            if c == '-' {
                '_'
            } else {
                c
            },
    )
}

/// The path of the server's crate.
pub open spec fn crate_path(found: FoundCrate) -> Seq<char> {
    match found {
        FoundCrate::Itself => "crate"@,
        FoundCrate::Named(name) => "::"@ + crate_ident(name@),
        FoundCrate::Missing => "::http_server"@,
    }
}

pub fn server_crate_path(found: &FoundCrate) -> (path: String)
    ensures
        path@ == crate_path(*found),
{
    match found {
        FoundCrate::Itself => "crate".to_owned(),
        FoundCrate::Missing => "::http_server".to_owned(),
        FoundCrate::Named(name) => {
            let mut path = "::".to_owned();
            let ghost start = path@;
            assert(path@ =~= start + crate_ident(name@).take(0));
            for c in iter: name.as_str().chars()
                invariant
                    iter.seq() == name@,
                    path@ == start + crate_ident(name@).take(iter.index() as int),
            {
                let ghost before = path@;
                push_char(
                    &mut path,
                    if c == '-' {
                        '_'
                    } else {
                        c
                    },
                );
                assert(path@ =~= start + crate_ident(name@).take(iter.index() + 1));
            }
            assert(crate_ident(name@).take(name@.len() as int) =~= crate_ident(name@));
            path
        },
    }
}

} // verus!
