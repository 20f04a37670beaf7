//! The arguments of route annotations and registry declarations.
use vstd::prelude::*;
use vstd::string::StringSliceAdditionalSpecFns;
use vstd::utf8::*;

use crate::macros::paths::{normalize_prefix, validate_prefix};
#[allow(unused_imports)]
use crate::macros::paths::{normalized_prefix, prefix_fault};
use crate::macros::SyntaxError;
#[allow(unused_imports)]
use crate::registry::at_most;
use crate::registry::name_at_most;
use crate::text::{glue_strings, same_text};
#[allow(unused_imports)]
use crate::text::{glued, string_texts};

verus! {

/// A path without generic arguments.
#[derive(Debug)]
pub struct PathSyntax {
    /// Whether it starts with `::`.
    pub leading_colon: bool,
    pub segments: Vec<String>,
}

/// What a [`PathSyntax`] says.
#[verifier::ext_equal]
pub struct PathModel {
    pub leading_colon: bool,
    pub segments: Seq<Seq<char>>,
}

impl View for PathSyntax {
    type V = PathModel;

    open spec fn view(&self) -> PathModel {
        PathModel { leading_colon: self.leading_colon, segments: string_texts(self.segments@) }
    }
}

/// A part of the arguments of an annotation or a declaration.
#[derive(Debug)]
pub enum ArgToken {
    /// An identifier.
    Name(String),
    /// A string literal, by its value.
    Text(String),
    /// A path of more than an identifier.
    Path(PathSyntax),
    /// Any other type or expression, as it was written.
    Value(String),
    Equals,
    Colon,
    Comma,
    Semicolon,
    /// The start of a group in parentheses.
    Open,
    /// The end of a group in parentheses.
    Close,
    /// Anything else.
    Other,
}

/// What an [`ArgToken`] says.
pub enum TokenModel {
    Name(Seq<char>),
    Text(Seq<char>),
    Path(PathModel),
    Value(Seq<char>),
    Equals,
    Colon,
    Comma,
    Semicolon,
    Open,
    Close,
    Other,
}

impl View for ArgToken {
    type V = TokenModel;

    open spec fn view(&self) -> TokenModel {
        match self {
            ArgToken::Name(name) => TokenModel::Name(name@),
            ArgToken::Text(text) => TokenModel::Text(text@),
            ArgToken::Path(path) => TokenModel::Path(path@),
            ArgToken::Value(value) => TokenModel::Value(value@),
            ArgToken::Equals => TokenModel::Equals,
            ArgToken::Colon => TokenModel::Colon,
            ArgToken::Comma => TokenModel::Comma,
            ArgToken::Semicolon => TokenModel::Semicolon,
            ArgToken::Open => TokenModel::Open,
            ArgToken::Close => TokenModel::Close,
            ArgToken::Other => TokenModel::Other,
        }
    }
}

pub open spec fn token_models(tokens: Seq<ArgToken>) -> Seq<TokenModel> {
    tokens.map_values(|token: ArgToken| token@)
}

/// The identifier at a position, if there is one.
pub open spec fn name_at(tokens: Seq<TokenModel>, at: int) -> Option<Seq<char>> {
    if 0 <= at < tokens.len() {
        match tokens[at] {
            TokenModel::Name(name) => Some(name),
            _ => None,
        }
    } else {
        None
    }
}

/// The string literal at a position, if there is one.
pub open spec fn text_at(tokens: Seq<TokenModel>, at: int) -> Option<Seq<char>> {
    if 0 <= at < tokens.len() {
        match tokens[at] {
            TokenModel::Text(text) => Some(text),
            _ => None,
        }
    } else {
        None
    }
}

/// The path at a position, if there is one.
pub open spec fn path_at(tokens: Seq<TokenModel>, at: int) -> Option<PathModel> {
    if 0 <= at < tokens.len() {
        match tokens[at] {
            TokenModel::Name(name) => Some(
                PathModel { leading_colon: false, segments: seq![name] },
            ),
            TokenModel::Path(path) => if path.segments.len() > 0 {
                Some(path)
            } else {
                None
            },
            _ => None,
        }
    } else {
        None
    }
}

/// A path as it is written.
pub open spec fn path_text(path: PathModel) -> Seq<char> {
    if path.leading_colon {
        "::"@ + glued(path.segments, "::"@)
    } else {
        glued(path.segments, "::"@)
    }
}

/// The type or expression at a position, as it is written.
pub open spec fn value_at(tokens: Seq<TokenModel>, at: int) -> Option<Seq<char>> {
    if 0 <= at < tokens.len() {
        match tokens[at] {
            TokenModel::Name(name) => Some(name),
            TokenModel::Path(path) => Some(path_text(path)),
            TokenModel::Value(value) => Some(value),
            _ => None,
        }
    } else {
        None
    }
}

/// Whether this token stands at a position.
pub open spec fn is_at(tokens: Seq<TokenModel>, at: int, token: TokenModel) -> bool {
    0 <= at < tokens.len() && tokens[at] == token
}

pub open spec fn text_model(text: Option<&String>) -> Option<Seq<char>> {
    match text {
        Some(text) => Some(text@),
        None => None,
    }
}

pub(crate) fn read_name<'a>(tokens: &'a [ArgToken], at: usize) -> (found: Option<&'a String>)
    ensures
        text_model(found) == name_at(token_models(tokens@), at as int),
        found is Some ==> at < tokens.len(),
{
    if at < tokens.len() {
        if let ArgToken::Name(name) = &tokens[at] {
            return Some(name);
        }
    }
    None
}

pub(crate) fn read_text<'a>(tokens: &'a [ArgToken], at: usize) -> (found: Option<&'a String>)
    ensures
        text_model(found) == text_at(token_models(tokens@), at as int),
        found is Some ==> at < tokens.len(),
{
    if at < tokens.len() {
        if let ArgToken::Text(text) = &tokens[at] {
            return Some(text);
        }
    }
    None
}

pub open spec fn path_model(path: Option<PathSyntax>) -> Option<PathModel> {
    match path {
        Some(path) => Some(path@),
        None => None,
    }
}

/// Copies texts.
pub fn copied(texts: &Vec<String>) -> (copies: Vec<String>)
    ensures
        string_texts(copies@) == string_texts(texts@),
{
    let mut copies: Vec<String> = Vec::new();
    let mut i: usize = 0;
    while i < texts.len()
        invariant
            0 <= i <= texts@.len(),
            string_texts(copies@) == string_texts(texts@).take(i as int),
        decreases texts@.len() - i,
    {
        let ghost before = copies@;
        copies.push(texts[i].clone());
        i += 1;
        assert(string_texts(copies@) =~= string_texts(before).push(texts@[i - 1]@));
        assert(string_texts(copies@) =~= string_texts(texts@).take(i as int));
    }
    assert(string_texts(texts@).take(i as int) =~= string_texts(texts@));
    copies
}

pub(crate) fn read_path(tokens: &[ArgToken], at: usize) -> (found: Option<PathSyntax>)
    ensures
        path_model(found) == path_at(token_models(tokens@), at as int),
        found is Some ==> at < tokens.len(),
        found matches Some(path) ==> path@.segments.len() > 0,
{
    if at < tokens.len() {
        match &tokens[at] {
            ArgToken::Name(name) => {
                let mut segments: Vec<String> = Vec::new();
                segments.push(name.clone());
                assert(string_texts(segments@) =~= seq![name@]);
                return Some(PathSyntax { leading_colon: false, segments });
            },
            ArgToken::Path(path) if path.segments.len() > 0 => {
                return Some(
                    PathSyntax {
                        leading_colon: path.leading_colon,
                        segments: copied(&path.segments),
                    },
                );
            },
            _ => {},
        }
    }
    None
}

impl PathSyntax {
    /// The path as it is written.
    pub fn to_text(&self) -> (text: String)
        ensures
            text@ == path_text(self@),
    {
        let joined = glue_strings(&self.segments, "::");
        if self.leading_colon {
            "::".to_owned().concat(joined.as_str())
        } else {
            joined
        }
    }
}

pub open spec fn owned_model(text: Option<String>) -> Option<Seq<char>> {
    match text {
        Some(text) => Some(text@),
        None => None,
    }
}

pub(crate) fn read_value(tokens: &[ArgToken], at: usize) -> (found: Option<String>)
    ensures
        owned_model(found) == value_at(token_models(tokens@), at as int),
        found is Some ==> at < tokens.len(),
{
    if at < tokens.len() {
        match &tokens[at] {
            ArgToken::Name(name) => {
                return Some(name.clone());
            },
            ArgToken::Path(path) => {
                return Some(path.to_text());
            },
            ArgToken::Value(value) => {
                return Some(value.clone());
            },
            _ => {},
        }
    }
    None
}

pub(crate) fn has_equals(tokens: &[ArgToken], at: usize) -> (found: bool)
    ensures
        found == is_at(token_models(tokens@), at as int, TokenModel::Equals),
{
    at < tokens.len() && matches!(&tokens[at], ArgToken::Equals)
}

pub(crate) fn has_colon(tokens: &[ArgToken], at: usize) -> (found: bool)
    ensures
        found == is_at(token_models(tokens@), at as int, TokenModel::Colon),
{
    at < tokens.len() && matches!(&tokens[at], ArgToken::Colon)
}

pub(crate) fn has_comma(tokens: &[ArgToken], at: usize) -> (found: bool)
    ensures
        found == is_at(token_models(tokens@), at as int, TokenModel::Comma),
{
    at < tokens.len() && matches!(&tokens[at], ArgToken::Comma)
}

pub(crate) fn has_semicolon(tokens: &[ArgToken], at: usize) -> (found: bool)
    ensures
        found == is_at(token_models(tokens@), at as int, TokenModel::Semicolon),
{
    at < tokens.len() && matches!(&tokens[at], ArgToken::Semicolon)
}

pub(crate) fn has_open(tokens: &[ArgToken], at: usize) -> (found: bool)
    ensures
        found == is_at(token_models(tokens@), at as int, TokenModel::Open),
{
    at < tokens.len() && matches!(&tokens[at], ArgToken::Open)
}

pub(crate) fn has_close(tokens: &[ArgToken], at: usize) -> (found: bool)
    ensures
        found == is_at(token_models(tokens@), at as int, TokenModel::Close),
{
    at < tokens.len() && matches!(&tokens[at], ArgToken::Close)
}

/// How bodies are read or written.
#[derive(Clone, Copy, Debug, PartialEq, Eq, Structural)]
pub enum Codec {
    Json,
    Protobuf,
}

/// Whether a caller must say who it is.
#[derive(Clone, Copy, Debug, PartialEq, Eq, Structural)]
pub enum AuthMode {
    Off,
    Optional,
    Required,
}

/// The codec that is named at a position.
pub open spec fn codec_at(tokens: Seq<TokenModel>, at: int) -> Result<Codec, Seq<char>> {
    match name_at(tokens, at) {
        None => Err("expected identifier"@),
        Some(name) => if name == "json"@ {
            Ok(Codec::Json)
        } else if name == "protobuf"@ {
            Ok(Codec::Protobuf)
        } else {
            Err("supported codecs are json and protobuf"@)
        },
    }
}

/// The authentication that is named at a position.
pub open spec fn auth_at(tokens: Seq<TokenModel>, at: int) -> Result<AuthMode, Seq<char>> {
    match name_at(tokens, at) {
        None => Err("expected identifier"@),
        Some(name) => if name == "none"@ {
            Ok(AuthMode::Off)
        } else if name == "optional"@ {
            Ok(AuthMode::Optional)
        } else if name == "required"@ {
            Ok(AuthMode::Required)
        } else {
            Err("supported auth modes are none, optional, and required"@)
        },
    }
}

/// An outcome over the message of its error.
pub open spec fn or_message<T>(outcome: Result<T, SyntaxError>) -> Result<T, Seq<char>> {
    match outcome {
        Ok(value) => Ok(value),
        Err(error) => Err(error@),
    }
}

pub fn parse_codec(tokens: &[ArgToken], at: usize) -> (codec: Result<Codec, SyntaxError>)
    ensures
        or_message(codec) == codec_at(token_models(tokens@), at as int),
        codec is Ok ==> at < tokens.len(),
{
    match read_name(tokens, at) {
        None => Err(SyntaxError::of("expected identifier")),
        Some(name) => {
            if same_text(name.as_str(), "json") {
                Ok(Codec::Json)
            } else if same_text(name.as_str(), "protobuf") {
                Ok(Codec::Protobuf)
            } else {
                Err(SyntaxError::of("supported codecs are json and protobuf"))
            }
        },
    }
}

pub fn parse_auth_mode(tokens: &[ArgToken], at: usize) -> (mode: Result<AuthMode, SyntaxError>)
    ensures
        or_message(mode) == auth_at(token_models(tokens@), at as int),
        mode is Ok ==> at < tokens.len(),
{
    match read_name(tokens, at) {
        None => Err(SyntaxError::of("expected identifier")),
        Some(name) => {
            if same_text(name.as_str(), "none") {
                Ok(AuthMode::Off)
            } else if same_text(name.as_str(), "optional") {
                Ok(AuthMode::Optional)
            } else if same_text(name.as_str(), "required") {
                Ok(AuthMode::Required)
            } else {
                Err(SyntaxError::of("supported auth modes are none, optional, and required"))
            }
        },
    }
}

/// The truth value at a position, or why there is none.
pub open spec fn flag_at(tokens: Seq<TokenModel>, at: int) -> Result<bool, Seq<char>> {
    match name_at(tokens, at) {
        Some(name) if name == "true"@ => Ok(true),
        Some(name) if name == "false"@ => Ok(false),
        _ => Err("expected boolean literal"@),
    }
}

/// Reads a truth value.
fn parse_flag(tokens: &[ArgToken], at: usize) -> (flag: Result<bool, SyntaxError>)
    ensures
        or_message(flag) == flag_at(token_models(tokens@), at as int),
        flag is Ok ==> at < tokens.len(),
{
    proof {
        reveal_strlit("true");
        reveal_strlit("false");
        assert("true"@[0] != "false"@[0]);
    }
    match read_name(tokens, at) {
        Some(name) if same_text(name.as_str(), "true") => Ok(true),
        Some(name) if same_text(name.as_str(), "false") => Ok(false),
        _ => Err(SyntaxError::of("expected boolean literal")),
    }
}

/// The options of a group of methods.
#[derive(Debug)]
pub struct ApiArguments {
    pub prefix: String,
    pub consumes: Codec,
    pub produces: Codec,
    pub auth: AuthMode,
    /// Whether the methods are enrolled in a registry.
    pub register: bool,
}

/// What [`ApiArguments`] say.
#[verifier::ext_equal]
pub struct ApiModel {
    pub prefix: Seq<char>,
    pub consumes: Codec,
    pub produces: Codec,
    pub auth: AuthMode,
    pub register: bool,
}

impl View for ApiArguments {
    type V = ApiModel;

    open spec fn view(&self) -> ApiModel {
        ApiModel {
            prefix: self.prefix@,
            consumes: self.consumes,
            produces: self.produces,
            auth: self.auth,
            register: self.register,
        }
    }
}

/// The options behind the one `name = value` at a position.
pub open spec fn api_option(tokens: Seq<TokenModel>, at: int, options: ApiModel) -> Result<
    ApiModel,
    Seq<char>,
> {
    match name_at(tokens, at) {
        None => Err("expected identifier"@),
        Some(name) => if !is_at(tokens, at + 1, TokenModel::Equals) {
            Err("expected `=`"@)
        } else if name == "prefix"@ {
            match text_at(tokens, at + 2) {
                Some(prefix) => Ok(ApiModel { prefix, ..options }),
                None => Err("expected string literal"@),
            }
        } else if name == "consumes"@ {
            match codec_at(tokens, at + 2) {
                Ok(consumes) => Ok(ApiModel { consumes, ..options }),
                Err(message) => Err(message),
            }
        } else if name == "produces"@ {
            match codec_at(tokens, at + 2) {
                Ok(produces) => Ok(ApiModel { produces, ..options }),
                Err(message) => Err(message),
            }
        } else if name == "auth"@ {
            match auth_at(tokens, at + 2) {
                Ok(auth) => Ok(ApiModel { auth, ..options }),
                Err(message) => Err(message),
            }
        } else if name == "register"@ {
            match flag_at(tokens, at + 2) {
                Ok(register) => Ok(ApiModel { register, ..options }),
                Err(message) => Err(message),
            }
        } else {
            Err("supported api options are prefix, consumes, produces, auth, and register"@)
        },
    }
}

/// The options behind those from a position on, which commas divide; a later
/// one replaces an earlier one of its name.
pub open spec fn api_options(tokens: Seq<TokenModel>, at: int, options: ApiModel) -> Result<
    ApiModel,
    Seq<char>,
>
    decreases tokens.len() - at,
{
    if at >= tokens.len() {
        Ok(options)
    } else {
        match api_option(tokens, at, options) {
            Err(message) => Err(message),
            Ok(next) => if at + 3 >= tokens.len() {
                Ok(next)
            } else if tokens[at + 3] is Comma {
                api_options(tokens, at + 4, next)
            } else {
                Err("expected `,`"@)
            },
        }
    }
}

/// The options where none is given.
pub open spec fn api_defaults() -> ApiModel {
    ApiModel {
        prefix: Seq::empty(),
        consumes: Codec::Json,
        produces: Codec::Json,
        auth: AuthMode::Off,
        register: true,
    }
}

/// What the arguments of a group of methods say.
pub open spec fn api_arguments(tokens: Seq<TokenModel>) -> Result<ApiModel, Seq<char>> {
    match api_options(tokens, 0, api_defaults()) {
        Err(message) => Err(message),
        Ok(options) => match prefix_fault(options.prefix) {
            Err(message) => Err(message),
            Ok(()) => Ok(ApiModel { prefix: normalized_prefix(options.prefix), ..options }),
        },
    }
}

pub open spec fn api_outcome(outcome: Result<ApiArguments, SyntaxError>) -> Result<
    ApiModel,
    Seq<char>,
> {
    match outcome {
        Ok(arguments) => Ok(arguments@),
        Err(error) => Err(error@),
    }
}

impl ApiArguments {
    /// Reads one option.
    fn set(&mut self, tokens: &[ArgToken], at: usize) -> (outcome: Result<(), SyntaxError>)
        requires
            at < tokens.len(),
        ensures
            match outcome {
                Ok(()) => api_option(token_models(tokens@), at as int, old(self)@) == Ok::<
                    ApiModel,
                    Seq<char>,
                >(final(self)@) && at + 2 < tokens.len(),
                Err(error) => api_option(token_models(tokens@), at as int, old(self)@) == Err::<
                    ApiModel,
                    Seq<char>,
                >(error@),
            },
    {
        let option = match read_name(tokens, at) {
            None => {
                return Err(SyntaxError::of("expected identifier"));
            },
            Some(option) => option.as_str(),
        };
        if !has_equals(tokens, at + 1) {
            return Err(SyntaxError::of("expected `=`"));
        }
        if same_text(option, "prefix") {
            match read_text(tokens, at + 2) {
                None => {
                    return Err(SyntaxError::of("expected string literal"));
                },
                Some(prefix) => {
                    self.prefix = prefix.clone();
                },
            }
        } else if same_text(option, "consumes") {
            match parse_codec(tokens, at + 2) {
                Err(error) => {
                    return Err(error);
                },
                Ok(consumes) => {
                    self.consumes = consumes;
                },
            }
        } else if same_text(option, "produces") {
            match parse_codec(tokens, at + 2) {
                Err(error) => {
                    return Err(error);
                },
                Ok(produces) => {
                    self.produces = produces;
                },
            }
        } else if same_text(option, "auth") {
            match parse_auth_mode(tokens, at + 2) {
                Err(error) => {
                    return Err(error);
                },
                Ok(auth) => {
                    self.auth = auth;
                },
            }
        } else if same_text(option, "register") {
            match parse_flag(tokens, at + 2) {
                Err(error) => {
                    return Err(error);
                },
                Ok(register) => {
                    self.register = register;
                },
            }
        } else {
            return Err(
                SyntaxError::of("supported api options are prefix, consumes, produces, auth, and register"),
            );
        }
        Ok(())
    }

    pub fn parse(tokens: &[ArgToken]) -> (outcome: Result<Self, SyntaxError>)
        ensures
            api_outcome(outcome) == api_arguments(token_models(tokens@)),
    {
        let ghost models = token_models(tokens@);
        let mut arguments = ApiArguments {
            prefix: String::new(),
            consumes: Codec::Json,
            produces: Codec::Json,
            auth: AuthMode::Off,
            register: true,
        };
        assert(arguments@ =~= api_defaults());
        let mut at: usize = 0;
        while at < tokens.len()
            invariant
                models == token_models(tokens@),
                at <= tokens.len(),
                api_options(models, 0, api_defaults()) == api_options(
                    models,
                    at as int,
                    arguments@,
                ),
            decreases tokens@.len() - at,
        {
            match arguments.set(tokens, at) {
                Err(error) => {
                    return Err(error);
                },
                Ok(()) => {},
            }
            if at + 3 >= tokens.len() {
                at = tokens.len();
            } else if has_comma(tokens, at + 3) {
                at = at + 4;
            } else {
                return Err(SyntaxError::of("expected `,`"));
            }
        }
        match validate_prefix(arguments.prefix.as_str()) {
            Err(error) => Err(error),
            Ok(()) => {
                let ApiArguments { prefix, consumes, produces, auth, register } = arguments;
                Ok(
                    ApiArguments {
                        prefix: normalize_prefix(prefix),
                        consumes,
                        produces,
                        auth,
                        register,
                    },
                )
            },
        }
    }
}


/// The header that a parameter is read from.
#[derive(Debug)]
pub struct HeaderBinding {
    pub parameter: String,
    pub header: String,
}

impl View for HeaderBinding {
    type V = (Seq<char>, Seq<char>);

    open spec fn view(&self) -> (Seq<char>, Seq<char>) {
        (self.parameter@, self.header@)
    }
}

pub open spec fn binding_models(bindings: Seq<HeaderBinding>) -> Seq<(Seq<char>, Seq<char>)> {
    bindings.map_values(|binding: HeaderBinding| binding@)
}

/// Whether one of the pairs has this name.
pub open spec fn names_pair(pairs: Seq<(Seq<char>, Seq<char>)>, name: Seq<char>) -> bool {
    exists|i: int| 0 <= i < pairs.len() && (#[trigger] pairs[i]).0 == name
}

/// Pairs that are ordered by name, with one more among them.
pub open spec fn with_pair(
    pairs: Seq<(Seq<char>, Seq<char>)>,
    pair: (Seq<char>, Seq<char>),
) -> Seq<(Seq<char>, Seq<char>)>
    decreases pairs.len(),
{
    if pairs.len() == 0 || at_most(encode_utf8(pairs.last().0), encode_utf8(pair.0)) {
        pairs.push(pair)
    } else {
        with_pair(pairs.drop_last(), pair).push(pairs.last())
    }
}

/// The header of a parameter, if it is bound to one.
pub fn bound_header<'a>(bindings: &'a Vec<HeaderBinding>, parameter: &str) -> (found: Option<
    &'a String,
>)
    ensures
        match found {
            Some(header) => exists|i: int|
                0 <= i < bindings@.len() && (#[trigger] bindings@[i])@ == (parameter@, header@)
                    && forall|j: int| 0 <= j < i ==> (#[trigger] bindings@[j])@.0 != parameter@,
            None => !names_pair(binding_models(bindings@), parameter@),
        },
{
    let mut i: usize = 0;
    while i < bindings.len()
        invariant
            0 <= i <= bindings@.len(),
            forall|j: int| 0 <= j < i ==> (#[trigger] bindings@[j])@.0 != parameter@,
        decreases bindings@.len() - i,
    {
        if same_text(bindings[i].parameter.as_str(), parameter) {
            assert(bindings@[i as int]@ == (parameter@, bindings@[i as int].header@));
            return Some(&bindings[i].header);
        }
        i += 1;
    }
    assert forall|j: int| 0 <= j < bindings@.len() implies (#[trigger] binding_models(
        bindings@,
    )[j]).0 != parameter@ by {
        assert(bindings@[j]@.0 != parameter@);
    }
    None
}

/// Adds a binding to those that are ordered by parameter.
fn add_binding(bindings: &mut Vec<HeaderBinding>, binding: HeaderBinding)
    ensures
        binding_models(final(bindings)@) == with_pair(binding_models(old(bindings)@), binding@),
{
    let ghost all = binding_models(bindings@);
    let ghost pair = binding@;
    let mut at: usize = bindings.len();
    assert(all.take(at as int) =~= all);
    assert(all.skip(at as int) =~= Seq::<(Seq<char>, Seq<char>)>::empty());
    assert(with_pair(all, pair) =~= with_pair(all.take(at as int), pair) + all.skip(at as int));
    while at > 0 && !name_at_most(bindings[at - 1].parameter.as_str(), binding.parameter.as_str())
        invariant
            0 <= at <= bindings@.len(),
            all == binding_models(bindings@),
            pair == binding@,
            with_pair(all, pair) == with_pair(all.take(at as int), pair) + all.skip(at as int),
        decreases at,
    {
        proof {
            let front = all.take(at as int);
            assert(front.last() == bindings@[at - 1]@);
            assert(front.drop_last() =~= all.take(at - 1));
            assert(with_pair(all.take(at - 1), pair).push(front.last()) + all.skip(at as int)
                =~= with_pair(all.take(at - 1), pair) + all.skip(at - 1));
        }
        at -= 1;
    }
    proof {
        let front = all.take(at as int);
        if at > 0 {
            assert(front.last() == bindings@[at - 1]@);
        }
        assert(with_pair(front, pair) =~= front.push(pair));
    }
    bindings.insert(at, binding);
    assert(binding_models(bindings@) =~= all.take(at as int).push(pair) + all.skip(at as int));
}

/// The options of one route.
#[derive(Debug)]
pub struct RouteArguments {
    pub path: String,
    pub consumes: Option<Codec>,
    pub produces: Option<Codec>,
    pub auth: Option<AuthMode>,
    pub group: Option<PathSyntax>,
    /// Whether its requests are written to the API log.
    pub api_log: bool,
    /// Ordered by parameter.
    pub headers: Vec<HeaderBinding>,
}

/// What [`RouteArguments`] say.
#[verifier::ext_equal]
pub struct RouteModel {
    pub path: Seq<char>,
    pub consumes: Option<Codec>,
    pub produces: Option<Codec>,
    pub auth: Option<AuthMode>,
    pub group: Option<PathModel>,
    pub api_log: bool,
    pub headers: Seq<(Seq<char>, Seq<char>)>,
}

impl View for RouteArguments {
    type V = RouteModel;

    open spec fn view(&self) -> RouteModel {
        RouteModel {
            path: self.path@,
            consumes: self.consumes,
            produces: self.produces,
            auth: self.auth,
            group: path_model(self.group),
            api_log: self.api_log,
            headers: binding_models(self.headers@),
        }
    }
}

/// The bindings of a `headers(...)` group from a position on, and where the
/// options go on behind it.
pub open spec fn header_bindings(
    tokens: Seq<TokenModel>,
    at: int,
    headers: Seq<(Seq<char>, Seq<char>)>,
) -> Result<(Seq<(Seq<char>, Seq<char>)>, int), Seq<char>>
    decreases tokens.len() - at,
{
    if is_at(tokens, at, TokenModel::Close) {
        Ok((headers, at + 1))
    } else {
        match (name_at(tokens, at), text_at(tokens, at + 2)) {
            (None, _) => Err("expected identifier"@),
            (Some(name), header) => if !is_at(tokens, at + 1, TokenModel::Equals) {
                Err("expected `=`"@)
            } else {
                match header {
                    None => Err("expected string literal"@),
                    Some(header) => if names_pair(headers, name) {
                        Err("a parameter may only bind one HTTP header"@)
                    } else if is_at(tokens, at + 3, TokenModel::Close) {
                        Ok((with_pair(headers, (name, header)), at + 4))
                    } else if is_at(tokens, at + 3, TokenModel::Comma) {
                        header_bindings(tokens, at + 4, with_pair(headers, (name, header)))
                    } else {
                        Err("expected `,`"@)
                    },
                }
            },
        }
    }
}

pub proof fn lemma_bindings_advance(
    tokens: Seq<TokenModel>,
    at: int,
    headers: Seq<(Seq<char>, Seq<char>)>,
)
    requires
        0 <= at,
    ensures
        header_bindings(tokens, at, headers) matches Ok((_, next)) ==> at < next <= tokens.len(),
    decreases tokens.len() - at,
{
    match (name_at(tokens, at), text_at(tokens, at + 2)) {
        (Some(name), Some(header)) => {
            if is_at(tokens, at + 3, TokenModel::Comma) {
                lemma_bindings_advance(tokens, at + 4, with_pair(headers, (name, header)));
            }
        },
        _ => {},
    }
}

/// The options behind those from a position on. A later one replaces an
/// earlier one of its name.
pub open spec fn route_options(tokens: Seq<TokenModel>, at: int, route: RouteModel) -> Result<
    RouteModel,
    Seq<char>,
>
    decreases tokens.len() - at,
    when 0 <= at
{
    if at >= tokens.len() {
        Ok(route)
    } else if !is_at(tokens, at, TokenModel::Comma) {
        Err("expected `,`"@)
    } else {
        match name_at(tokens, at + 1) {
            None => Err("expected identifier"@),
            Some(name) => if name == "headers"@ {
                if !is_at(tokens, at + 2, TokenModel::Open) {
                    Err("expected parentheses"@)
                } else {
                    proof {
                        lemma_bindings_advance(tokens, at + 3, route.headers);
                    }
                    match header_bindings(tokens, at + 3, route.headers) {
                        Err(message) => Err(message),
                        Ok((headers, next)) => route_options(
                            tokens,
                            next,
                            RouteModel { headers, ..route },
                        ),
                    }
                }
            } else if !is_at(tokens, at + 2, TokenModel::Equals) {
                Err("expected `=`"@)
            } else if name == "consumes"@ {
                match codec_at(tokens, at + 3) {
                    Err(message) => Err(message),
                    Ok(codec) => route_options(
                        tokens,
                        at + 4,
                        RouteModel { consumes: Some(codec), ..route },
                    ),
                }
            } else if name == "produces"@ {
                match codec_at(tokens, at + 3) {
                    Err(message) => Err(message),
                    Ok(codec) => route_options(
                        tokens,
                        at + 4,
                        RouteModel { produces: Some(codec), ..route },
                    ),
                }
            } else if name == "auth"@ {
                match auth_at(tokens, at + 3) {
                    Err(message) => Err(message),
                    Ok(auth) => route_options(
                        tokens,
                        at + 4,
                        RouteModel { auth: Some(auth), ..route },
                    ),
                }
            } else if name == "access"@ {
                match name_at(tokens, at + 3) {
                    None => Err("expected identifier"@),
                    Some(access) => if access == "public"@ {
                        route_options(tokens, at + 4, route)
                    } else {
                        Err("the only supported access is public"@)
                    },
                }
            } else if name == "group"@ {
                match path_at(tokens, at + 3) {
                    None => Err("expected a path"@),
                    Some(group) => route_options(
                        tokens,
                        at + 4,
                        RouteModel { group: Some(group), ..route },
                    ),
                }
            } else if name == "api_log"@ {
                match flag_at(tokens, at + 3) {
                    Err(message) => Err(message),
                    Ok(api_log) => route_options(tokens, at + 4, RouteModel { api_log, ..route }),
                }
            } else {
                Err(
                    "supported route options are consumes, produces, auth, group, api_log, and headers(...)"@,
                )
            },
        }
    }
}

/// A route of which only the template is given.
pub open spec fn plain_route(path: Seq<char>) -> RouteModel {
    RouteModel {
        path,
        consumes: None,
        produces: None,
        auth: None,
        group: None,
        api_log: true,
        headers: Seq::empty(),
    }
}

/// What the arguments of a route say.
pub open spec fn route_arguments(tokens: Seq<TokenModel>) -> Result<RouteModel, Seq<char>> {
    match text_at(tokens, 0) {
        None => Err("expected string literal"@),
        Some(path) => route_options(tokens, 1, plain_route(path)),
    }
}

pub open spec fn route_outcome(outcome: Result<RouteArguments, SyntaxError>) -> Result<
    RouteModel,
    Seq<char>,
> {
    match outcome {
        Ok(arguments) => Ok(arguments@),
        Err(error) => Err(error@),
    }
}

fn read_bindings(tokens: &[ArgToken], start: usize, headers: &mut Vec<HeaderBinding>) -> (outcome:
    Result<usize, SyntaxError>)
    ensures
        match outcome {
            Ok(next) => header_bindings(
                token_models(tokens@),
                start as int,
                binding_models(old(headers)@),
            ) == Ok::<(Seq<(Seq<char>, Seq<char>)>, int), Seq<char>>(
                (binding_models(final(headers)@), next as int),
            ) && next <= tokens.len() && next > start,
            Err(error) => header_bindings(
                token_models(tokens@),
                start as int,
                binding_models(old(headers)@),
            ) == Err::<(Seq<(Seq<char>, Seq<char>)>, int), Seq<char>>(error@),
        },
{
    let ghost models = token_models(tokens@);
    let ghost before = binding_models(headers@);
    let mut at: usize = start;
    loop
        invariant
            models == token_models(tokens@),
            before == binding_models(old(headers)@),
            start <= at,
            at == start || at <= tokens.len(),
            header_bindings(models, start as int, before) == header_bindings(
                models,
                at as int,
                binding_models(headers@),
            ),
        decreases tokens.len() - at,
    {
        if has_close(tokens, at) {
            return Ok(at + 1);
        }
        let parameter = match read_name(tokens, at) {
            None => {
                return Err(SyntaxError::of("expected identifier"));
            },
            Some(parameter) => parameter,
        };
        if !has_equals(tokens, at + 1) {
            return Err(SyntaxError::of("expected `=`"));
        }
        let header = match read_text(tokens, at + 2) {
            None => {
                return Err(SyntaxError::of("expected string literal"));
            },
            Some(header) => header,
        };
        if let Some(_) = bound_header(headers, parameter.as_str()) {
            assert(names_pair(binding_models(headers@), parameter@)) by {
                let i = choose|i: int|
                    0 <= i < headers@.len() && (#[trigger] headers@[i])@.0 == parameter@;
                assert(binding_models(headers@)[i] == headers@[i]@);
            }
            return Err(SyntaxError::of("a parameter may only bind one HTTP header"));
        }
        add_binding(headers, HeaderBinding { parameter: parameter.clone(), header: header.clone() });
        if has_close(tokens, at + 3) {
            return Ok(at + 4);
        }
        if !has_comma(tokens, at + 3) {
            return Err(SyntaxError::of("expected `,`"));
        }
        at = at + 4;
    }
}

impl RouteArguments {
    pub fn parse(tokens: &[ArgToken]) -> (outcome: Result<Self, SyntaxError>)
        ensures
            route_outcome(outcome) == route_arguments(token_models(tokens@)),
            outcome matches Ok(route) ==> (route.group is Some
                ==> route.group->Some_0@.segments.len() > 0),
    {
        let ghost models = token_models(tokens@);
        let mut route = match read_text(tokens, 0) {
            None => {
                return Err(SyntaxError::of("expected string literal"));
            },
            Some(path) => RouteArguments {
                path: path.clone(),
                consumes: None,
                produces: None,
                auth: None,
                group: None,
                api_log: true,
                headers: Vec::new(),
            },
        };
        let ghost plain = plain_route(text_at(models, 0)->Some_0);
        assert(route@ =~= plain);
        let mut at: usize = 1;
        while at < tokens.len()
            invariant
                models == token_models(tokens@),
                plain == plain_route(text_at(models, 0)->Some_0),
                text_at(models, 0) is Some,
                0 <= at <= tokens.len(),
                route.group is Some ==> route.group->Some_0@.segments.len() > 0,
                route_options(models, 1, plain) == route_options(models, at as int, route@),
            decreases tokens.len() - at,
        {
            if !has_comma(tokens, at) {
                return Err(SyntaxError::of("expected `,`"));
            }
            let option = match read_name(tokens, at + 1) {
                None => {
                    return Err(SyntaxError::of("expected identifier"));
                },
                Some(option) => option.as_str(),
            };
            if same_text(option, "headers") {
                if !has_open(tokens, at + 2) {
                    return Err(SyntaxError::of("expected parentheses"));
                }
                match read_bindings(tokens, at + 3, &mut route.headers) {
                    Err(error) => {
                        return Err(error);
                    },
                    Ok(next) => {
                        at = next;
                    },
                }
            } else {
                if !has_equals(tokens, at + 2) {
                    return Err(SyntaxError::of("expected `=`"));
                }
                if same_text(option, "consumes") {
                    match parse_codec(tokens, at + 3) {
                        Err(error) => {
                            return Err(error);
                        },
                        Ok(codec) => {
                            route.consumes = Some(codec);
                        },
                    }
                } else if same_text(option, "produces") {
                    match parse_codec(tokens, at + 3) {
                        Err(error) => {
                            return Err(error);
                        },
                        Ok(codec) => {
                            route.produces = Some(codec);
                        },
                    }
                } else if same_text(option, "auth") {
                    match parse_auth_mode(tokens, at + 3) {
                        Err(error) => {
                            return Err(error);
                        },
                        Ok(auth) => {
                            route.auth = Some(auth);
                        },
                    }
                } else if same_text(option, "access") {
                    match read_name(tokens, at + 3) {
                        None => {
                            return Err(SyntaxError::of("expected identifier"));
                        },
                        Some(access) => {
                            if !same_text(access.as_str(), "public") {
                                return Err(SyntaxError::of("the only supported access is public"));
                            }
                        },
                    }
                } else if same_text(option, "group") {
                    match read_path(tokens, at + 3) {
                        None => {
                            return Err(SyntaxError::of("expected a path"));
                        },
                        Some(group) => {
                            route.group = Some(group);
                        },
                    }
                } else if same_text(option, "api_log") {
                    match parse_flag(tokens, at + 3) {
                        Err(error) => {
                            return Err(error);
                        },
                        Ok(api_log) => {
                            route.api_log = api_log;
                        },
                    }
                } else {
                    return Err(
                        SyntaxError::of(
                            "supported route options are consumes, produces, auth, group, api_log, and headers(...)",
                        ),
                    );
                }
                at = at + 4;
            }
        }
        Ok(route)
    }
}

} // verus!
