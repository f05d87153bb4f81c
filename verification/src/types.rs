use vstd::prelude::*;

verus! {

/// Default path-segment separator.
pub const DEFAULT_DELIMITER: char = '/';

/// Matching options consumed by the tokenizer, the pattern compiler and the
/// matcher.
///
/// An empty `whitelist` means that no character qualifies as a parameter
/// prefix; only when the whitelist is non-empty is the character immediately
/// preceding a parameter marker eligible to be absorbed as its prefix.
pub struct Options {
    pub delimiter: char,
    pub whitelist: Vec<String>,
    pub strict: bool,
    pub sensitive: bool,
    pub end: bool,
    pub start: bool,
    pub ends_with: Vec<String>,
}

/// Mathematical model of `Options`.
pub struct OptionsModel {
    pub delimiter: char,
    pub whitelist: Seq<Seq<char>>,
    pub strict: bool,
    pub sensitive: bool,
    pub end: bool,
    pub start: bool,
    pub ends_with: Seq<Seq<char>>,
}

impl View for Options {
    type V = OptionsModel;

    open spec fn view(&self) -> OptionsModel {
        OptionsModel {
            delimiter: self.delimiter,
            whitelist: self.whitelist.deep_view(),
            strict: self.strict,
            sensitive: self.sensitive,
            end: self.end,
            start: self.start,
            ends_with: self.ends_with.deep_view(),
        }
    }
}

pub open spec fn spec_default_options() -> OptionsModel {
    OptionsModel {
        delimiter: DEFAULT_DELIMITER,
        whitelist: Seq::empty(),
        strict: false,
        sensitive: false,
        end: true,
        start: true,
        ends_with: Seq::empty(),
    }
}

impl Default for Options {
    fn default() -> (r: Options)
        ensures
            r@ == spec_default_options(),
    {
        let r = Options {
            delimiter: DEFAULT_DELIMITER,
            whitelist: Vec::new(),
            strict: false,
            sensitive: false,
            end: true,
            start: true,
            ends_with: Vec::new(),
        };
        proof {
            assert(r@.whitelist =~= Seq::<Seq<char>>::empty());
            assert(r@.ends_with =~= Seq::<Seq<char>>::empty());
            assert(r@ =~= spec_default_options());
        }
        r
    }
}

/// A parameter descriptor recovered from a template.
#[derive(Debug, Clone)]
pub struct Token {
    pub name: String,
    pub prefix: String,
    pub delimiter: char,
    pub optional: bool,
    pub repeat: bool,
    pub pattern: String,
}

/// Mathematical model of `Token`.
pub struct TokenModel {
    pub name: Seq<char>,
    pub prefix: Seq<char>,
    pub delimiter: char,
    pub optional: bool,
    pub repeat: bool,
    pub pattern: Seq<char>,
}

impl View for Token {
    type V = TokenModel;

    open spec fn view(&self) -> TokenModel {
        TokenModel {
            name: self.name@,
            prefix: self.prefix@,
            delimiter: self.delimiter,
            optional: self.optional,
            repeat: self.repeat,
            pattern: self.pattern@,
        }
    }
}

/// One named parameter value recovered from a matched input string.
#[derive(Debug)]
pub struct Match {
    pub name: String,
    pub value: String,
}

/// Mathematical model of `Match`.
pub struct MatchModel {
    pub name: Seq<char>,
    pub value: Seq<char>,
}

impl View for Match {
    type V = MatchModel;

    open spec fn view(&self) -> MatchModel {
        MatchModel { name: self.name@, value: self.value@ }
    }
}

/// One segment of a tokenized template: either a literal run of characters
/// (`path` non-empty, `token` absent) or a parameter (`path` empty, `token`
/// present).
#[derive(Debug, Clone)]
pub struct Container {
    pub token: Option<Token>,
    pub path: String,
}

/// Mathematical model of `Container`.
pub struct ContainerModel {
    pub token: Option<TokenModel>,
    pub path: Seq<char>,
}

impl View for Container {
    type V = ContainerModel;

    open spec fn view(&self) -> ContainerModel {
        ContainerModel {
            token: match self.token {
                Some(t) => Some(t@),
                None => None,
            },
            path: self.path@,
        }
    }
}

/// The models of a sequence of containers.
pub open spec fn container_models(s: Seq<Container>) -> Seq<ContainerModel> {
    s.map_values(|c: Container| c@)
}

/// The models of a sequence of matches.
pub open spec fn match_models(s: Seq<Match>) -> Seq<MatchModel> {
    s.map_values(|m: Match| m@)
}

/// A well-formed container is exactly a literal (non-empty text, no token) or
/// a parameter (empty text, a token).
pub open spec fn wf_container(c: ContainerModel) -> bool {
    (c.path.len() > 0 && c.token is None) || (c.path.len() == 0 && c.token is Some)
}

} // verus!
