//! The `Url` value and its parser.

use crate::text::{
    chars_of, find_first, first_occurrence, lemma_first_occurrence_exists,
    lemma_first_occurrence_unique, matches_at, occurs_at, occurs_in,
};
use vstd::prelude::*;
use vstd::string::*;

verus! {

/// The only port this library speaks to.
pub const HTTP_PORT: u16 = 80;

/// `"://"`, which parts the scheme from what follows it.
pub open spec fn scheme_delimiter() -> Seq<char> {
    seq![':', '/', '/']
}

/// `"http"`, the only scheme that is accepted.
pub open spec fn http_scheme() -> Seq<char> {
    seq!['h', 't', 't', 'p']
}

/// `"/"`, which starts the path and is the path where the input gives none.
pub open spec fn path_separator() -> Seq<char> {
    seq!['/']
}

/// What stands left of the first `"://"`.
pub open spec fn scheme_of(input: Seq<char>) -> Seq<char>
    recommends
        occurs_in(input, scheme_delimiter()),
{
    input.subrange(0, first_occurrence(input, scheme_delimiter()))
}

/// What stands right of the first `"://"`.
pub open spec fn remainder_of(input: Seq<char>) -> Seq<char>
    recommends
        occurs_in(input, scheme_delimiter()),
{
    input.subrange(first_occurrence(input, scheme_delimiter()) + 3, input.len() as int)
}

/// The host in a remainder: everything before its first `/`, or all of it.
pub open spec fn host_of(rest: Seq<char>) -> Seq<char> {
    if occurs_in(rest, path_separator()) {
        rest.subrange(0, first_occurrence(rest, path_separator()))
    } else {
        rest
    }
}

/// The path in a remainder: everything from its first `/` on, or `"/"`.
pub open spec fn path_of(rest: Seq<char>) -> Seq<char> {
    if occurs_in(rest, path_separator()) {
        rest.subrange(first_occurrence(rest, path_separator()), rest.len() as int)
    } else {
        path_separator()
    }
}

/// A URL as mathematics: three texts and a port.
pub ghost struct UrlView {
    pub scheme: Seq<char>,
    pub host: Seq<char>,
    pub path: Seq<char>,
    pub port: u16,
}

impl UrlView {
    /// What every `Url` satisfies: the scheme is `http`, the host is not empty
    /// and holds no `/`, the path begins with `/`, and the port is 80.
    pub open spec fn wf(self) -> bool {
        &&& self.scheme == http_scheme()
        &&& self.host.len() > 0
        &&& forall|i: int| 0 <= i < self.host.len() ==> self.host[i] != '/'
        &&& self.path.len() > 0
        &&& self.path[0] == '/'
        &&& self.port == HTTP_PORT
    }

    /// The URL written out again: scheme, `"://"`, host, path.
    pub open spec fn text(self) -> Seq<char> {
        self.scheme + scheme_delimiter() + self.host + self.path
    }
}

/// Why an input is no URL, as mathematics.
pub ghost enum ParseErrorView {
    MissingSchemeDelimiter,
    UnsupportedScheme(Seq<char>),
    EmptyHost,
}

/// What parsing `input` gives: the URL, or the one reason why there is none.
pub open spec fn parse(input: Seq<char>) -> Result<UrlView, ParseErrorView> {
    if !occurs_in(input, scheme_delimiter()) {
        Err(ParseErrorView::MissingSchemeDelimiter)
    } else if scheme_of(input) != http_scheme() {
        Err(ParseErrorView::UnsupportedScheme(scheme_of(input)))
    } else if host_of(remainder_of(input)).len() == 0 {
        Err(ParseErrorView::EmptyHost)
    } else {
        Ok(
            UrlView {
                scheme: scheme_of(input),
                host: host_of(remainder_of(input)),
                path: path_of(remainder_of(input)),
                port: HTTP_PORT,
            },
        )
    }
}

/// Why an input is no URL.
#[derive(Debug)]
pub enum ParseError {
    /// The input holds no `"://"`.
    MissingSchemeDelimiter,
    /// The scheme, carried here as it was written, is not exactly `"http"`.
    UnsupportedScheme(String),
    /// Nothing stands between `"://"` and the first `/` after it.
    EmptyHost,
}

impl View for ParseError {
    type V = ParseErrorView;

    open spec fn view(&self) -> ParseErrorView {
        match self {
            ParseError::MissingSchemeDelimiter => ParseErrorView::MissingSchemeDelimiter,
            ParseError::UnsupportedScheme(scheme) => ParseErrorView::UnsupportedScheme(scheme@),
            ParseError::EmptyHost => ParseErrorView::EmptyHost,
        }
    }
}

/// An absolute `http` URL, taken apart.
#[derive(Debug)]
pub struct Url {
    scheme: String,
    host: String,
    path: String,
    port: u16,
}

impl View for Url {
    type V = UrlView;

    closed spec fn view(&self) -> UrlView {
        UrlView { scheme: self.scheme@, host: self.host@, path: self.path@, port: self.port }
    }
}

impl Clone for Url {
    fn clone(&self) -> (copy: Self)
        ensures
            copy@ == self@,
    {
        proof {
            use_type_invariant(self);
        }
        Url {
            scheme: self.scheme.clone(),
            host: self.host.clone(),
            path: self.path.clone(),
            port: self.port,
        }
    }
}

impl PartialEq for Url {
    fn eq(&self, other: &Self) -> (equal: bool) {
        self.scheme == other.scheme && self.host == other.host && self.path == other.path
            && self.port == other.port
    }
}

impl Eq for Url {

}

impl vstd::std_specs::cmp::PartialEqSpecImpl for Url {
    open spec fn obeys_eq_spec() -> bool {
        true
    }

    open spec fn eq_spec(&self, other: &Self) -> bool {
        self@ == other@
    }
}

impl Clone for ParseError {
    fn clone(&self) -> (copy: Self)
        ensures
            copy@ == self@,
    {
        match self {
            ParseError::MissingSchemeDelimiter => ParseError::MissingSchemeDelimiter,
            ParseError::UnsupportedScheme(scheme) => ParseError::UnsupportedScheme(scheme.clone()),
            ParseError::EmptyHost => ParseError::EmptyHost,
        }
    }
}

impl PartialEq for ParseError {
    fn eq(&self, other: &Self) -> (equal: bool) {
        match self {
            ParseError::MissingSchemeDelimiter => match other {
                ParseError::MissingSchemeDelimiter => true,
                _ => false,
            },
            ParseError::UnsupportedScheme(mine) => match other {
                ParseError::UnsupportedScheme(theirs) => *mine == *theirs,
                _ => false,
            },
            ParseError::EmptyHost => match other {
                ParseError::EmptyHost => true,
                _ => false,
            },
        }
    }
}

impl Eq for ParseError {

}

impl vstd::std_specs::cmp::PartialEqSpecImpl for ParseError {
    open spec fn obeys_eq_spec() -> bool {
        true
    }

    open spec fn eq_spec(&self, other: &Self) -> bool {
        self@ == other@
    }
}

/// A parser's outcome as mathematics.
pub open spec fn outcome_view(outcome: Result<Url, ParseError>) -> Result<UrlView, ParseErrorView> {
    match outcome {
        Ok(url) => Ok(url@),
        Err(error) => Err(error@),
    }
}

impl Url {
    #[verifier::type_invariant]
    spec fn inv(self) -> bool {
        self@.wf()
    }

    /// Parses `url_input`, of the shape `scheme "://" host ["/" path]`.
    ///
    /// The input is cut at its first `"://"` and the remainder at its first
    /// `/`. The outcome is exactly `parse` of the input's characters.
    pub fn new(url_input: &str) -> (outcome: Result<Url, ParseError>)
        ensures
            outcome_view(outcome) == parse(url_input@),
            outcome matches Ok(url) ==> url@.wf(),
            !occurs_in(url_input@, scheme_delimiter()) ==> outcome_view(outcome) == Err::<
                UrlView,
                ParseErrorView,
            >(ParseErrorView::MissingSchemeDelimiter),
            occurs_in(url_input@, scheme_delimiter()) && scheme_of(url_input@) != http_scheme()
                ==> outcome_view(outcome) == Err::<UrlView, ParseErrorView>(
                ParseErrorView::UnsupportedScheme(scheme_of(url_input@)),
            ),
    {
        let chars = chars_of(url_input);
        let delimiter: Vec<char> = vec![':', '/', '/'];
        assert(delimiter@ =~= scheme_delimiter());
        let at: usize = match find_first(&chars, &delimiter) {
            None => {
                return Err(ParseError::MissingSchemeDelimiter);
            },
            Some(at) => at,
        };
        let scheme = url_input.substring_char(0, at);
        let http: Vec<char> = vec!['h', 't', 't', 'p'];
        assert(http@ =~= http_scheme());
        if at != 4 || !matches_at(&chars, &http, 0) {
            return Err(ParseError::UnsupportedScheme(String::from_str(scheme)));
        }
        let rest = url_input.substring_char(at + 3, chars.len());
        let rest_chars = chars_of(rest);
        let separator: Vec<char> = vec!['/'];
        assert(separator@ =~= path_separator());
        let (host, path) = match find_first(&rest_chars, &separator) {
            Some(cut) => (
                rest.substring_char(0, cut),
                String::from_str(rest.substring_char(cut, rest_chars.len())),
            ),
            None => {
                proof {
                    reveal_strlit("/");
                }
                assert("/"@ =~= path_separator());
                (rest, String::from_str("/"))
            },
        };
        if host.unicode_len() == 0 {
            return Err(ParseError::EmptyHost);
        }
        proof {
            lemma_parse_wf(url_input@);
        }
        Ok(Url { scheme: String::from_str(scheme), host: String::from_str(host), path, port: HTTP_PORT })
    }

    /// The scheme, always `"http"`.
    pub fn scheme(&self) -> (scheme: &str)
        ensures
            scheme@ == self@.scheme,
            self@.wf(),
    {
        proof {
            use_type_invariant(self);
        }
        self.scheme.as_str()
    }

    /// The host to connect to.
    pub fn host(&self) -> (host: &str)
        ensures
            host@ == self@.host,
            self@.wf(),
    {
        proof {
            use_type_invariant(self);
        }
        self.host.as_str()
    }

    /// The path to ask for.
    pub fn path(&self) -> (path: &str)
        ensures
            path@ == self@.path,
            self@.wf(),
    {
        proof {
            use_type_invariant(self);
        }
        self.path.as_str()
    }

    /// The port to connect to, always 80.
    pub fn port(&self) -> (port: u16)
        ensures
            port == self@.port,
            port == HTTP_PORT,
            self@.wf(),
    {
        proof {
            use_type_invariant(self);
        }
        self.port
    }
}

/// Whatever parses, parses to a well-formed URL.
pub proof fn lemma_parse_wf(input: Seq<char>)
    requires
        parse(input) is Ok,
    ensures
        parse(input)->Ok_0.wf(),
{
    let rest = remainder_of(input);
    let sep = path_separator();
    let host = host_of(rest);
    let path = path_of(rest);
    if occurs_in(rest, sep) {
        lemma_first_occurrence_exists(rest, sep);
        let cut = first_occurrence(rest, sep);
        assert(rest.subrange(cut, cut + 1)[0] == sep[0]);
        assert(path[0] == '/');
        assert forall|i: int| 0 <= i < host.len() implies host[i] != '/' by {
            if host[i] == '/' {
                assert(rest.subrange(i, i + 1) =~= sep);
                assert(occurs_at(rest, sep, i));
            }
        }
    } else {
        assert forall|i: int| 0 <= i < host.len() implies host[i] != '/' by {
            if host[i] == '/' {
                assert(rest.subrange(i, i + 1) =~= sep);
                assert(occurs_at(rest, sep, i));
            }
        }
    }
}

/// A well-formed URL, written out, parses to itself.
pub proof fn lemma_text_parses_back(url: UrlView)
    requires
        url.wf(),
    ensures
        parse(url.text()) == Ok::<UrlView, ParseErrorView>(url),
{
    let delim = scheme_delimiter();
    let sep = path_separator();
    let t = url.text();
    assert(t.subrange(4, 7) =~= delim);
    assert forall|j: int| 0 <= j < 4 implies !occurs_at(t, delim, j) by {
        assert(t.subrange(j, j + 3)[0] == t[j]);
    }
    lemma_first_occurrence_unique(t, delim, 4);
    assert(scheme_of(t) =~= url.scheme);
    let rest = remainder_of(t);
    assert(rest =~= url.host + url.path);
    let cut = url.host.len() as int;
    assert(rest.subrange(cut, cut + 1) =~= sep);
    assert forall|j: int| 0 <= j < cut implies !occurs_at(rest, sep, j) by {
        assert(rest.subrange(j, j + 1)[0] == url.host[j]);
    }
    lemma_first_occurrence_unique(rest, sep, cut);
    assert(host_of(rest) =~= url.host);
    assert(path_of(rest) =~= url.path);
}

/// Round trip: where `input` parses, writing the result out as scheme,
/// `"://"`, host and path gives a text that parses to the same URL.
pub proof fn lemma_round_trip(input: Seq<char>)
    requires
        parse(input) is Ok,
    ensures
        parse(parse(input)->Ok_0.text()) == parse(input),
{
    lemma_parse_wf(input);
    lemma_text_parses_back(parse(input)->Ok_0);
}

/// An input without `"://"` is refused for that reason and no other.
pub proof fn lemma_no_delimiter_is_refused(input: Seq<char>)
    requires
        !occurs_in(input, scheme_delimiter()),
    ensures
        parse(input) == Err::<UrlView, ParseErrorView>(ParseErrorView::MissingSchemeDelimiter),
{
}

/// An input whose scheme is not `"http"` is refused with that scheme, as it
/// was written.
pub proof fn lemma_other_scheme_is_refused(input: Seq<char>)
    requires
        occurs_in(input, scheme_delimiter()),
        scheme_of(input) != http_scheme(),
    ensures
        parse(input) == Err::<UrlView, ParseErrorView>(
            ParseErrorView::UnsupportedScheme(scheme_of(input)),
        ),
        scheme_of(input) + scheme_delimiter() + remainder_of(input) == input,
{
    lemma_first_occurrence_exists(input, scheme_delimiter());
    assert(scheme_of(input) + scheme_delimiter() + remainder_of(input) =~= input);
}

} // verus!
