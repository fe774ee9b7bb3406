//! Match patterns: which requests, and which hosts, a rule is about.
use crate::regexes;
use crate::seqs;
use crate::text;
use vstd::prelude::*;

verus! {

/// Why a rule text was refused.
#[derive(Debug)]
pub enum ParseError {
    /// The pattern on this line (counted from one) is no regular expression.
    BadRegex { line: usize, source: regex::Error },
}

/// A match pattern.
#[derive(Debug)]
pub enum Pattern {
    /// `/regex/` or `/regex/i`, searched for in the whole URL.
    Regex(regex::Regex),
    /// A pattern with `*`, compiled to an expression that is anchored at the start.
    Wildcard { re: regex::Regex, with_scheme: bool },
    /// `scheme://...`: the start of the URL.
    UrlPrefix(String),
    /// A host and the start of a path.
    DomainPath { host: String, path: String },
}

/// What a pattern stands for.
pub enum PatternModel {
    Regex(Set<Seq<char>>),
    Wildcard { texts: Set<Seq<char>>, with_scheme: bool },
    UrlPrefix(Seq<char>),
    DomainPath { host: Seq<char>, path: Seq<char> },
}

impl View for Pattern {
    type V = PatternModel;

    open spec fn view(&self) -> PatternModel {
        match self {
            Pattern::Regex(re) => PatternModel::Regex(regexes::regex_texts(*re)),
            Pattern::Wildcard { re, with_scheme } => PatternModel::Wildcard {
                texts: regexes::regex_texts(*re),
                with_scheme: *with_scheme,
            },
            Pattern::UrlPrefix(p) => PatternModel::UrlPrefix(p@),
            Pattern::DomainPath { host, path } => PatternModel::DomainPath {
                host: host@,
                path: path@,
            },
        }
    }
}

impl Clone for Pattern {
    fn clone(&self) -> (r: Self)
        ensures
            r@ == self@,
    {
        match self {
            Pattern::Regex(re) => Pattern::Regex(regexes::copy(re)),
            Pattern::Wildcard { re, with_scheme } => Pattern::Wildcard {
                re: regexes::copy(re),
                with_scheme: *with_scheme,
            },
            Pattern::UrlPrefix(p) => Pattern::UrlPrefix(p.clone()),
            Pattern::DomainPath { host, path } => Pattern::DomainPath {
                host: host.clone(),
                path: path.clone(),
            },
        }
    }
}

/// The request that a pattern is held against.
#[derive(Debug)]
pub struct MatchInput {
    /// `scheme://host/path`, without port and query.
    pub url: String,
    /// The host without its port.
    pub host: String,
    /// The path.
    pub path: String,
    /// The method, empty where it is not known.
    pub method: String,
}

impl Clone for MatchInput {
    fn clone(&self) -> (r: Self)
        ensures
            r == *self,
    {
        MatchInput {
            url: self.url.clone(),
            host: self.host.clone(),
            path: self.path.clone(),
            method: self.method.clone(),
        }
    }
}

/// The texts of a request.
pub struct InputText {
    pub url: Seq<char>,
    pub host: Seq<char>,
    pub path: Seq<char>,
    pub method: Seq<char>,
}

impl View for MatchInput {
    type V = InputText;

    open spec fn view(&self) -> InputText {
        InputText {
            url: self.url@,
            host: self.host@,
            path: self.path@,
            method: self.method@,
        }
    }
}

/// A host without its port.
pub open spec fn without_port(host: Seq<char>) -> Seq<char> {
    seqs::before(host, ":"@)
}

/// The request with these parts; an empty path is `/`.
pub open spec fn input_of(scheme: Seq<char>, host: Seq<char>, path: Seq<char>) -> InputText {
    let h = without_port(host);
    let p = if path.len() == 0 {
        "/"@
    } else {
        path
    };
    InputText { url: scheme + "://"@ + h + p, host: h, path: p, method: ""@ }
}

/// The schemes with which a URL is a pattern and no operation.
pub open spec fn is_pattern_scheme(s: Seq<char>) -> bool {
    ||| s == "http"@
    ||| s == "https"@
    ||| s == "ws"@
    ||| s == "wss"@
    ||| s == "tunnel"@
}

/// The token is a URL with one of those schemes.
pub open spec fn has_pattern_scheme(token: Seq<char>) -> bool {
    match seqs::split_once(token, "://"@) {
        Some((scheme, _)) => is_pattern_scheme(scheme),
        None => false,
    }
}

/// The expression and the flags of a token that is written `/expression/flags`.
pub open spec fn regex_parts(token: Seq<char>) -> Option<(Seq<char>, Seq<char>)> {
    match seqs::strip_prefix(token, "/"@) {
        Some(rest) => seqs::rsplit_once(rest, "/"@),
        None => None,
    }
}

/// The characters that a regular expression reads as more than themselves.
pub open spec fn needs_escape(c: char) -> bool {
    ||| c == '\\'
    ||| c == '.'
    ||| c == '+'
    ||| c == '?'
    ||| c == '('
    ||| c == ')'
    ||| c == '|'
    ||| c == '['
    ||| c == ']'
    ||| c == '{'
    ||| c == '}'
    ||| c == '^'
    ||| c == '$'
}

/// One character of a wildcard pattern as a regular expression.
pub open spec fn wildcard_char(c: char) -> Seq<char> {
    if c == '*' {
        seq!['.', '*']
    } else if needs_escape(c) {
        seq!['\\', c]
    } else {
        seq![c]
    }
}

/// A wildcard pattern as a regular expression, character by character.
pub open spec fn wildcard_source(pattern: Seq<char>) -> Seq<char>
    decreases pattern.len(),
{
    if pattern.len() == 0 {
        seq![]
    } else {
        wildcard_source(pattern.drop_last()) + wildcard_char(pattern.last())
    }
}

/// What a token stands for as a pattern; `None` where its regular expression is refused.
pub open spec fn pattern_of(token: Seq<char>) -> Option<PatternModel> {
    match regex_parts(token) {
        Some((body, flags)) => match regexes::regex_language(body, seqs::contains(flags, "i"@)) {
            Some(texts) => Some(PatternModel::Regex(texts)),
            None => None,
        },
        None => if seqs::contains(token, "*"@) {
            match regexes::regex_language("^"@ + wildcard_source(token), false) {
                Some(texts) => Some(
                    PatternModel::Wildcard { texts, with_scheme: seqs::contains(token, "://"@) },
                ),
                None => None,
            }
        } else if has_pattern_scheme(token) {
            Some(PatternModel::UrlPrefix(token))
        } else {
            Some(domain_path_of(token))
        },
    }
}

/// A token without scheme: the host up to the first `/`, in small letters and without its port,
/// and the path from there on.
pub open spec fn domain_path_of(token: Seq<char>) -> PatternModel {
    match seqs::split_once(token, "/"@) {
        Some((h, p)) => PatternModel::DomainPath {
            host: seqs::lower(without_port(h)),
            path: "/"@ + p,
        },
        None => PatternModel::DomainPath { host: seqs::lower(without_port(token)), path: ""@ },
    }
}

/// The pattern matches the request.
pub open spec fn pattern_matches(m: PatternModel, input: InputText) -> bool {
    match m {
        PatternModel::Regex(texts) => texts.contains(input.url),
        PatternModel::Wildcard { texts, with_scheme } => if with_scheme {
            texts.contains(input.url)
        } else {
            texts.contains(input.host + input.path)
        },
        PatternModel::UrlPrefix(p) => seqs::starts_with(input.url, p),
        PatternModel::DomainPath { host, path } => {
            &&& seqs::same_ignoring_case(input.host, host)
            &&& path.len() == 0 || seqs::starts_with(input.path, path)
        },
    }
}

/// The expression finds a match in the root URL of the host, over TLS or not.
pub open spec fn matches_root(texts: Set<Seq<char>>, host: Seq<char>) -> bool {
    texts.contains("https://"@ + host + "/"@) || texts.contains("http://"@ + host + "/"@)
}

/// The pattern may be about some request to the host.
pub open spec fn pattern_matches_host(m: PatternModel, host: Seq<char>) -> bool {
    let h = seqs::lower(without_port(host));
    h.len() > 0 && match m {
        PatternModel::DomainPath { host: own, .. } => h == own,
        PatternModel::UrlPrefix(p) => match seqs::split_once(p, "://"@) {
            Some((_, rest)) => {
                let own = seqs::lower(without_port(seqs::authority(rest)));
                own.len() > 0 && own == h
            },
            None => false,
        },
        PatternModel::Regex(texts) => matches_root(texts, h),
        PatternModel::Wildcard { texts, with_scheme } => if with_scheme {
            matches_root(texts, h)
        } else {
            texts.contains(h + "/"@)
        },
    }
}

/// A host without its port.
pub fn strip_port<'a>(host: &'a str) -> (r: &'a str)
    ensures
        r@ == without_port(host@),
{
    text::before(host, ":")
}

/// A wildcard pattern as a regular expression: `*` as `.*`, what the expression would read as more
/// than itself behind a backslash.
pub fn wildcard_to_regex(pattern: &str) -> (r: String)
    ensures
        r@ == wildcard_source(pattern@),
{
    let mut out = String::new();
    for c in it: pattern.chars()
        invariant
            out@ == wildcard_source(pattern@.take(it.index())),
            it.seq() == pattern@,
    {
        let ghost done = out@;
        proof {
            let t = pattern@.take(it.index() + 1);
            assert(t.drop_last() =~= pattern@.take(it.index()));
            assert(t.last() == c);
        }
        if c == '*' {
            out.push('.');
            out.push('*');
        } else if c == '\\' || c == '.' || c == '+' || c == '?' || c == '(' || c == ')' || c == '|'
            || c == '[' || c == ']' || c == '{' || c == '}' || c == '^' || c == '$' {
            out.push('\\');
            out.push(c);
        } else {
            out.push(c);
        }
        proof {
            assert(out@ =~= done + wildcard_char(c));
        }
    }
    proof {
        assert(pattern@.take(pattern@.len() as int) =~= pattern@);
    }
    out
}

/// Whether a scheme makes a URL a pattern.
fn scheme_is_pattern(s: &str) -> (r: bool)
    ensures
        r == is_pattern_scheme(s@),
{
    text::same(s, "http") || text::same(s, "https") || text::same(s, "ws") || text::same(s, "wss")
        || text::same(s, "tunnel")
}

/// A token can be a pattern: it begins with `/`, is a URL with a pattern's scheme, or has no scheme.
pub open spec fn pattern_candidate(token: Seq<char>) -> bool {
    ||| seqs::starts_with(token, "/"@)
    ||| match seqs::split_once(token, "://"@) {
        Some((scheme, _)) => is_pattern_scheme(scheme),
        None => true,
    }
}

/// Whether a token can be a pattern.
pub fn is_pattern_candidate(token: &str) -> (r: bool)
    ensures
        r == pattern_candidate(token@),
{
    if text::starts_with(token, "/") {
        return true;
    }
    match text::split_once(token, "://") {
        Some((scheme, _)) => scheme_is_pattern(scheme),
        None => true,
    }
}

impl MatchInput {
    /// The request with these parts. The port is dropped, an empty path is `/`, the method is not
    /// known.
    pub fn new(scheme: &str, host: &str, path: &str) -> (r: MatchInput)
        ensures
            r@ == input_of(scheme@, host@, path@),
    {
        let h = strip_port(host);
        let p = if path.is_empty() {
            "/"
        } else {
            path
        };
        let mut url = text::cat3(scheme, "://", h);
        url.append(p);
        MatchInput { url, host: h.to_string(), path: p.to_string(), method: "".to_string() }
    }

    /// The same request with this method.
    pub fn with_method(self, method: &str) -> (r: MatchInput)
        ensures
            r@ == (InputText { method: method@, ..self@ }),
    {
        MatchInput { url: self.url, host: self.host, path: self.path, method: method.to_string() }
    }

    /// The host followed by the path.
    pub fn host_path(&self) -> (r: String)
        ensures
            r@ == self@.host + self@.path,
    {
        text::cat(self.host.as_str(), self.path.as_str())
    }
}

impl Pattern {
    /// Reads a token as a pattern.
    pub fn parse(token: &str, line: usize) -> (r: Result<Pattern, ParseError>)
        ensures
            match r {
                Ok(p) => pattern_of(token@) == Some(p@),
                Err(ParseError::BadRegex { line: l, .. }) => pattern_of(token@) is None && l
                    == line,
            },
    {
        if let Some(rest) = text::strip_prefix(token, "/") {
            if let Some((body, flags)) = text::rsplit_once(rest, "/") {
                return match regexes::compile(body, text::contains(flags, "i")) {
                    Ok(re) => Ok(Pattern::Regex(re)),
                    Err(source) => Err(ParseError::BadRegex { line, source }),
                };
            }
        }
        if text::contains(token, "*") {
            let body = wildcard_to_regex(token);
            let source = text::cat("^", body.as_str());
            return match regexes::compile(source.as_str(), false) {
                Ok(re) => Ok(
                    Pattern::Wildcard { re, with_scheme: text::contains(token, "://") },
                ),
                Err(source) => Err(ParseError::BadRegex { line, source }),
            };
        }
        if let Some((scheme, _)) = text::split_once(token, "://") {
            if scheme_is_pattern(scheme) {
                return Ok(Pattern::UrlPrefix(token.to_string()));
            }
        }
        match text::split_once(token, "/") {
            Some((h, p)) => Ok(
                Pattern::DomainPath { host: text::lower(strip_port(h)), path: text::cat("/", p) },
            ),
            None => Ok(
                Pattern::DomainPath {
                    host: text::lower(strip_port(token)),
                    path: "".to_string(),
                },
            ),
        }
    }

    /// Whether the pattern matches a request.
    pub fn matches(&self, input: &MatchInput) -> (r: bool)
        ensures
            r == pattern_matches(self@, input@),
    {
        match self {
            Pattern::Regex(re) => regexes::is_match(re, input.url.as_str()),
            Pattern::Wildcard { re, with_scheme } => {
                if *with_scheme {
                    regexes::is_match(re, input.url.as_str())
                } else {
                    let hp = input.host_path();
                    regexes::is_match(re, hp.as_str())
                }
            },
            Pattern::UrlPrefix(p) => text::starts_with(input.url.as_str(), p.as_str()),
            Pattern::DomainPath { host, path } => {
                text::same_ignoring_case(input.host.as_str(), host.as_str()) && (
                path.as_str().is_empty() || text::starts_with(input.path.as_str(), path.as_str()))
            },
        }
    }

    /// Whether the pattern may be about some request to a host. The port of the host and the case
    /// of its letters make no difference.
    pub fn matches_host(&self, host: &str) -> (r: bool)
        ensures
            r == pattern_matches_host(self@, host@),
    {
        let h = text::lower(strip_port(host));
        let h = h.as_str();
        if h.is_empty() {
            return false;
        }
        match self {
            Pattern::DomainPath { host: own, .. } => text::same(h, own.as_str()),
            Pattern::UrlPrefix(p) => match text::split_once(p.as_str(), "://") {
                Some((_, rest)) => {
                    let own = text::lower(strip_port(text::authority(rest)));
                    !own.as_str().is_empty() && text::same(own.as_str(), h)
                },
                None => false,
            },
            Pattern::Regex(re) => matches_root_of(re, h),
            Pattern::Wildcard { re, with_scheme } => {
                if *with_scheme {
                    matches_root_of(re, h)
                } else {
                    let root = text::cat(h, "/");
                    regexes::is_match(re, root.as_str())
                }
            },
        }
    }
}

/// Whether the expression finds a match in the root URL of the host, over TLS or not.
fn matches_root_of(re: &regex::Regex, host: &str) -> (r: bool)
    ensures
        r == matches_root(regexes::regex_texts(*re), host@),
{
    let secure = text::cat3("https://", host, "/");
    let plain = text::cat3("http://", host, "/");
    regexes::is_match(re, secure.as_str()) || regexes::is_match(re, plain.as_str())
}

// ---- laws ----

/// The small letters of a text hold a character where the text does, as long as that character is
/// no letter.
proof fn lemma_lower_find(s: Seq<char>, c: char)
    requires
        seqs::lower_char(c) == c,
        !('a' <= c <= 'z'),
    ensures
        seqs::find(seqs::lower(s), seq![c]) == seqs::find(s, seq![c]),
{
    let l = seqs::lower(s);
    assert forall|j: int| #[trigger]
        seqs::occurs_at(l, seq![c], j) == seqs::occurs_at(s, seq![c], j) by {
        seqs::lemma_occurs_char(l, c, j);
        seqs::lemma_occurs_char(s, c, j);
    }
    seqs::lemma_find_from(s, seq![c], 0);
    match seqs::find(s, seq![c]) {
        Some(k) => {
            assert(seqs::occurs_at(l, seq![c], k) == seqs::occurs_at(s, seq![c], k));
            assert forall|j: int| 0 <= j < k implies !#[trigger] seqs::occurs_at(l, seq![c], j) by {
                assert(seqs::occurs_at(l, seq![c], j) == seqs::occurs_at(s, seq![c], j));
            }
            seqs::lemma_find_is(l, seq![c], 0, k);
        },
        None => {
            assert forall|j: int| 0 <= j implies !#[trigger] seqs::occurs_at(l, seq![c], j) by {
                assert(seqs::occurs_at(l, seq![c], j) == seqs::occurs_at(s, seq![c], j));
            }
            seqs::lemma_find_none(l, seq![c], 0);
        },
    }
}

/// The port of a host makes no difference to the patterns that are about it.
pub proof fn law_port_makes_no_difference_to_hosts(
    m: PatternModel,
    host: Seq<char>,
    port: Seq<char>,
)
    requires
        forall|i: int| 0 <= i < host.len() ==> host[i] != ':',
    ensures
        pattern_matches_host(m, host + ":"@ + port) == pattern_matches_host(m, host),
{
    reveal_strlit(":");
    assert(":"@ =~= seq![':']);
    seqs::lemma_find_char(host, ':', port);
    assert(host + ":"@ + port =~= host.push(':') + port);
    assert((host + ":"@ + port).subrange(0, host.len() as int) =~= host);
}

/// The case of the ASCII letters of a host makes no difference to the patterns that are about it.
pub proof fn law_case_makes_no_difference_to_hosts(m: PatternModel, host: Seq<char>)
    ensures
        pattern_matches_host(m, seqs::lower(host)) == pattern_matches_host(m, host),
{
    reveal_strlit(":");
    assert(":"@ =~= seq![':']);
    lemma_lower_find(host, ':');
    seqs::lemma_find_from(host, seq![':'], 0);
    let a = seqs::lower(without_port(seqs::lower(host)));
    let b = seqs::lower(without_port(host));
    assert(a =~= b);
}

/// The port of a host makes no difference to the request that is matched.
pub proof fn law_port_makes_no_difference_to_requests(
    scheme: Seq<char>,
    host: Seq<char>,
    port: Seq<char>,
    path: Seq<char>,
)
    requires
        forall|i: int| 0 <= i < host.len() ==> host[i] != ':',
    ensures
        input_of(scheme, host + ":"@ + port, path) == input_of(scheme, host, path),
{
    reveal_strlit(":");
    assert(":"@ =~= seq![':']);
    seqs::lemma_find_char(host, ':', port);
    assert(host + ":"@ + port =~= host.push(':') + port);
    assert((host + ":"@ + port).subrange(0, host.len() as int) =~= host);
}

/// A host-and-path pattern that matches a request is about the host of that request.
pub proof fn law_matched_domain_is_about_host(
    token: Seq<char>,
    scheme: Seq<char>,
    host: Seq<char>,
    path: Seq<char>,
)
    requires
        pattern_of(token) matches Some(m) && m is DomainPath && pattern_matches(
            m,
            input_of(scheme, host, path),
        ),
        without_port(host).len() > 0,
    ensures
        pattern_matches_host(pattern_of(token)->0, host),
{
    assert forall|s: Seq<char>| #[trigger] seqs::lower(seqs::lower(s)) == seqs::lower(s) by {
        assert(seqs::lower(seqs::lower(s)) =~= seqs::lower(s));
    }
}

/// A pattern that is written `/expression/flags` searches the expression in the whole URL, from the
/// scheme on, without the port. It ignores letter case where an `i` is among the flags.
pub proof fn law_expression_is_searched_in_the_whole_url(
    body: Seq<char>,
    flags: Seq<char>,
    scheme: Seq<char>,
    host: Seq<char>,
    port: Seq<char>,
    path: Seq<char>,
)
    requires
        seqs::lacks(flags, '/'),
        seqs::lacks(host, ':'),
        path.len() > 0,
    ensures
        ({
            let token = seq!['/'] + body + seq!['/'] + flags;
            let url = scheme + seq![':', '/', '/'] + host + path;
            match regexes::regex_language(body, flags.contains('i')) {
                Some(texts) => pattern_of(token) is Some && pattern_matches(
                    pattern_of(token)->0,
                    input_of(scheme, host, path),
                ) == texts.contains(url) && pattern_matches(
                    pattern_of(token)->0,
                    input_of(scheme, host + seq![':'] + port, path),
                ) == texts.contains(url),
                None => pattern_of(token) is None,
            }
        }),
{
    reveal_strlit("/");
    reveal_strlit("i");
    reveal_strlit(":");
    reveal_strlit("://");
    assert("/"@ =~= seq!['/']);
    assert("i"@ =~= seq!['i']);
    assert(":"@ =~= seq![':']);
    assert("://"@ =~= seq![':', '/', '/']);
    let token = seq!['/'] + body + seq!['/'] + flags;
    let rest = body + seq!['/'] + flags;
    assert(token =~= seq!['/'] + rest);
    seqs::law_a_start_is_followed_by_the_rest(token, seq!['/'], rest);
    seqs::law_text_is_cut_at_the_last(body, '/', flags);
    seqs::law_characters_are_found(flags, 'i');
    seqs::law_text_is_cut_at_the_first(host, ':', port);
}

/// A request without a path is one for the root.
pub proof fn law_empty_path_is_the_root(scheme: Seq<char>, host: Seq<char>)
    ensures
        input_of(scheme, host, Seq::empty()) == input_of(scheme, host, seq!['/']),
{
    reveal_strlit("/");
    assert("/"@ =~= seq!['/']);
}

/// The texts of a request are those of its parts: the URL is the scheme, the host and the path, and
/// the method is not known until it is told.
pub proof fn law_request_is_made_of_its_parts(
    scheme: Seq<char>,
    host: Seq<char>,
    path: Seq<char>,
)
    requires
        seqs::lacks(host, ':'),
        path.len() > 0,
    ensures
        input_of(scheme, host, path).url == scheme + seq![':', '/', '/'] + host + path,
        input_of(scheme, host, path).host == host,
        input_of(scheme, host, path).path == path,
        input_of(scheme, host, path).method == Seq::<char>::empty(),
{
    reveal_strlit(":");
    reveal_strlit("://");
    reveal_strlit("");
    assert(":"@ =~= seq![':']);
    assert("://"@ =~= seq![':', '/', '/']);
    assert(""@ =~= seq![]);
    seqs::law_text_is_cut_at_the_first(host, ':', path);
}

/// In a pattern with wildcards each `*` stands for any text, and every other character for itself:
/// the expression is that of the characters one after another.
pub proof fn law_wildcard_is_read_by_characters(a: Seq<char>, c: char, b: Seq<char>)
    ensures
        wildcard_source(Seq::empty()) == Seq::<char>::empty(),
        wildcard_source(a + b) == wildcard_source(a) + wildcard_source(b),
        wildcard_source(seq![c]) == if c == '*' {
            seq!['.', '*']
        } else if seq!['\\', '.', '+', '?', '(', ')', '|', '[', ']', '{', '}', '^', '$'].contains(
            c,
        ) {
            seq!['\\', c]
        } else {
            seq![c]
        },
    decreases b.len(),
{
    reveal_with_fuel(wildcard_source, 2);
    let special = seq!['\\', '.', '+', '?', '(', ')', '|', '[', ']', '{', '}', '^', '$'];
    assert(special[0] == '\\' && special[1] == '.' && special[2] == '+' && special[3] == '?'
        && special[4] == '(' && special[5] == ')' && special[6] == '|' && special[7] == '['
        && special[8] == ']' && special[9] == '{' && special[10] == '}' && special[11] == '^'
        && special[12] == '$');
    assert(seq![c].drop_last() =~= seq![]);
    assert(wildcard_source(seq![c]) =~= wildcard_char(c));
    if b.len() == 0 {
        assert(a + b =~= a);
        assert(wildcard_source(a) + wildcard_source(b) =~= wildcard_source(a));
    } else {
        law_wildcard_is_read_by_characters(a, c, b.drop_last());
        assert((a + b).drop_last() =~= a + b.drop_last());
        assert(wildcard_source(a + b) =~= wildcard_source(a) + wildcard_source(b));
    }
}

/// A pattern with a `*` matches from the start: with a scheme from the start of the URL, without
/// one from the start of the host.
pub proof fn law_wildcard_is_anchored(
    token: Seq<char>,
    scheme: Seq<char>,
    host: Seq<char>,
    path: Seq<char>,
)
    requires
        token.contains('*'),
        token[0] != '/',
        seqs::lacks(host, ':'),
        path.len() > 0,
    ensures
        match regexes::regex_language(seq!['^'] + wildcard_source(token), false) {
            Some(texts) => pattern_of(token) is Some && pattern_matches(
                pattern_of(token)->0,
                input_of(scheme, host, path),
            ) == texts.contains(
                if seqs::contains(token, seq![':', '/', '/']) {
                    scheme + seq![':', '/', '/'] + host + path
                } else {
                    host + path
                },
            ),
            None => pattern_of(token) is None,
        },
{
    reveal_strlit("/");
    reveal_strlit("*");
    reveal_strlit("^");
    reveal_strlit("://");
    assert("/"@ =~= seq!['/']);
    assert("*"@ =~= seq!['*']);
    assert("^"@ =~= seq!['^']);
    assert("://"@ =~= seq![':', '/', '/']);
    seqs::law_characters_are_found(token, '*');
    seqs::lemma_occurs_char(token, '/', 0);
    law_request_is_made_of_its_parts(scheme, host, path);
}

/// A URL with the scheme of a request matches the requests whose URL begins with it, and no others.
pub proof fn law_url_matches_what_begins_with_it(
    scheme: Seq<char>,
    rest: Seq<char>,
    input: InputText,
)
    requires
        scheme == "http"@ || scheme == "https"@ || scheme == "ws"@ || scheme == "wss"@ || scheme
            == "tunnel"@,
        seqs::lacks(rest, '*'),
    ensures
        ({
            let token = scheme + seq![':', '/', '/'] + rest;
            &&& pattern_of(token) is Some
            &&& pattern_matches(pattern_of(token)->0, input) <==> exists|tail: Seq<char>|
                input.url == #[trigger] (token + tail)
        }),
{
    let token = scheme + seq![':', '/', '/'] + rest;
    lemma_url_token(scheme, rest);
    if seqs::starts_with(input.url, token) {
        seqs::law_a_start_is_followed_by_the_rest(input.url, token, Seq::empty());
        assert(input.url == token + input.url.skip(token.len() as int));
    }
    assert forall|tail: Seq<char>| input.url == #[trigger] (token + tail) implies seqs::starts_with(
        input.url,
        token,
    ) by {
        seqs::law_a_start_is_followed_by_the_rest(input.url, token, tail);
    }
}

proof fn lemma_url_token(scheme: Seq<char>, rest: Seq<char>)
    requires
        scheme == "http"@ || scheme == "https"@ || scheme == "ws"@ || scheme == "wss"@ || scheme
            == "tunnel"@,
        seqs::lacks(rest, '*'),
    ensures
        ({
            let token = scheme + seq![':', '/', '/'] + rest;
            &&& pattern_of(token) == Some(PatternModel::UrlPrefix(token))
            &&& seqs::split_once(token, "://"@) == Some((scheme, rest))
        }),
{
    reveal_strlit("http");
    reveal_strlit("https");
    reveal_strlit("ws");
    reveal_strlit("wss");
    reveal_strlit("tunnel");
    reveal_strlit("/");
    reveal_strlit("*");
    reveal_strlit("://");
    assert("/"@ =~= seq!['/']);
    assert("*"@ =~= seq!['*']);
    assert("://"@ =~= seq![':', '/', '/']);
    let token = scheme + seq![':', '/', '/'] + rest;
    assert(token[0] == scheme[0]);
    seqs::lemma_occurs_char(token, '/', 0);
    assert(seqs::lacks(token, '*')) by {
        assert forall|i: int| 0 <= i < token.len() implies #[trigger] token[i] != '*' by {
            if i < scheme.len() {
                assert(token[i] == scheme[i]);
            } else if i >= scheme.len() + 3 {
                assert(token[i] == rest[i - scheme.len() - 3]);
            }
        }
    }
    seqs::law_characters_are_found(token, '*');
    seqs::law_text_is_cut_at_the_separator(scheme, seq![':', '/', '/'], rest);
}

/// A host, with or without the start of a path, matches the requests to that host whose path begins
/// so. Letter case of the host and the ports of both make no difference; that of the path does.
pub proof fn law_domain_matches_its_requests(
    own: Seq<char>,
    own_port: Seq<char>,
    own_path: Seq<char>,
    scheme: Seq<char>,
    host: Seq<char>,
    path: Seq<char>,
)
    requires
        seqs::lacks(own, '*') && seqs::lacks(own, '/') && seqs::lacks(own, ':'),
        seqs::lacks(own_port, '*') && seqs::lacks(own_port, '/') && seqs::lacks(own_port, ':'),
        seqs::lacks(own_path, '*') && seqs::lacks(own_path, ':'),
        own.len() > 0 && own_port.len() > 0,
        own_path.len() == 0 || own_path[0] == '/',
        seqs::lacks(host, ':'),
        path.len() > 0,
    ensures
        ({
            let matched = seqs::same_ignoring_case(own, host) && own_path.len() <= path.len()
                && path.take(own_path.len() as int) == own_path;
            let bare = own + own_path;
            let full = own + seq![':'] + own_port + own_path;
            &&& pattern_of(bare) is Some
            &&& pattern_of(full) is Some
            &&& pattern_matches(pattern_of(bare)->0, input_of(scheme, host, path)) == matched
            &&& pattern_matches(pattern_of(full)->0, input_of(scheme, host, path)) == matched
        }),
{
    law_request_is_made_of_its_parts(scheme, host, path);
    let with_port = own + seq![':'] + own_port;
    assert forall|i: int| 0 <= i < with_port.len() implies #[trigger] with_port[i] != '*'
        && with_port[i] != '/' by {
        if i < own.len() {
            assert(with_port[i] == own[i]);
        } else if i > own.len() {
            assert(with_port[i] == own_port[i - own.len() - 1]);
        }
    }
    seqs::law_text_is_cut_at_the_first(own, ':', own_port);
    let input = input_of(scheme, host, path);
    let matched = seqs::same_ignoring_case(own, host) && own_path.len() <= path.len() && path.take(
        own_path.len() as int,
    ) == own_path;
    assert(with_port.last() == own_port.last());
    lemma_domain_token(own, own_path);
    lemma_domain_token(with_port, own_path);
    assert(seqs::lower(seqs::lower(own)) =~= seqs::lower(own));
    reveal_strlit(":");
    assert(":"@ =~= seq![':']);
    if own_path.len() > 0 && own_path.len() <= path.len() {
        assert(path.take(own_path.len() as int) =~= path.subrange(0, own_path.len() as int));
    } else if own_path.len() == 0 {
        assert(path.take(0) =~= own_path);
    }
}

proof fn lemma_domain_token(head: Seq<char>, own_path: Seq<char>)
    requires
        seqs::lacks(head, '*') && seqs::lacks(head, '/'),
        seqs::lacks(own_path, '*') && seqs::lacks(own_path, ':'),
        head.len() > 0 && head.last() != ':',
        own_path.len() == 0 || own_path[0] == '/',
    ensures
        pattern_of(head + own_path) == Some(
            PatternModel::DomainPath { host: seqs::lower(without_port(head)), path: own_path },
        ),
{
    reveal_strlit("/");
    reveal_strlit("*");
    reveal_strlit("");
    reveal_strlit("://");
    assert("/"@ =~= seq!['/']);
    assert("*"@ =~= seq!['*']);
    assert(""@ =~= seq![]);
    assert("://"@ =~= seq![':', '/', '/']);
    let token = head + own_path;
    assert(token[0] == head[0]);
    seqs::lemma_occurs_char(token, '/', 0);
    assert(seqs::lacks(token, '*')) by {
        assert forall|i: int| 0 <= i < token.len() implies #[trigger] token[i] != '*' by {
            if i < head.len() {
                assert(token[i] == head[i]);
            } else {
                assert(token[i] == own_path[i - head.len()]);
            }
        }
    }
    seqs::law_characters_are_found(token, '*');
    let sep = seq![':', '/', '/'];
    assert forall|j: int| 0 <= j implies !#[trigger] seqs::occurs_at(token, sep, j) by {
        if seqs::occurs_at(token, sep, j) {
            assert(token.subrange(j, j + 3)[0] == token[j]);
            assert(token.subrange(j, j + 3)[1] == token[j + 1]);
            assert(token.subrange(j, j + 3)[2] == token[j + 2]);
            if j + 1 < head.len() {
                assert(token[j + 1] == head[j + 1]);
            } else if j + 1 == head.len() {
                assert(token[j] == head.last());
            } else if j >= head.len() {
                assert(token[j] == own_path[j - head.len()]);
            }
        }
    }
    if own_path.len() > 0 {
        seqs::law_text_is_cut_at_the_first(head, '/', own_path.skip(1));
        assert(token =~= head + seq!['/'] + own_path.skip(1));
        assert(seq!['/'] + own_path.skip(1) =~= own_path);
    } else {
        assert(token =~= head);
        assert(own_path =~= seq![]);
        seqs::law_text_is_cut_at_the_first(head, '/', own_path);
    }
    assert(!has_pattern_scheme(token)) by {
        seqs::lemma_find_none(token, sep, 0);
    }
}

/// An expression, and a pattern with a wildcard, is about the hosts whose root it matches: by a
/// request over TLS, or by one without.
pub proof fn law_matched_root_is_about_host(token: Seq<char>, host: Seq<char>)
    requires
        pattern_of(token) matches Some(m) && (m is Regex || m is Wildcard),
        host.len() > 0,
        seqs::lacks(host, ':'),
        seqs::lower(host) == host,
    ensures
        pattern_matches_host(pattern_of(token)->0, host) <==> (pattern_matches(
            pattern_of(token)->0,
            input_of("https"@, host, "/"@),
        ) || pattern_matches(pattern_of(token)->0, input_of("http"@, host, "/"@))),
{
    reveal_strlit("/");
    reveal_strlit("://");
    reveal_strlit("http");
    reveal_strlit("https");
    reveal_strlit("http://");
    reveal_strlit("https://");
    assert("https"@ + "://"@ =~= "https://"@);
    assert("http"@ + "://"@ =~= "http://"@);
    reveal_strlit(":");
    assert(":"@ =~= seq![':']);
    seqs::law_text_is_cut_at_the_first(host, ':', host);
}

/// A host-and-path pattern is about its own host, whatever the path, and about no other.
pub proof fn law_domain_is_about_its_host(own: Seq<char>, own_path: Seq<char>, host: Seq<char>)
    requires
        seqs::lacks(own, '*') && seqs::lacks(own, '/') && seqs::lacks(own, ':'),
        seqs::lacks(own_path, '*') && seqs::lacks(own_path, ':'),
        own.len() > 0,
        own_path.len() == 0 || own_path[0] == '/',
        seqs::lacks(host, ':'),
    ensures
        pattern_of(own + own_path) is Some,
        pattern_matches_host(pattern_of(own + own_path)->0, host) == seqs::same_ignoring_case(
            own,
            host,
        ),
{
    reveal_strlit(":");
    assert(":"@ =~= seq![':']);
    lemma_domain_token(own, own_path);
    seqs::law_text_is_cut_at_the_first(own, ':', own);
    seqs::law_text_is_cut_at_the_first(host, ':', host);
    seqs::law_case_is_ignored_on_both_sides(own, host);
}

/// A URL is about the host that it names, whatever its scheme and what follows the host, and about
/// no other.
pub proof fn law_url_is_about_its_host(
    scheme: Seq<char>,
    own: Seq<char>,
    rest: Seq<char>,
    host: Seq<char>,
)
    requires
        scheme == "http"@ || scheme == "https"@ || scheme == "ws"@ || scheme == "wss"@ || scheme
            == "tunnel"@,
        seqs::lacks(own, '/') && seqs::lacks(own, '?') && seqs::lacks(own, '#'),
        seqs::lacks(own, '*') && seqs::lacks(own, ':'),
        seqs::lacks(rest, '*'),
        rest.len() == 0 || rest[0] == '/' || rest[0] == '?' || rest[0] == '#',
        own.len() > 0,
        seqs::lacks(host, ':'),
    ensures
        ({
            let token = scheme + seq![':', '/', '/'] + (own + rest);
            &&& pattern_of(token) is Some
            &&& pattern_matches_host(pattern_of(token)->0, host) == seqs::same_ignoring_case(
                own,
                host,
            )
        }),
{
    reveal_strlit(":");
    assert(":"@ =~= seq![':']);
    let all = own + rest;
    assert forall|i: int| 0 <= i < all.len() implies #[trigger] all[i] != '*' by {
        if i < own.len() {
            assert(all[i] == own[i]);
        } else {
            assert(all[i] == rest[i - own.len()]);
        }
    }
    lemma_url_token(scheme, all);
    seqs::law_authority_ends_at_the_path(own, rest);
    seqs::law_text_is_cut_at_the_first(own, ':', own);
    seqs::law_text_is_cut_at_the_first(host, ':', host);
    seqs::law_case_is_ignored_on_both_sides(own, host);
}

/// A pattern of any form that matches a request for the root of a host is about that host. A URL
/// has to name the whole host: the start of one matches the requests to longer hosts, too, and is
/// about none of them.
pub proof fn law_matched_host_is_about_host(token: Seq<char>, scheme: Seq<char>, host: Seq<char>)
    requires
        scheme == "https"@ || scheme == "http"@,
        pattern_of(token) matches Some(m) && pattern_matches(m, input_of(scheme, host, "/"@)),
        pattern_of(token)->0 is UrlPrefix ==> token.len() >= scheme.len() + 3 + host.len(),
        host.len() > 0,
        seqs::lacks(host, ':') && seqs::lacks(host, '/') && seqs::lacks(host, '?') && seqs::lacks(
            host,
            '#',
        ),
        seqs::lower(host) == host,
    ensures
        pattern_matches_host(pattern_of(token)->0, host),
{
    let m = pattern_of(token)->0;
    reveal_strlit("/");
    assert("/"@ =~= seq!['/']);
    law_request_is_made_of_its_parts(scheme, host, "/"@);
    reveal_strlit(":");
    assert(":"@ =~= seq![':']);
    seqs::law_text_is_cut_at_the_first(host, ':', host);
    match m {
        PatternModel::Regex(_) => law_matched_root_is_about_host(token, host),
        PatternModel::Wildcard { .. } => law_matched_root_is_about_host(token, host),
        PatternModel::DomainPath { .. } => law_matched_domain_is_about_host(
            token,
            scheme,
            host,
            "/"@,
        ),
        PatternModel::UrlPrefix(p) => {
            let url = scheme + seq![':', '/', '/'] + host + "/"@;
            assert(p == token);
            let n = (scheme.len() + 3 + host.len()) as int;
            assert(url.subrange(0, token.len() as int) == token);
            let rest = token.skip(n);
            assert(token =~= scheme + seq![':', '/', '/'] + (host + rest)) by {
                assert forall|i: int| 0 <= i < token.len() implies token[i] == url[i] by {
                    assert(url.subrange(0, token.len() as int)[i] == url[i]);
                }
            }
            if rest.len() > 0 {
                assert(rest[0] == token[n]);
                assert(url.subrange(0, token.len() as int)[n] == url[n]);
            }
            reveal_strlit("*");
            assert("*"@ =~= seq!['*']);
            seqs::law_characters_are_found(token, '*');
            assert(seqs::lacks(host, '*')) by {
                assert forall|i: int| 0 <= i < host.len() implies #[trigger] host[i] != '*' by {
                    assert(token[scheme.len() + 3 + i] == host[i]);
                }
            }
            assert(seqs::lacks(rest, '*')) by {
                assert forall|i: int| 0 <= i < rest.len() implies #[trigger] rest[i] != '*' by {
                    assert(token[n + i] == rest[i]);
                }
            }
            law_url_is_about_its_host(scheme, host, rest, host);
        },
    }
}

/// Words without a scheme, URLs with the scheme of a request, and whatever begins with `/` can be
/// patterns. A word with any other scheme is an operation.
pub proof fn law_other_schemes_are_operations(scheme: Seq<char>, rest: Seq<char>)
    requires
        seqs::lacks(scheme, ':'),
        scheme.len() > 0 ==> scheme[0] != '/',
    ensures
        pattern_candidate(scheme),
        pattern_candidate(seq!['/'] + rest),
        pattern_candidate(scheme + seq![':', '/', '/'] + rest) == (scheme == "http"@ || scheme
            == "https"@ || scheme == "ws"@ || scheme == "wss"@ || scheme == "tunnel"@),
{
    reveal_strlit("/");
    reveal_strlit("://");
    assert("/"@ =~= seq!['/']);
    assert("://"@ =~= seq![':', '/', '/']);
    seqs::law_text_is_cut_at_the_separator(scheme, seq![':', '/', '/'], rest);
    seqs::law_a_start_is_followed_by_the_rest(rest, seq!['/'], rest);
    let token = scheme + seq![':', '/', '/'] + rest;
    assert(token[0] == if scheme.len() > 0 {
        scheme[0]
    } else {
        ':'
    });
    seqs::lemma_occurs_char(token, '/', 0);
}

/// A port in a URL makes no difference to the host that it is about.
pub proof fn law_port_in_a_url_makes_no_difference(
    scheme: Seq<char>,
    own: Seq<char>,
    port: Seq<char>,
    rest: Seq<char>,
    host: Seq<char>,
)
    requires
        scheme == "http"@ || scheme == "https"@ || scheme == "ws"@ || scheme == "wss"@ || scheme
            == "tunnel"@,
        seqs::lacks(own, '/') && seqs::lacks(own, '?') && seqs::lacks(own, '#'),
        seqs::lacks(own, '*') && seqs::lacks(own, ':'),
        seqs::lacks(port, '/') && seqs::lacks(port, '?') && seqs::lacks(port, '#'),
        seqs::lacks(port, '*'),
        seqs::lacks(rest, '*'),
        rest.len() == 0 || rest[0] == '/' || rest[0] == '?' || rest[0] == '#',
        own.len() > 0,
        seqs::lacks(host, ':'),
    ensures
        ({
            let token = scheme + seq![':', '/', '/'] + (own + seq![':'] + port + rest);
            &&& pattern_of(token) is Some
            &&& pattern_matches_host(pattern_of(token)->0, host) == seqs::same_ignoring_case(
                own,
                host,
            )
        }),
{
    reveal_strlit(":");
    assert(":"@ =~= seq![':']);
    let named = own + seq![':'] + port;
    let all = named + rest;
    assert forall|i: int| 0 <= i < named.len() implies #[trigger] named[i] != '*' && named[i] != '/'
        && named[i] != '?' && named[i] != '#' by {
        if i < own.len() {
            assert(named[i] == own[i]);
        } else if i > own.len() {
            assert(named[i] == port[i - own.len() - 1]);
        }
    }
    assert forall|i: int| 0 <= i < all.len() implies #[trigger] all[i] != '*' by {
        if i < named.len() {
            assert(all[i] == named[i]);
        } else {
            assert(all[i] == rest[i - named.len()]);
        }
    }
    lemma_url_token(scheme, all);
    seqs::law_authority_ends_at_the_path(named, rest);
    seqs::law_text_is_cut_at_the_first(own, ':', port);
    seqs::law_text_is_cut_at_the_first(host, ':', host);
    seqs::law_case_is_ignored_on_both_sides(own, host);
}

/// No pattern is about an empty host, with or without a port.
pub proof fn law_no_pattern_is_about_an_empty_host(m: PatternModel, port: Seq<char>)
    ensures
        !pattern_matches_host(m, Seq::empty()),
        !pattern_matches_host(m, seq![':'] + port),
{
    reveal_strlit(":");
    assert(":"@ =~= seq![':']);
    let none = Seq::<char>::empty();
    seqs::law_text_is_cut_at_the_first(none, ':', port);
    assert(none + seq![':'] + port =~= seq![':'] + port);
}

} // verus!
