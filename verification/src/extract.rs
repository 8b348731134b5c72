use crate::domain::{lemma_registrable_nonempty, parse_domain, split_domain};
use crate::suffix_index::SuffixIndex;
use crate::text::{chars_of, collapse_dots, collapse_double_dots, lowercase, trim, trimmed};
use regex::Regex;
use vstd::prelude::*;
use vstd::string::{StrSliceExecFns, StringExecFns};

verus! {

/// A compiled regular expression of the `regex` crate, opaque to the verifier.
#[verifier::external_type_specification]
#[verifier::external_body]
pub struct ExRegex(Regex);

/// What the `regex` crate reports of a pattern that it does not accept.
#[verifier::external_type_specification]
#[verifier::external_body]
pub struct ExRegexError(regex::Error);

/// The pattern that a regular expression was compiled from.
pub uninterp spec fn pattern_of(re: &Regex) -> Seq<char>;

/// The capture groups of the leftmost match of `pattern` in `text`: group 0
/// is the whole match, and a group that took no part in it is `None`. `None`
/// where `pattern` matches nowhere in `text`.
pub uninterp spec fn captures_of(pattern: Seq<char>, text: Seq<char>) -> Option<
    Seq<Option<Seq<char>>>,
>;

/// Whether the `regex` crate, with its default options, accepts `pattern`:
/// it is well formed, and what it compiles to is within the crate's size
/// limit.
pub uninterp spec fn compiles(pattern: Seq<char>) -> bool;

/// `Regex::new` compiles a pattern that the crate accepts, and reports why it
/// does not accept another. The compiled expression remembers the pattern it
/// came from.
pub assume_specification[ Regex::new ](re: &str) -> (compiled: Result<Regex, regex::Error>)
    ensures
        compiled is Ok <==> compiles(re@),
        compiled matches Ok(r) ==> pattern_of(&r) == re@,
;

/// `Regex::captures` searches `text` for the leftmost match and returns its
/// capture groups; the text of each group is copied out.
#[verifier::external_body]
pub(crate) fn captures(re: &Regex, text: &str) -> (groups: Option<Vec<Option<String>>>)
    ensures
        groups.deep_view() == captures_of(pattern_of(re), text@),
{
    re.captures(text).map(|caps| caps.iter().map(|m| m.map(|m| m.as_str().to_string())).collect())
}

/// The pattern of a line that names the credentials first:
/// `username[:;]password@domain`.
pub const CREDENTIALS_FIRST_PATTERN: &'static str =
    r"^([a-zA-Z0-9]+(?:[_\-\.][a-zA-Z0-9]*){0,10})[:;](.+)@((?:[a-zA-Z0-9](?:[a-zA-Z0-9-]{0,61}[a-zA-Z0-9])?\.{1,2})+[a-zA-Z0-9][a-zA-Z0-9]{0,61}[a-zA-Z0-9])\.{0,10}$";

/// The pattern of a line that names the domain first:
/// `username@domain[:;]password`.
pub const DOMAIN_FIRST_PATTERN: &'static str =
    r"^([a-zA-Z0-9]+(?:[_\-\.][a-zA-Z0-9]*){0,10})@((?:[a-zA-Z0-9](?:[a-zA-Z0-9-]{0,61}[a-zA-Z0-9])?\.{1,2})+[a-zA-Z0-9][a-zA-Z0-9]{0,61}[a-zA-Z0-9])\.{0,10}[:;](.+)$";

/// The longest username that is accepted, in characters.
pub const MAX_USERNAME_CHARS: usize = 40;

/// The two ways in which a line may be laid out.
#[derive(Clone, Copy, Debug, PartialEq, Eq, Structural)]
pub enum Layout {
    /// `username[:;]password@domain`
    CredentialsFirst,
    /// `username@domain[:;]password`
    DomainFirst,
}

/// Why a line gave no entry.
#[derive(Clone, Copy, Debug, PartialEq, Eq, Structural)]
pub enum ParseError {
    /// The line holds none of `:`, `;` and `@`.
    NoSeparator,
    /// The line does not match the pattern of its layout.
    PatternMismatch,
    /// The username has more than `MAX_USERNAME_CHARS` characters.
    UsernameTooLong,
    /// Nothing is left of the domain once it is normalized.
    EmptyDomain,
}

impl ParseError {
    /// A short description of the failure.
    pub fn message(&self) -> (text: &'static str)
        ensures
            text@ == match *self {
                ParseError::NoSeparator => "Failed to parse entry, separators were not found"@,
                ParseError::PatternMismatch => "Failed to parse entry"@,
                ParseError::UsernameTooLong => "username to long"@,
                ParseError::EmptyDomain => "domain is empty"@,
            },
    {
        match self {
            ParseError::NoSeparator => "Failed to parse entry, separators were not found",
            ParseError::PatternMismatch => "Failed to parse entry",
            ParseError::UsernameTooLong => "username to long",
            ParseError::EmptyDomain => "domain is empty",
        }
    }
}

/// Whether `c` separates the parts of a line.
pub open spec fn is_separator(c: char) -> bool {
    c == ':' || c == ';' || c == '@'
}

/// The first separator of `s`, if it has any.
pub open spec fn first_separator(s: Seq<char>) -> Option<char>
    decreases s.len(),
{
    if s.len() == 0 {
        None
    } else if is_separator(s[0]) {
        Some(s[0])
    } else {
        first_separator(s.drop_first())
    }
}

/// The layout that the first separator of a line selects: `@` the
/// domain-first one, `:` and `;` the credentials-first one.
pub open spec fn layout_of(s: Seq<char>) -> Option<Layout> {
    match first_separator(s) {
        None => None,
        Some(c) => if c == '@' {
            Some(Layout::DomainFirst)
        } else {
            Some(Layout::CredentialsFirst)
        },
    }
}

/// The pattern that belongs to a layout.
pub open spec fn pattern_for(layout: Layout) -> Seq<char> {
    match layout {
        Layout::CredentialsFirst => CREDENTIALS_FIRST_PATTERN@,
        Layout::DomainFirst => DOMAIN_FIRST_PATTERN@,
    }
}

/// Whether group `i` of `groups` took part in the match and is not empty.
pub open spec fn filled(groups: Seq<Option<Seq<char>>>, i: int) -> bool {
    groups[i] is Some && groups[i]->0.len() > 0
}

/// Username, domain and password as the capture groups of a layout's pattern
/// give them. Groups 1 to 3 must all have taken part in the match, and none
/// of them may be empty.
pub open spec fn fields_of(layout: Layout, groups: Option<Seq<Option<Seq<char>>>>) -> Result<
    (Seq<char>, Seq<char>, Seq<char>),
    ParseError,
> {
    match groups {
        None => Err(ParseError::PatternMismatch),
        Some(g) => if g.len() < 4 || !filled(g, 1) || !filled(g, 2) || !filled(g, 3) {
            Err(ParseError::PatternMismatch)
        } else {
            match layout {
                Layout::CredentialsFirst => Ok((g[1]->0, g[3]->0, g[2]->0)),
                Layout::DomainFirst => Ok((g[1]->0, g[2]->0, g[3]->0)),
            }
        },
    }
}

/// Username, domain and password of a line: the layout is chosen by the
/// first separator, and only that layout's pattern is tried.
pub open spec fn extraction(entry: Seq<char>) -> Result<
    (Seq<char>, Seq<char>, Seq<char>),
    ParseError,
> {
    match layout_of(entry) {
        None => Err(ParseError::NoSeparator),
        Some(layout) => fields_of(layout, captures_of(pattern_for(layout), entry)),
    }
}

/// The three strings of an extraction, by their characters.
pub open spec fn fields_view(r: Result<(String, String, String), ParseError>) -> Result<
    (Seq<char>, Seq<char>, Seq<char>),
    ParseError,
> {
    match r {
        Ok(f) => Ok((f.0@, f.1@, f.2@)),
        Err(e) => Err(e),
    }
}

/// A domain as it is stored: trimmed, in lowercase, double dots collapsed once.
pub open spec fn normalized(domain: Seq<char>) -> Seq<char> {
    collapse_dots(lowercase(trimmed(domain)))
}

/// The entry that extracted fields give, as username, password, subdomain
/// and registrable domain, against the suffix corpus `corpus`. The username
/// is measured first; then the domain is normalized and split.
pub open spec fn entry_from(
    username: Seq<char>,
    domain: Seq<char>,
    password: Seq<char>,
    corpus: Seq<char>,
) -> Result<(Seq<char>, Seq<char>, Seq<char>, Seq<char>), ParseError> {
    if username.len() > MAX_USERNAME_CHARS {
        Err(ParseError::UsernameTooLong)
    } else if normalized(domain).len() == 0 {
        Err(ParseError::EmptyDomain)
    } else {
        let parts = split_domain(normalized(domain), corpus);
        Ok((username, password, parts.0, parts.1))
    }
}

/// The entry that a line gives, against the suffix corpus `corpus`.
pub open spec fn entry_of(entry: Seq<char>, corpus: Seq<char>) -> Result<
    (Seq<char>, Seq<char>, Seq<char>, Seq<char>),
    ParseError,
> {
    match extraction(entry) {
        Err(e) => Err(e),
        Ok(f) => entry_from(f.0, f.1, f.2, corpus),
    }
}

/// An entry that a line gives has a username of one to `MAX_USERNAME_CHARS`
/// characters, a password that is not empty, and a registrable domain that
/// is not empty.
pub proof fn lemma_entry_is_sound(entry: Seq<char>, corpus: Seq<char>)
    ensures
        entry_of(entry, corpus) matches Ok(f) ==> 0 < f.0.len() <= MAX_USERNAME_CHARS
            && f.1.len() > 0 && f.3.len() > 0,
{
    if let Ok(x) = extraction(entry) {
        if normalized(x.1).len() > 0 {
            lemma_registrable_nonempty(normalized(x.1), corpus);
        }
    }
}

/// The four strings of an entry, by their characters.
pub open spec fn entry_view(r: Result<(String, String, String, String), ParseError>) -> Result<
    (Seq<char>, Seq<char>, Seq<char>, Seq<char>),
    ParseError,
> {
    match r {
        Ok(f) => Ok((f.0@, f.1@, f.2@, f.3@)),
        Err(e) => Err(e),
    }
}

/// The layout that the first separator of `entry` selects.
pub fn detect_layout(entry: &str) -> (layout: Option<Layout>)
    ensures
        layout == layout_of(entry@),
{
    let v = chars_of(entry);
    let mut i: usize = 0;
    proof {
        assert(v@.subrange(0, v@.len() as int) =~= v@);
    }
    while i < v.len()
        invariant
            i <= v.len(),
            v@ == entry@,
            first_separator(entry@) == first_separator(v@.subrange(i as int, v@.len() as int)),
        decreases v.len() - i,
    {
        let c = v[i];
        if c == '@' {
            return Some(Layout::DomainFirst);
        }
        if c == ':' || c == ';' {
            return Some(Layout::CredentialsFirst);
        }
        proof {
            assert(v@.subrange(i as int, v@.len() as int).drop_first() =~= v@.subrange(
                i + 1,
                v@.len() as int,
            ));
        }
        i += 1;
    }
    None
}

/// Username, domain and password out of the capture groups that the pattern
/// of `layout` gave.
pub fn fields_from_captures(layout: Layout, groups: Option<Vec<Option<String>>>) -> (fields: Result<
    (String, String, String),
    ParseError,
>)
    ensures
        fields_view(fields) == fields_of(layout, groups.deep_view()),
{
    let mut g = match groups {
        None => {
            return Err(ParseError::PatternMismatch);
        },
        Some(g) => g,
    };
    let ghost all = g.deep_view();
    proof {
        assert(groups.deep_view() == Some(all));
        assert(all.len() == g@.len());
    }
    if g.len() < 4 {
        return Err(ParseError::PatternMismatch);
    }
    proof {
        assert(all[1] == g@[1].deep_view());
        assert(all[2] == g@[2].deep_view());
        assert(all[3] == g@[3].deep_view());
    }
    g.truncate(4);
    let third = g.pop();
    let second = g.pop();
    let first = g.pop();
    match (first, second, third) {
        (Some(Some(a)), Some(Some(b)), Some(Some(c))) => {
            if a.as_str().is_empty() || b.as_str().is_empty() || c.as_str().is_empty() {
                return Err(ParseError::PatternMismatch);
            }
            match layout {
                Layout::CredentialsFirst => Ok((a, c, b)),
                Layout::DomainFirst => Ok((a, b, c)),
            }
        },
        _ => Err(ParseError::PatternMismatch),
    }
}

/// The compiled patterns of the two layouts.
pub struct Patterns {
    credentials_first: Regex,
    domain_first: Regex,
}

impl Patterns {
    #[verifier::type_invariant]
    spec fn compiled_from_layouts(&self) -> bool {
        &&& pattern_of(&self.credentials_first) == CREDENTIALS_FIRST_PATTERN@
        &&& pattern_of(&self.domain_first) == DOMAIN_FIRST_PATTERN@
    }

    /// The pattern that the expression kept for `layout` was compiled from.
    pub closed spec fn pattern(&self, layout: Layout) -> Seq<char> {
        match layout {
            Layout::CredentialsFirst => pattern_of(&self.credentials_first),
            Layout::DomainFirst => pattern_of(&self.domain_first),
        }
    }

    /// Compiles the pattern of each layout. What comes back holds, for each
    /// layout, the expression compiled from that layout's pattern; `None`
    /// where the `regex` crate rejects one of the two.
    pub fn new() -> (patterns: Option<Patterns>)
        ensures
            patterns is Some <==> compiles(CREDENTIALS_FIRST_PATTERN@) && compiles(
                DOMAIN_FIRST_PATTERN@,
            ),
            patterns matches Some(p) ==> p.pattern(Layout::CredentialsFirst)
                == CREDENTIALS_FIRST_PATTERN@ && p.pattern(Layout::DomainFirst)
                == DOMAIN_FIRST_PATTERN@,
    {
        let credentials_first = match Regex::new(CREDENTIALS_FIRST_PATTERN) {
            Ok(r) => r,
            Err(_) => {
                return None;
            },
        };
        let domain_first = match Regex::new(DOMAIN_FIRST_PATTERN) {
            Ok(r) => r,
            Err(_) => {
                return None;
            },
        };
        Some(Patterns { credentials_first, domain_first })
    }

    /// The capture groups that the pattern of `layout` finds in `entry`.
    pub fn capture(&self, layout: Layout, entry: &str) -> (groups: Option<Vec<Option<String>>>)
        ensures
            groups.deep_view() == captures_of(pattern_for(layout), entry@),
    {
        proof {
            use_type_invariant(self);
        }
        match layout {
            Layout::CredentialsFirst => captures(&self.credentials_first, entry),
            Layout::DomainFirst => captures(&self.domain_first, entry),
        }
    }
}

/// Extracts username, domain and password from a line.
pub fn regex_extract(entry: &str, patterns: &Patterns) -> (fields: Result<
    (String, String, String),
    ParseError,
>)
    ensures
        fields_view(fields) == extraction(entry@),
{
    match detect_layout(entry) {
        None => Err(ParseError::NoSeparator),
        Some(layout) => fields_from_captures(layout, patterns.capture(layout, entry)),
    }
}

/// Trims a domain, puts it in lowercase and collapses its double dots.
pub fn normalize_domain(domain: &str) -> (label: String)
    ensures
        label@ == normalized(domain@),
{
    let kept = trim(domain);
    let lower = kept.as_str().to_lowercase();
    collapse_double_dots(lower.as_str())
}

/// Checks the fields that were extracted from a line and splits the domain.
pub fn entry_from_fields(username: String, domain: &str, password: String, st: &SuffixIndex) -> (parsed:
    Result<(String, String, String, String), ParseError>)
    ensures
        entry_view(parsed) == entry_from(username@, domain@, password@, st.corpus()),
        parsed matches Ok(f) ==> f.0@.len() <= MAX_USERNAME_CHARS && f.3@.len() > 0,
{
    if username.as_str().unicode_len() > MAX_USERNAME_CHARS {
        return Err(ParseError::UsernameTooLong);
    }
    let label = normalize_domain(domain);
    if label.as_str().unicode_len() == 0 {
        return Err(ParseError::EmptyDomain);
    }
    proof {
        lemma_registrable_nonempty(label@, st.corpus());
    }
    let (subdomain, registrable) = parse_domain(label.as_str(), st);
    Ok((username, password, String::from_str(subdomain), String::from_str(registrable)))
}

/// Parses a line into username, password, subdomain and registrable domain.
pub fn parse_entry(entry: &str, patterns: &Patterns, st: &SuffixIndex) -> (parsed: Result<
    (String, String, String, String),
    ParseError,
>)
    ensures
        entry_view(parsed) == entry_of(entry@, st.corpus()),
        parsed matches Ok(f) ==> 0 < f.0@.len() <= MAX_USERNAME_CHARS && f.1@.len() > 0
            && f.3@.len() > 0,
{
    proof {
        lemma_entry_is_sound(entry@, st.corpus());
    }
    match regex_extract(entry, patterns) {
        Err(e) => Err(e),
        Ok((username, domain, password)) => entry_from_fields(
            username,
            domain.as_str(),
            password,
            st,
        ),
    }
}

} // verus!
