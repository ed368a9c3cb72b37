use crate::text::{contains_token, occurs_at, occurs_in, starts_with_token};
use crate::wordlist::{lowercase_of, to_lowercase};
use vstd::prelude::*;
use vstd::string::StringExecFns;

verus! {

/// What the logic reads of a parsed URL.
#[derive(Clone, Debug)]
pub struct UrlParts {
    pub scheme: String,
    pub host: Option<String>,
    /// The URL without its query and its fragment: all up to the end of the
    /// path.
    pub base: String,
    pub path: String,
    pub query: Option<String>,
}

/// The parts of a URL as plain values.
pub struct UrlText {
    pub scheme: Seq<char>,
    pub host: Option<Seq<char>>,
    pub base: Seq<char>,
    pub path: Seq<char>,
    pub query: Option<Seq<char>>,
}

/// An optional string as plain values.
pub open spec fn text_of(s: Option<String>) -> Option<Seq<char>> {
    match s {
        Some(t) => Some(t@),
        None => None,
    }
}

impl View for UrlParts {
    type V = UrlText;

    open spec fn view(&self) -> UrlText {
        UrlText {
            scheme: self.scheme@,
            host: text_of(self.host),
            base: self.base@,
            path: self.path@,
            query: text_of(self.query),
        }
    }
}

/// Optional parts as plain values.
pub open spec fn parts_of(parts: Option<UrlParts>) -> Option<UrlText> {
    match parts {
        Some(p) => Some(p@),
        None => None,
    }
}

/// What parsing a text as an absolute URL gives: its parts, or nothing where
/// the text is no such URL.
pub uninterp spec fn parsed_url(text: Seq<char>) -> Option<UrlText>;

/// Parses an absolute URL. Trusted: `url::Url::parse` decides from the text
/// alone whether it is a URL, and the getters `scheme`, `host_str`, `path`
/// and `query` and the slice up to `Position::AfterPath` read the parts of
/// what it built; nothing is claimed of what they hold.
#[verifier::external_body]
pub(crate) fn parse_url(text: &str) -> (parts: Option<UrlParts>)
    ensures
        parts_of(parts) == parsed_url(text@),
{
    match url::Url::parse(text) {
        Ok(parsed) => Some(
            UrlParts {
                scheme: parsed.scheme().to_string(),
                host: parsed.host_str().map(String::from),
                base: parsed[..url::Position::AfterPath].to_string(),
                path: parsed.path().to_string(),
                query: parsed.query().map(String::from),
            },
        ),
        Err(_) => None,
    }
}

/// The host of a URL, empty where it has none.
pub open spec fn host_text(parts: UrlText) -> Seq<char> {
    match parts.host {
        Some(h) => h,
        None => Seq::empty(),
    }
}

/// Scheme and host of a URL, without path, query and the rest.
pub open spec fn origin_text(parts: UrlText) -> Seq<char> {
    parts.scheme + "://"@ + host_text(parts)
}

/// The path of a URL with its query directly behind it.
pub open spec fn full_path(parts: UrlText) -> Seq<char> {
    match parts.query {
        Some(q) => parts.path + q,
        None => parts.path,
    }
}

/// Scheme and host of parsed parts.
pub fn origin(parts: &UrlParts) -> (out: String)
    ensures
        out@ == origin_text(parts@),
{
    let mut out = parts.scheme.clone();
    out.append("://");
    match &parts.host {
        Some(h) => {
            out.append(h.as_str());
        },
        None => {
            assert(out@ + Seq::<char>::empty() == out@);
        },
    }
    out
}

/// Scheme and host of a URL: what a fingerprinting tool is pointed at, and
/// the template of a virtual-host run. Nothing where the text is no URL.
pub fn cleaned_url(url: &str) -> (out: Option<String>)
    ensures
        text_of(out) == match parsed_url(url@) {
            Some(parts) => Some(origin_text(parts)),
            None => None,
        },
{
    match parse_url(url) {
        Some(parts) => Some(origin(&parts)),
        None => None,
    }
}

/// What kind of run a URL asks for.
#[derive(Clone, Copy, Debug, PartialEq, Eq, Structural)]
pub enum Mode {
    /// The placeholder is the first label of the host: candidate subdomains.
    Host,
    /// The placeholder stands in the path or the query: candidate paths.
    Path,
    /// The placeholder stands in neither place.
    Neither,
    /// The text is no URL.
    Unparsed,
}

/// The run for a host and a path with its query, the latter in lower case:
/// a host that begins with the sentinel label wins over the path.
pub open spec fn mode_of(host: Seq<char>, lowered_path: Seq<char>) -> Mode {
    if occurs_at(host, "fuzz."@, 0) {
        Mode::Host
    } else if occurs_in(lowered_path, "fuzz"@) {
        Mode::Path
    } else {
        Mode::Neither
    }
}

/// The run that a URL asks for.
pub open spec fn selected(url: Seq<char>) -> Mode {
    match parsed_url(url) {
        Some(parts) => mode_of(host_text(parts), lowercase_of(full_path(parts))),
        None => Mode::Unparsed,
    }
}

/// Chooses the run for a host and a path with its query, the latter already
/// in lower case.
pub fn mode_for(host: &str, lowered_path: &str) -> (mode: Mode)
    ensures
        mode == mode_of(host@, lowered_path@),
{
    if starts_with_token(host, "fuzz.") {
        Mode::Host
    } else if contains_token(lowered_path, "fuzz") {
        Mode::Path
    } else {
        Mode::Neither
    }
}

/// Chooses the run that a URL asks for.
pub fn select_mode(url: &str) -> (mode: Mode)
    ensures
        mode == selected(url@),
{
    match parse_url(url) {
        Some(parts) => {
            let mut path = parts.path.clone();
            match &parts.query {
                Some(q) => {
                    path.append(q.as_str());
                },
                None => {},
            }
            let lowered = to_lowercase(path.as_str());
            match &parts.host {
                Some(h) => mode_for(h.as_str(), lowered.as_str()),
                None => {
                    proof {
                        reveal_strlit("");
                        assert(""@ =~= Seq::<char>::empty());
                    }
                    mode_for("", lowered.as_str())
                },
            }
        },
        None => Mode::Unparsed,
    }
}

} // verus!
