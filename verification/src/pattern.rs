//! Regular-expression patterns: the prompt regex of a session and the
//! pattern a `wait` request looks for, compiled by the `regex` crate.
use crate::text::string_of;
use vstd::prelude::*;
use vstd::string::*;

verus! {

#[verifier::external_type_specification]
#[verifier::external_body]
pub struct ExRegex(regex::Regex);

#[verifier::external_type_specification]
#[verifier::external_body]
pub struct ExRegexError(regex::Error);

/// Whether `Regex::new` accepts `pattern` (default syntax and size limits).
pub uninterp spec fn regex_accepts(pattern: Seq<char>) -> bool;

/// Whether the regex compiled from `pattern` matches somewhere in `text`
/// (`Regex::is_match`).
pub uninterp spec fn regex_match(pattern: Seq<char>, text: Seq<char>) -> bool;

/// The text `String::from_utf8_lossy` makes of `bytes`.
pub uninterp spec fn utf8_lossy(bytes: Seq<u8>) -> Seq<char>;

/// The characters that `regex::escape` puts a backslash before.
pub open spec fn is_meta_character(c: char) -> bool {
    c == '\\' || c == '.' || c == '+' || c == '*' || c == '?' || c == '(' || c == ')' || c == '|'
        || c == '[' || c == ']' || c == '{' || c == '}' || c == '^' || c == '$' || c == '#' || c
        == '&' || c == '-' || c == '~'
}

/// `text` with a backslash before every meta character.
pub open spec fn spec_escape(text: Seq<char>) -> Seq<char>
    decreases text.len(),
{
    if text.len() == 0 {
        Seq::empty()
    } else if is_meta_character(text.last()) {
        spec_escape(text.drop_last()).push('\\').push(text.last())
    } else {
        spec_escape(text.drop_last()).push(text.last())
    }
}

/// `regex::escape`: each character of `text` in order, a backslash before
/// each meta character.
#[verifier::external_body]
fn regex_escape(text: &str) -> (r: String)
    ensures
        r@ == spec_escape(text@),
{
    regex::escape(text)
}

/// `Regex::new`: succeeds exactly on the patterns it accepts.
#[verifier::external_body]
fn regex_new(pattern: &str) -> (r: Result<regex::Regex, regex::Error>)
    ensures
        r is Ok <==> regex_accepts(pattern@),
{
    regex::Regex::new(pattern)
}

/// The `Display` text of a `regex::Error` (nothing is stated of it).
#[verifier::external_body]
fn regex_error_text(e: &regex::Error) -> String {
    format!("{}", e)
}

/// `String::from_utf8_lossy`, as an owned string.
#[verifier::external_body]
pub(crate) fn lossy_text(bytes: &[u8]) -> (r: String)
    ensures
        r@ == utf8_lossy(bytes@),
{
    String::from_utf8_lossy(bytes).into_owned()
}

/// A compiled regular expression together with the pattern it was
/// compiled from; only `compile` builds one.
#[derive(Debug)]
pub struct Pattern {
    source: String,
    re: regex::Regex,
}

impl View for Pattern {
    type V = Seq<char>;

    /// The pattern's source text.
    closed spec fn view(&self) -> Seq<char> {
        self.source@
    }
}

/// `Regex::is_match` on the regex of `p`, which `compile` built from `p`'s
/// source: whether it matches somewhere in `text`.
#[verifier::external_body]
fn regex_is_match(p: &Pattern, text: &str) -> (r: bool)
    ensures
        r == regex_match(p@, text@),
{
    p.re.is_match(text)
}

pub open spec fn starts_with(s: Seq<char>, prefix: Seq<char>) -> bool {
    prefix.len() <= s.len() && s.subrange(0, prefix.len() as int) == prefix
}

impl Pattern {
    /// Compiles `pattern`; the error reads `invalid regex: ` and the
    /// regex crate's message.
    pub fn compile(pattern: &str) -> (r: Result<Pattern, String>)
        ensures
            r is Ok <==> regex_accepts(pattern@),
            r matches Ok(p) ==> p@ == pattern@,
            r matches Err(msg) ==> starts_with(msg@, "invalid regex: "@),
    {
        match regex_new(pattern) {
            Ok(re) => Ok(Pattern { source: string_of(pattern), re }),
            Err(e) => {
                let mut msg = String::from_str("invalid regex: ");
                let detail = regex_error_text(&e);
                let ghost before = msg@;
                proof {
                    reveal_strlit("invalid regex: ");
                }
                msg.append(detail.as_str());
                assert(msg@.subrange(0, before.len() as int) =~= before);
                Err(msg)
            },
        }
    }

    /// The source text of the pattern.
    pub fn as_str(&self) -> (r: &str)
        ensures
            r@ == self@,
    {
        self.source.as_str()
    }

    /// Whether the pattern matches somewhere in `text`.
    pub fn is_match(&self, text: &str) -> (r: bool)
        ensures
            r == regex_match(self@, text@),
    {
        regex_is_match(self, text)
    }

    /// Whether the pattern matches somewhere in `bytes` read as UTF-8,
    /// invalid sequences replaced.
    pub fn matches_output(&self, bytes: &[u8]) -> (r: bool)
        ensures
            r == regex_match(self@, utf8_lossy(bytes@)),
    {
        let text = lossy_text(bytes);
        regex_is_match(self, text.as_str())
    }
}

/// The pattern a `wait` request looks for: `fixed` text is matched
/// literally (escaped; if even that does not compile the error is a bare
/// `invalid regex`), anything else as a regex.
pub fn wait_pattern(pattern: &str, fixed: bool) -> (r: Result<Pattern, String>)
    ensures
        fixed ==> (r is Ok <==> regex_accepts(spec_escape(pattern@))),
        fixed ==> (r matches Ok(p) ==> p@ == spec_escape(pattern@)),
        fixed ==> (r matches Err(msg) ==> msg@ == "invalid regex"@),
        !fixed ==> (r is Ok <==> regex_accepts(pattern@)),
        !fixed ==> (r matches Ok(p) ==> p@ == pattern@),
        !fixed ==> (r matches Err(msg) ==> starts_with(msg@, "invalid regex: "@)),
{
    if fixed {
        let escaped = regex_escape(pattern);
        match Pattern::compile(escaped.as_str()) {
            Ok(p) => Ok(p),
            Err(_) => Err(String::from_str("invalid regex")),
        }
    } else {
        Pattern::compile(pattern)
    }
}

/// The prompt regex a session is given: none for an absent or empty
/// prompt, otherwise the compiled prompt (or the compile error).
pub fn prompt_pattern(prompt: Option<&str>) -> (r: Result<Option<Pattern>, String>)
    ensures
        match prompt {
            Some(p) if p@.len() > 0 => {
                &&& (r is Ok <==> regex_accepts(p@))
                &&& (r matches Ok(q) ==> q matches Some(pat) && pat@ == p@)
                &&& (r matches Err(msg) ==> starts_with(msg@, "invalid regex: "@))
            },
            _ => r matches Ok(None),
        },
{
    match prompt {
        Some(p) => {
            if p.unicode_len() == 0 {
                Ok(None)
            } else {
                match Pattern::compile(p) {
                    Ok(pat) => Ok(Some(pat)),
                    Err(e) => Err(e),
                }
            }
        },
        None => Ok(None),
    }
}

} // verus!
