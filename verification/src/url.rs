//! Web addresses. An address is held as text, in the form that the URL parser writes.

use crate::text;
use vstd::prelude::*;

verus! {

/// What parsing `text` as a URL gives: the URL written out again, or why it is none.
pub uninterp spec fn url_parsed(text: Seq<char>) -> Result<Seq<char>, Seq<char>>;

/// What the reference `input` means at the URL `base`: the URL that it leads to, or why it
/// leads nowhere.
pub uninterp spec fn url_joined(base: Seq<char>, input: Seq<char>) -> Result<Seq<char>, Seq<char>>;

/// The path of the URL `text`.
pub uninterp spec fn url_path(text: Seq<char>) -> Seq<char>;

/// The query of the URL `text`, if it has one.
pub uninterp spec fn url_query(text: Seq<char>) -> Option<Seq<char>>;

/// The user name in the URL `text`, empty if it names none.
pub uninterp spec fn url_username(text: Seq<char>) -> Seq<char>;

/// The password in the URL `text`, if it has one.
pub uninterp spec fn url_password(text: Seq<char>) -> Option<Seq<char>>;

/// Calls `Url::parse`. The contract claims that the URL, written out, and the message of
/// an error depend on the text alone.
#[verifier::external_body]
fn parse_text(text: &str) -> (url: Result<String, String>)
    ensures
        text::text_result(url) == url_parsed(text@),
{
    match reqwest::Url::parse(text) {
        Ok(url) => Ok(String::from(url)),
        Err(e) => Err(e.to_string()),
    }
}

/// Calls `Url::join` on the URL that `base` is the text of. The contract claims that the
/// URL that comes out, written out, and the message of an error depend on the two texts
/// alone.
#[verifier::external_body]
fn join_text(base: &str, input: &str) -> (url: Result<String, String>)
    ensures
        text::text_result(url) == url_joined(base@, input@),
{
    match reqwest::Url::parse(base).and_then(|base| base.join(input)) {
        Ok(url) => Ok(String::from(url)),
        Err(e) => Err(e.to_string()),
    }
}

/// Calls `Url::path` on the URL that `text` is the text of. The contract claims that the
/// path depends on the text alone, and that only a text that is no URL has none.
#[verifier::external_body]
fn path_text(text: &str) -> (path: Result<String, String>)
    ensures
        match url_parsed(text@) {
            Ok(_) => text::text_result(path) == Ok::<_, Seq<char>>(url_path(text@)),
            Err(cause) => text::text_result(path) == Err::<Seq<char>, _>(cause),
        },
{
    match reqwest::Url::parse(text) {
        Ok(url) => Ok(url.path().to_string()),
        Err(e) => Err(e.to_string()),
    }
}

/// Calls `Url::query` on the URL that `text` is the text of. The contract claims that the
/// query depends on the text alone, and that the error is that of parsing the text.
#[verifier::external_body]
fn query_text(text: &str) -> (query: Result<Option<String>, String>)
    ensures
        match query {
            Ok(query) => url_parsed(text@) is Ok && text::opt_text(query) == url_query(text@),
            Err(cause) => url_parsed(text@) == Err::<Seq<char>, _>(cause@),
        },
{
    match reqwest::Url::parse(text) {
        Ok(url) => Ok(url.query().map(|query| query.to_string())),
        Err(e) => Err(e.to_string()),
    }
}

/// Calls `Url::username` on the URL that `text` is the text of. The contract claims that
/// the name depends on the text alone, and that only a text that is no URL gives nothing.
#[verifier::external_body]
pub(crate) fn username_text(text: &str) -> (username: Option<String>)
    ensures
        username is Some <==> url_parsed(text@) is Ok,
        username matches Some(name) ==> name@ == url_username(text@),
{
    reqwest::Url::parse(text).ok().map(|url| url.username().to_string())
}

/// Calls `Url::password` on the URL that `text` is the text of. The contract claims that
/// the password depends on the text alone.
#[verifier::external_body]
pub(crate) fn password_text(text: &str) -> (password: Option<Option<String>>)
    ensures
        password is Some <==> url_parsed(text@) is Ok,
        password matches Some(password) ==> text::opt_text(password) == url_password(text@),
{
    reqwest::Url::parse(text).ok().map(|url| url.password().map(|p| p.to_string()))
}

/// Parses a URL and writes it out again.
pub fn parse(text: &str) -> (url: Result<String, String>)
    ensures
        text::text_result(url) == url_parsed(text@),
{
    parse_text(text)
}

/// Resolves the reference `input` at the URL `base`.
pub fn join(base: &str, input: &str) -> (url: Result<String, String>)
    ensures
        text::text_result(url) == url_joined(base@, input@),
{
    join_text(base, input)
}

/// Resolves a reference that may be missing.
pub fn join_opt(base: &str, input: &Option<String>) -> (url: Option<Result<String, String>>)
    ensures
        match (*input, url) {
            (Some(input), Some(url)) => text::text_result(url) == url_joined(base@, input@),
            (None, None) => true,
            _ => false,
        },
{
    match input {
        Some(input) => Some(join(base, input.as_str())),
        None => None,
    }
}

/// The path of a URL, or why the text is no URL.
pub fn path(text: &str) -> (path: Result<String, String>)
    ensures
        match url_parsed(text@) {
            Ok(_) => text::text_result(path) == Ok::<_, Seq<char>>(url_path(text@)),
            Err(cause) => text::text_result(path) == Err::<Seq<char>, _>(cause),
        },
{
    path_text(text)
}

/// The query of a URL, or why the text is no URL.
pub fn query(text: &str) -> (query: Result<Option<String>, String>)
    ensures
        match query {
            Ok(query) => url_parsed(text@) is Ok && text::opt_text(query) == url_query(text@),
            Err(cause) => url_parsed(text@) == Err::<Seq<char>, _>(cause@),
        },
{
    query_text(text)
}

} // verus!
