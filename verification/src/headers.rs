//! The headers that are sent with every request.

use crate::text;
use reqwest::header::{HeaderMap, HeaderName, HeaderValue};
use vstd::prelude::*;
use vstd::utf8::*;

verus! {

/// A map from header names to values.
#[verifier::external_type_specification]
#[verifier::external_body]
#[verifier::reject_recursive_types(T)]
pub struct ExHeaderMap<T>(reqwest::header::HeaderMap<T>);

/// The value of a header.
#[verifier::external_type_specification]
#[verifier::external_body]
pub struct ExHeaderValue(reqwest::header::HeaderValue);

/// What a map holds: for each name, in lower case, its values.
pub uninterp spec fn header_entries(map: HeaderMap<HeaderValue>) -> Map<Seq<char>, Seq<Seq<u8>>>;

/// A map that holds fewer names than this has room for another: it is full only once its
/// table, of 32768 places, is more than a fifth full.
pub const ROOM: usize = 6554;

/// A character that may stand in the name of a header.
pub open spec fn is_name_char(c: char) -> bool {
    ||| '0' <= c <= '9'
    ||| 'a' <= c <= 'z'
    ||| 'A' <= c <= 'Z'
    ||| "!#$%&'*+-.^_`|~"@.contains(c)
}

/// The name of a header.
pub open spec fn is_header_name(name: Seq<char>) -> bool {
    &&& 0 < name.len() <= 0xffff
    &&& forall|i: int| 0 <= i < name.len() ==> is_name_char(#[trigger] name[i])
}

/// A letter between `A` and `Z` in lower case; any other character as it is.
pub open spec fn lower_char(c: char) -> char {
    if 'A' <= c <= 'Z' {
        (c as u32 + 32) as char
    } else {
        c
    }
}

/// `name` in lower case.
pub open spec fn lower(name: Seq<char>) -> Seq<char> {
    name.map_values(|c: char| lower_char(c))
}

/// The value of a header: it holds no control character but tabs.
pub open spec fn is_header_value(value: Seq<char>) -> bool {
    forall|i: int|
        0 <= i < value.len() ==> (#[trigger] value[i] == '\t' || (' ' <= value[i] && value[i]
            != '\u{7f}'))
}

/// Calls `HeaderMap::new`, which gives an empty map.
#[verifier::external_body]
fn no_headers() -> (map: HeaderMap<HeaderValue>)
    ensures
        header_entries(map).dom() == Set::<Seq<char>>::empty(),
{
    HeaderMap::new()
}

/// Parses a `HeaderName`. The contract claims which texts are names.
#[verifier::external_body]
fn parses_as_name(text: &str) -> (valid: bool)
    ensures
        valid == is_header_name(text@),
{
    text.parse::<HeaderName>().is_ok()
}

/// Parses a `HeaderValue`. The contract claims which texts are values.
#[verifier::external_body]
fn parses_as_value(text: &str) -> (valid: bool)
    ensures
        valid == is_header_value(text@),
{
    text.parse::<HeaderValue>().is_ok()
}

/// Calls `HeaderMap::try_insert` with the name and the value that the texts parse as. The
/// contract claims that a name is kept in lower case, that the value replaces all values of
/// the name, and that it is refused only where the map holds many names. What a map holds
/// after a refusal is left open.
#[verifier::external_body]
fn insert(map: &mut HeaderMap<HeaderValue>, name: &str, value: &str) -> (done: bool)
    requires
        is_header_name(name@),
        is_header_value(value@),
    ensures
        done ==> header_entries(*final(map)) == header_entries(*old(map)).insert(
            lower(name@),
            seq![encode_utf8(value@)],
        ),
        header_entries(*old(map)).dom().len() < ROOM ==> done,
{
    let name = name.parse::<HeaderName>().unwrap();
    let value = value.parse::<HeaderValue>().unwrap();
    map.try_insert(name, value).is_ok()
}

/// Why the headers cannot be sent. `T` is text.
#[derive(Debug, PartialEq, Eq)]
pub enum HeaderError<T> {
    /// This is no name of a header.
    Name(T),
    /// This is no value of a header.
    Value(T),
    /// This is no value of a cookie header.
    Cookie(T),
    /// There are too many headers.
    TooMany,
}

impl View for HeaderError<String> {
    type V = HeaderError<Seq<char>>;

    open spec fn view(&self) -> HeaderError<Seq<char>> {
        match self {
            HeaderError::Name(name) => HeaderError::Name(name@),
            HeaderError::Value(value) => HeaderError::Value(value@),
            HeaderError::Cookie(cookie) => HeaderError::Cookie(cookie@),
            HeaderError::TooMany => HeaderError::TooMany,
        }
    }
}

/// What a list of headers holds, or what is wrong with it.
pub type HeadersView = Result<Map<Seq<char>, Seq<Seq<u8>>>, HeaderError<Seq<char>>>;

/// What a header line says, without white space around the name and the value. A line
/// without a colon says nothing.
pub open spec fn line_meaning(line: Seq<char>) -> Option<
    Result<(Seq<char>, Seq<char>), HeaderError<Seq<char>>>,
> {
    match text::cut_once(line, ':') {
        None => None,
        Some((name, value)) => if !is_header_name(text::trimmed(name)) {
            Some(Err(HeaderError::Name(name)))
        } else if !is_header_value(text::trimmed(value)) {
            Some(Err(HeaderError::Value(value)))
        } else {
            Some(Ok((text::trimmed(name), text::trimmed(value))))
        },
    }
}

/// What the first `n` lines hold: each name with the value that it was given last.
pub open spec fn lines_entries(lines: Seq<Seq<char>>, n: nat) -> HeadersView
    decreases n,
{
    if n == 0 {
        Ok(Map::empty())
    } else {
        match (lines_entries(lines, (n - 1) as nat), line_meaning(lines[n - 1])) {
            (Err(e), _) => Err(e),
            (Ok(_), Some(Err(e))) => Err(e),
            (Ok(entries), None) => Ok(entries),
            (Ok(entries), Some(Ok((name, value)))) => Ok(
                entries.insert(lower(name), seq![encode_utf8(value)]),
            ),
        }
    }
}

/// What the lines and the cookie hold.
pub open spec fn headers_of(lines: Seq<Seq<char>>, cookie: Option<Seq<char>>) -> HeadersView {
    match (lines_entries(lines, lines.len()), cookie) {
        (Err(e), _) => Err(e),
        (Ok(entries), None) => Ok(entries),
        (Ok(entries), Some(cookie)) => if is_header_value(cookie) {
            Ok(entries.insert("cookie"@, seq![encode_utf8(cookie)]))
        } else {
            Err(HeaderError::Cookie(cookie))
        },
    }
}

/// The characters of each line.
pub open spec fn line_texts(lines: Seq<String>) -> Seq<Seq<char>> {
    lines.map_values(|line: String| line@)
}

proof fn lemma_first_error_stays(lines: Seq<Seq<char>>, n: nat, m: nat)
    requires
        n <= m,
    ensures
        lines_entries(lines, n) matches Err(e) ==> lines_entries(lines, m) == HeadersView::Err(e),
    decreases m,
{
    if n < m {
        lemma_first_error_stays(lines, n, (m - 1) as nat);
    }
}

proof fn lemma_cookie_is_a_name()
    ensures
        is_header_name("cookie"@),
        lower("cookie"@) == "cookie"@,
{
    reveal_strlit("cookie");
    assert(lower("cookie"@) =~= "cookie"@);
}

/// The headers to send: those that the lines say and the cookie. It fails with the first
/// line that is wrong, and can fail for want of room only once very many names are there.
pub fn build_headers(lines: &Vec<String>, cookie: &Option<String>) -> (map: Result<
    HeaderMap<HeaderValue>,
    HeaderError<String>,
>)
    ensures
        match map {
            Ok(map) => headers_of(line_texts(lines@), text::opt_text(*cookie)) == HeadersView::Ok(
                header_entries(map),
            ),
            Err(HeaderError::TooMany) => exists|n: nat|
                n <= lines@.len() && (#[trigger] lines_entries(line_texts(lines@), n)) is Ok
                    && lines_entries(line_texts(lines@), n)->Ok_0.dom().len() >= ROOM,
            Err(e) => headers_of(line_texts(lines@), text::opt_text(*cookie)) == HeadersView::Err(
                e@,
            ),
        },
{
    let ghost all = line_texts(lines@);
    let mut map = no_headers();
    assert(header_entries(map) =~= Map::empty());
    let mut i: usize = 0;
    while i < lines.len()
        invariant
            i <= lines.len(),
            all == line_texts(lines@),
            lines_entries(all, i as nat) == HeadersView::Ok(header_entries(map)),
            header_entries(map).dom().finite(),
            header_entries(map).dom().len() <= i,
        decreases lines.len() - i,
    {
        let line = &lines[i];
        proof {
            assert(all[i as int] == line@);
            lemma_first_error_stays(all, (i + 1) as nat, all.len());
        }
        if let Some((name, value)) = text::split_once(line.as_str(), ':') {
            let trimmed_name = text::trim(name.as_str());
            let trimmed_value = text::trim(value.as_str());
            if !parses_as_name(trimmed_name.as_str()) {
                return Err(HeaderError::Name(name));
            }
            if !parses_as_value(trimmed_value.as_str()) {
                return Err(HeaderError::Value(value));
            }
            if !insert(&mut map, trimmed_name.as_str(), trimmed_value.as_str()) {
                return Err(HeaderError::TooMany);
            }
        }
        i = i + 1;
    }
    if let Some(cookie) = cookie {
        if !parses_as_value(cookie.as_str()) {
            return Err(HeaderError::Cookie(cookie.clone()));
        }
        proof {
            lemma_cookie_is_a_name();
        }
        if !insert(&mut map, "cookie", cookie.as_str()) {
            return Err(HeaderError::TooMany);
        }
    }
    Ok(map)
}

/// A cookie that is given replaces what the lines say about cookies, however they write the
/// name.
pub proof fn law_given_cookie_is_sent(lines: Seq<Seq<char>>, cookie: Seq<char>)
    ensures
        headers_of(lines, Some(cookie)) matches Ok(entries) ==> entries.contains_key("cookie"@)
            && entries["cookie"@] == seq![encode_utf8(cookie)],
{
}

/// A header has the value that the last line with its name says, whatever other lines say
/// before it and of other names.
pub proof fn law_last_line_decides(
    lines: Seq<Seq<char>>,
    cookie: Option<Seq<char>>,
    n: nat,
    name: Seq<char>,
    value: Seq<char>,
)
    requires
        n < lines.len(),
        line_meaning(lines[n as int]) == Some(Ok::<_, HeaderError<Seq<char>>>((name, value))),
        forall|m: int|
            n < m < lines.len() ==> (line_meaning(#[trigger] lines[m]) matches Some(Ok((other, _)))
                ==> lower(other) != lower(name)),
        cookie is Some ==> lower(name) != "cookie"@,
    ensures
        headers_of(lines, cookie) matches Ok(entries) ==> entries.contains_key(lower(name))
            && entries[lower(name)] == seq![encode_utf8(value)],
{
    lemma_later_lines_keep(lines, n, lines.len(), name, value);
}

proof fn lemma_later_lines_keep(
    lines: Seq<Seq<char>>,
    n: nat,
    end: nat,
    name: Seq<char>,
    value: Seq<char>,
)
    requires
        n < end <= lines.len(),
        line_meaning(lines[n as int]) == Some(Ok::<_, HeaderError<Seq<char>>>((name, value))),
        forall|m: int|
            n < m < end ==> (line_meaning(#[trigger] lines[m]) matches Some(Ok((other, _)))
                ==> lower(other) != lower(name)),
    ensures
        lines_entries(lines, end) matches Ok(entries) ==> entries.contains_key(lower(name))
            && entries[lower(name)] == seq![encode_utf8(value)],
    decreases end,
{
    if n + 1 < end {
        lemma_later_lines_keep(lines, n, (end - 1) as nat, name, value);
        assert(n < end - 1 < end);
    }
}

/// Every header that is sent was asked for, by a line or by the cookie.
pub proof fn law_every_header_was_asked_for(
    lines: Seq<Seq<char>>,
    cookie: Option<Seq<char>>,
    name: Seq<char>,
)
    requires
        headers_of(lines, cookie) is Ok,
        headers_of(lines, cookie)->Ok_0.contains_key(name),
    ensures
        (cookie is Some && name == "cookie"@) || exists|n: int|
            0 <= n < lines.len() && says(#[trigger] lines[n], name),
{
    if !(cookie is Some && name == "cookie"@) {
        lemma_entries_come_from_lines(lines, lines.len(), name);
    }
}

/// Whether a line gives the header `name`, in lower case, a value.
pub open spec fn says(line: Seq<char>, name: Seq<char>) -> bool {
    line_meaning(line) matches Some(Ok((given, _))) && lower(given) == name
}

proof fn lemma_entries_come_from_lines(lines: Seq<Seq<char>>, n: nat, name: Seq<char>)
    requires
        n <= lines.len(),
        lines_entries(lines, n) is Ok,
        lines_entries(lines, n)->Ok_0.contains_key(name),
    ensures
        exists|m: int| 0 <= m < n && says(#[trigger] lines[m], name),
    decreases n,
{
    if n > 0 && !says(lines[n - 1], name) {
        lemma_entries_come_from_lines(lines, (n - 1) as nat, name);
        let m = choose|m: int| 0 <= m < n - 1 && says(#[trigger] lines[m], name);
        assert(says(lines[m], name));
    }
}

/// The case in which a name is written does not matter.
pub proof fn law_names_ignore_case(name: Seq<char>)
    ensures
        lower(lower(name)) == lower(name),
{
    assert(lower(lower(name)) =~= lower(name));
}

/// A line without a colon is passed over.
pub proof fn law_line_without_colon_says_nothing(lines: Seq<Seq<char>>, n: nat)
    requires
        n < lines.len(),
        !lines[n as int].contains(':'),
    ensures
        lines_entries(lines, n + 1) == lines_entries(lines, n),
{
}

/// What a line says is the name before its first colon and the value behind it, both without
/// the white space around them. A name that is none is reported before a value that is none,
/// and both as they were written.
pub proof fn law_meaning_of_a_line(name: Seq<char>, value: Seq<char>)
    requires
        !name.contains(':'),
    ensures
        ({
            let meaning = line_meaning(name + seq![':'] + value);
            if !is_header_name(text::trimmed(name)) {
                meaning == Some(
                    Err::<(Seq<char>, Seq<char>), HeaderError<Seq<char>>>(HeaderError::Name(name)),
                )
            } else if !is_header_value(text::trimmed(value)) {
                meaning == Some(
                    Err::<(Seq<char>, Seq<char>), HeaderError<Seq<char>>>(
                        HeaderError::Value(value),
                    ),
                )
            } else {
                meaning == Some(
                    Ok::<_, HeaderError<Seq<char>>>((text::trimmed(name), text::trimmed(value))),
                )
            }
        }),
        line_meaning(name) is None,
{
    text::law_cutting_undoes_joining(name, ':', value);
}

/// What a line asks for is not in the way of anything.
pub open spec fn line_is_fine(line: Seq<char>) -> bool {
    line_meaning(line) matches Some(meaning) ==> meaning is Ok
}

/// Headers can be sent exactly where every line and the cookie are fine. Else the first line
/// that is not is reported, and the cookie only where all lines are fine.
pub proof fn law_first_wrong_line_is_reported(lines: Seq<Seq<char>>, cookie: Option<Seq<char>>)
    ensures
        match headers_of(lines, cookie) {
            Ok(_) => {
                &&& forall|i: int| 0 <= i < lines.len() ==> line_is_fine(#[trigger] lines[i])
                &&& cookie is Some ==> is_header_value(cookie->0)
            },
            Err(e) => {
                ||| exists|i: int|
                    {
                        &&& 0 <= i < lines.len()
                        &&& line_meaning(#[trigger] lines[i]) == Some(
                            Err::<(Seq<char>, Seq<char>), _>(e),
                        )
                        &&& forall|j: int| 0 <= j < i ==> line_is_fine(#[trigger] lines[j])
                    }
                ||| {
                    &&& forall|i: int| 0 <= i < lines.len() ==> line_is_fine(#[trigger] lines[i])
                    &&& cookie is Some
                    &&& !is_header_value(cookie->0)
                    &&& e == HeaderError::Cookie(cookie->0)
                }
            },
        },
{
    lemma_first_wrong_line(lines, lines.len());
}

proof fn lemma_first_wrong_line(lines: Seq<Seq<char>>, n: nat)
    requires
        n <= lines.len(),
    ensures
        match lines_entries(lines, n) {
            Ok(_) => forall|i: int| 0 <= i < n ==> line_is_fine(#[trigger] lines[i]),
            Err(e) => exists|i: int|
                {
                    &&& 0 <= i < n
                    &&& line_meaning(#[trigger] lines[i]) == Some(
                        Err::<(Seq<char>, Seq<char>), _>(e),
                    )
                    &&& forall|j: int| 0 <= j < i ==> line_is_fine(#[trigger] lines[j])
                },
        },
    decreases n,
{
    if n > 0 {
        lemma_first_wrong_line(lines, (n - 1) as nat);
        let last = lines[n - 1];
        assert(line_is_fine(last) || line_meaning(last)->0 is Err);
    }
}

/// A name is in lower case where each of its letters is, and is the same otherwise.
pub proof fn law_lower_case(name: Seq<char>, i: int)
    requires
        0 <= i < name.len(),
    ensures
        lower(name).len() == name.len(),
        'A' <= name[i] <= 'Z' ==> lower(name)[i] as u32 == name[i] as u32 + 32,
        !('A' <= name[i] <= 'Z') ==> lower(name)[i] == name[i],
{
}

/// A name has from one to 65535 characters, which are letters and digits of ASCII and the
/// marks that a token may have. A value has no control characters but tabs.
pub proof fn law_names_and_values(text: Seq<char>)
    ensures
        is_header_name(text) <==> {
            &&& 1 <= text.len() <= 65535
            &&& forall|i: int|
                0 <= i < text.len() ==> {
                    let c = #[trigger] text[i];
                    ||| 'a' <= c <= 'z'
                    ||| 'A' <= c <= 'Z'
                    ||| '0' <= c <= '9'
                    ||| seq![
                        '!',
                        '#',
                        '$',
                        '%',
                        '&',
                        '\'',
                        '*',
                        '+',
                        '-',
                        '.',
                        '^',
                        '_',
                        '`',
                        '|',
                        '~',
                    ].contains(c)
                }
        },
        is_header_value(text) <==> forall|i: int|
            0 <= i < text.len() ==> {
                let c = #[trigger] text[i];
                c == '\u{9}' || ('\u{20}' <= c && c != '\u{7f}')
            },
{
    reveal_strlit("!#$%&'*+-.^_`|~");
    let marks = seq![
        '!',
        '#',
        '$',
        '%',
        '&',
        '\'',
        '*',
        '+',
        '-',
        '.',
        '^',
        '_',
        '`',
        '|',
        '~',
    ];
    assert("!#$%&'*+-.^_`|~"@ =~= marks);
}

/// Every line keeps its own: what the lines before say of other names stays, and the cookie
/// touches no other header.
pub proof fn law_other_headers_are_kept(
    lines: Seq<Seq<char>>,
    line: Seq<char>,
    cookie: Seq<char>,
    name: Seq<char>,
)
    requires
        headers_of(lines, None) is Ok,
    ensures
        !says(line, name) ==> (headers_of(lines.push(line), None) matches Ok(entries) ==> {
            let before = headers_of(lines, None)->Ok_0;
            &&& entries.contains_key(name) <==> before.contains_key(name)
            &&& before.contains_key(name) ==> entries[name] == before[name]
        }),
        name != "cookie"@ ==> (headers_of(lines, Some(cookie)) matches Ok(entries) ==> {
            let before = headers_of(lines, None)->Ok_0;
            &&& entries.contains_key(name) <==> before.contains_key(name)
            &&& before.contains_key(name) ==> entries[name] == before[name]
        }),
{
    let more = lines.push(line);
    lemma_prefix_entries(lines, more, lines.len());
    assert(more[lines.len() as int] == line);
}

proof fn lemma_prefix_entries(lines: Seq<Seq<char>>, more: Seq<Seq<char>>, n: nat)
    requires
        n <= lines.len() <= more.len(),
        forall|i: int| 0 <= i < n ==> lines[i] == more[i],
    ensures
        lines_entries(lines, n) == lines_entries(more, n),
    decreases n,
{
    if n > 0 {
        lemma_prefix_entries(lines, more, (n - 1) as nat);
        assert(lines[n - 1] == more[n - 1]);
    }
}

/// In specifications lines and errors are what they are.
pub proof fn law_lines_are_seen_whole(lines: Seq<String>, e: HeaderError<String>)
    ensures
        line_texts(lines).len() == lines.len(),
        forall|i: int| 0 <= i < lines.len() ==> #[trigger] line_texts(lines)[i] == lines[i]@,
        match e {
            HeaderError::Name(name) => e@ == HeaderError::Name(name@),
            HeaderError::Value(value) => e@ == HeaderError::Value(value@),
            HeaderError::Cookie(cookie) => e@ == HeaderError::Cookie(cookie@),
            HeaderError::TooMany => e@ is TooMany,
        },
{
}

} // verus!
