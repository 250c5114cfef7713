//! Small operations on text, on the characters that a string holds.

use vstd::prelude::*;

verus! {

/// The characters of an optional string.
pub open spec fn opt_text(text: Option<String>) -> Option<Seq<char>> {
    match text {
        Some(text) => Some(text@),
        None => None,
    }
}

/// The characters of a result that is text, and of an error that is text too.
pub open spec fn text_result(result: Result<String, String>) -> Result<Seq<char>, Seq<char>> {
    match result {
        Ok(text) => Ok(text@),
        Err(cause) => Err(cause@),
    }
}

/// The characters of several results that are text.
pub open spec fn text_results(results: Seq<Result<String, String>>) -> Seq<
    Result<Seq<char>, Seq<char>>,
> {
    results.map_values(|result: Result<String, String>| text_result(result))
}

/// Copies an optional string.
pub fn copy_opt(text: &Option<String>) -> (copy: Option<String>)
    ensures
        opt_text(copy) == opt_text(*text),
{
    match text {
        Some(text) => Some(text.clone()),
        None => None,
    }
}

/// The characters of `text`, one by one.
pub fn chars_of(text: &str) -> (chars: Vec<char>)
    ensures
        chars@ == text@,
{
    let mut chars: Vec<char> = Vec::new();
    for c in it: text.chars()
        invariant
            chars@ == it.seq().take(it.index()),
            it.seq() == text@,
    {
        chars.push(c);
    }
    assert(text@.take(text@.len() as int) == text@);
    chars
}

/// Whether two texts have the same characters.
pub fn same(one: &str, other: &str) -> (same: bool)
    ensures
        same == (one@ == other@),
{
    one.to_owned() == other.to_owned()
}

/// `text` cut at the first `separator`, which belongs to neither part.
pub open spec fn cut_once(text: Seq<char>, separator: char) -> Option<(Seq<char>, Seq<char>)> {
    if text.contains(separator) {
        let at = text.index_of_first(separator)->0;
        Some((text.take(at), text.skip(at + 1)))
    } else {
        None
    }
}

/// Cuts `text` at the first `separator`.
pub fn split_once(text: &str, separator: char) -> (parts: Option<(String, String)>)
    ensures
        match parts {
            Some((before, after)) => {
                &&& cut_once(text@, separator) == Some((before@, after@))
                &&& text@ == before@ + seq![separator] + after@
                &&& !before@.contains(separator)
            },
            None => cut_once(text@, separator) is None && !text@.contains(separator),
        },
{
    let chars = chars_of(text);
    let mut at: usize = 0;
    while at < chars.len()
        invariant
            at <= chars@.len(),
            chars@ == text@,
            forall|k: int| 0 <= k < at ==> chars@[k] != separator,
        decreases chars@.len() - at,
    {
        if chars[at] == separator {
            proof {
                text@.index_of_first_ensures(separator);
                assert(text@[at as int] == separator);
                assert(text@.index_of_first(separator) == Some(at as int));
            }
            let before = text.substring_char(0, at).to_owned();
            let after = text.substring_char(at + 1, chars.len()).to_owned();
            assert(text@.subrange(0, at as int) == text@.take(at as int));
            assert(text@.subrange(at + 1, text@.len() as int) == text@.skip(at + 1));
            assert(text@ == before@ + seq![separator] + after@);
            return Some((before, after));
        }
        at = at + 1;
    }
    None
}

/// A character that Unicode counts as white space.
pub open spec fn is_space(c: char) -> bool {
    ||| '\u{9}' <= c <= '\u{d}'
    ||| c == '\u{20}'
    ||| c == '\u{85}'
    ||| c == '\u{a0}'
    ||| c == '\u{1680}'
    ||| '\u{2000}' <= c <= '\u{200a}'
    ||| c == '\u{2028}'
    ||| c == '\u{2029}'
    ||| c == '\u{202f}'
    ||| c == '\u{205f}'
    ||| c == '\u{3000}'
}

fn space(c: char) -> (yes: bool)
    ensures
        yes == is_space(c),
{
    ('\u{9}' <= c && c <= '\u{d}') || c == '\u{20}' || c == '\u{85}' || c == '\u{a0}' || c
        == '\u{1680}' || ('\u{2000}' <= c && c <= '\u{200a}') || c == '\u{2028}' || c == '\u{2029}'
        || c == '\u{202f}' || c == '\u{205f}' || c == '\u{3000}'
}

/// `text` without white space at its start.
pub open spec fn trimmed_start(text: Seq<char>) -> Seq<char>
    decreases text.len(),
{
    if text.len() > 0 && is_space(text.first()) {
        trimmed_start(text.drop_first())
    } else {
        text
    }
}

/// `text` without white space at its end.
pub open spec fn trimmed_end(text: Seq<char>) -> Seq<char>
    decreases text.len(),
{
    if text.len() > 0 && is_space(text.last()) {
        trimmed_end(text.drop_last())
    } else {
        text
    }
}

/// `text` without white space at its start and its end.
pub open spec fn trimmed(text: Seq<char>) -> Seq<char> {
    trimmed_end(trimmed_start(text))
}

/// Takes white space off at the start and the end of `text`.
pub fn trim(text: &str) -> (rest: String)
    ensures
        rest@ == trimmed(text@),
{
    let chars = chars_of(text);
    let mut from: usize = 0;
    assert(text@.skip(0) == text@);
    while from < chars.len() && space(chars[from])
        invariant
            from <= chars.len(),
            chars@ == text@,
            trimmed_start(text@) == trimmed_start(text@.skip(from as int)),
        decreases chars.len() - from,
    {
        assert(text@.skip(from as int).drop_first() == text@.skip(from + 1));
        from = from + 1;
    }
    let ghost start = text@.skip(from as int);
    assert(trimmed_start(start) == start);
    let mut to: usize = chars.len();
    assert(text@.subrange(from as int, to as int) == start);
    while to > from && space(chars[to - 1])
        invariant
            from <= to <= chars.len(),
            chars@ == text@,
            trimmed_end(start) == trimmed_end(text@.subrange(from as int, to as int)),
        decreases to,
    {
        assert(text@.subrange(from as int, to as int).drop_last() == text@.subrange(
            from as int,
            to - 1,
        ));
        to = to - 1;
    }
    text.substring_char(from, to).to_owned()
}

/// Whether `text` ends with `suffix`.
pub open spec fn has_suffix(text: Seq<char>, suffix: Seq<char>) -> bool {
    suffix.len() <= text.len() && text.skip(text.len() - suffix.len()) == suffix
}

/// Whether `text` ends with `suffix`.
pub fn ends_with(text: &str, suffix: &str) -> (yes: bool)
    ensures
        yes == has_suffix(text@, suffix@),
{
    let len = chars_of(text).len();
    let suffix_len = chars_of(suffix).len();
    if suffix_len > len {
        return false;
    }
    let end = text.substring_char(len - suffix_len, len);
    assert(end@ == text@.skip(text@.len() - suffix@.len()));
    same(end, suffix)
}

/// Where `c` stands last in `text`.
pub fn last_index(text: &str, c: char) -> (at: Option<usize>)
    ensures
        match at {
            Some(at) => {
                &&& text@.index_of_last(c) == Some(at as int)
                &&& at < text@.len()
                &&& text@[at as int] == c
                &&& forall|k: int| at < k < text@.len() ==> text@[k] != c
            },
            None => text@.index_of_last(c) is None && !text@.contains(c),
        },
{
    let chars = chars_of(text);
    proof {
        text@.index_of_last_ensures(c);
    }
    let mut at: usize = chars.len();
    while at > 0
        invariant
            at <= chars.len(),
            chars@ == text@,
            forall|k: int| at <= k < text@.len() ==> text@[k] != c,
            match text@.index_of_last(c) {
                Some(index) => {
                    &&& text@.contains(c)
                    &&& 0 <= index < text@.len()
                    &&& text@[index] == c
                    &&& forall|j: int| 0 <= index < j < text@.len() ==> text@[j] != c
                },
                None => !text@.contains(c),
            },
        decreases at,
    {
        at = at - 1;
        if chars[at] == c {
            return Some(at);
        }
    }
    None
}

/// Cutting undoes putting together: of a part without the separator, the separator and
/// another part, the two parts come back. A text without the separator is not cut.
pub proof fn law_cutting_undoes_joining(before: Seq<char>, separator: char, after: Seq<char>)
    requires
        !before.contains(separator),
    ensures
        cut_once(before + seq![separator] + after, separator) == Some((before, after)),
        cut_once(before, separator) is None,
{
    let text = before + seq![separator] + after;
    let at = before.len() as int;
    assert(text[at] == separator);
    text.index_of_first_ensures(separator);
    let found = text.index_of_first(separator)->0;
    if found < at {
        assert(before[found] == separator);
    }
    assert(found == at);
    assert(text.take(at) =~= before);
    assert(text.skip(at + 1) =~= after);
}

/// White space is what Unicode calls so, and nothing else.
pub proof fn law_white_space(c: char)
    ensures
        is_space(c) <==> {
            let code = c as u32;
            0x9 <= code <= 0xd || code == 0x20 || code == 0x85 || code == 0xa0 || code == 0x1680
                || 0x2000 <= code <= 0x200a || code == 0x2028 || code == 0x2029 || code == 0x202f
                || code == 0x205f || code == 0x3000
        },
{
}

/// White space around a text comes off and nothing else does: what starts and ends with
/// something else comes back from between any white space.
pub proof fn law_trimming_undoes_padding(left: Seq<char>, middle: Seq<char>, right: Seq<char>)
    requires
        forall|i: int| 0 <= i < left.len() ==> is_space(#[trigger] left[i]),
        forall|i: int| 0 <= i < right.len() ==> is_space(#[trigger] right[i]),
        middle.len() > 0 ==> !is_space(middle.first()) && !is_space(middle.last()),
    ensures
        trimmed(left + middle + right) == middle,
{
    if middle.len() == 0 {
        let all = left + middle + right;
        assert(forall|i: int| 0 <= i < all.len() ==> is_space(#[trigger] all[i]));
        lemma_all_space(all);
        assert(middle =~= Seq::<char>::empty());
    } else {
        assert(left + middle + right =~= left + (middle + right));
        lemma_trimmed_start(left, middle + right);
        lemma_trimmed_end(middle, right);
    }
}

proof fn lemma_all_space(text: Seq<char>)
    requires
        forall|i: int| 0 <= i < text.len() ==> is_space(#[trigger] text[i]),
    ensures
        trimmed_start(text) == Seq::<char>::empty(),
        trimmed(text) == Seq::<char>::empty(),
    decreases text.len(),
{
    if text.len() > 0 {
        let rest = text.drop_first();
        assert(forall|i: int| 0 <= i < rest.len() ==> rest[i] == text[i + 1]);
        lemma_all_space(rest);
    }
    assert(trimmed_start(text) =~= Seq::<char>::empty());
}

proof fn lemma_trimmed_start(left: Seq<char>, rest: Seq<char>)
    requires
        forall|i: int| 0 <= i < left.len() ==> is_space(#[trigger] left[i]),
        rest.len() > 0,
        !is_space(rest.first()),
    ensures
        trimmed_start(left + rest) == rest,
    decreases left.len(),
{
    if left.len() == 0 {
        assert(left + rest =~= rest);
    } else {
        let fewer = left.drop_first();
        assert((left + rest).first() == left[0]);
        assert((left + rest).drop_first() =~= fewer + rest);
        assert(forall|i: int| 0 <= i < fewer.len() ==> fewer[i] == left[i + 1]);
        lemma_trimmed_start(fewer, rest);
    }
}

proof fn lemma_trimmed_end(rest: Seq<char>, right: Seq<char>)
    requires
        forall|i: int| 0 <= i < right.len() ==> is_space(#[trigger] right[i]),
        rest.len() > 0,
        !is_space(rest.last()),
    ensures
        trimmed_end(rest + right) == rest,
    decreases right.len(),
{
    if right.len() == 0 {
        assert(rest + right =~= rest);
    } else {
        let fewer = right.drop_last();
        assert((rest + right).last() == right.last());
        assert((rest + right).drop_last() =~= rest + fewer);
        lemma_trimmed_end(rest, fewer);
    }
}

/// A text ends with a suffix exactly where it is something followed by the suffix.
pub proof fn law_suffix(text: Seq<char>, suffix: Seq<char>)
    ensures
        has_suffix(text, suffix) <==> exists|start: Seq<char>| text == #[trigger] (start + suffix),
{
    if has_suffix(text, suffix) {
        let start = text.take(text.len() - suffix.len());
        assert(text =~= start + suffix);
    }
    if exists|start: Seq<char>| text == #[trigger] (start + suffix) {
        let start = choose|start: Seq<char>| text == #[trigger] (start + suffix);
        assert(text.skip(text.len() - suffix.len()) =~= suffix);
    }
}

/// In specifications nothing of a text is left out or added.
pub proof fn law_texts_are_seen_whole(
    text: Option<String>,
    result: Result<String, String>,
    results: Seq<Result<String, String>>,
)
    ensures
        text is Some <==> opt_text(text) is Some,
        text is Some ==> opt_text(text)->0 == text->0@,
        result is Ok <==> text_result(result) is Ok,
        result is Ok ==> text_result(result)->Ok_0 == result->Ok_0@,
        result is Err ==> text_result(result)->Err_0 == result->Err_0@,
        text_results(results).len() == results.len(),
        forall|i: int|
            0 <= i < results.len() ==> #[trigger] text_results(results)[i] == text_result(
                results[i],
            ),
{
}

} // verus!
