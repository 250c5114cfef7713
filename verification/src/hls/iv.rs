//! Initialisation vectors as a playlist writes them: `0x` and 32 hexadecimal digits.

use crate::split::SplitBy;
use vstd::prelude::*;
use vstd::string::*;
use vstd::utf8::*;

verus! {

/// Why a text is no initialisation vector. `T` is text: `String` in running code,
/// `Seq<char>` in specifications.
#[derive(Debug, PartialEq, Eq)]
pub enum IvError<T> {
    /// The text is not 34 bytes long.
    Length,
    /// The text starts with something else than `0x` or `0X`.
    Prefix(T),
    /// Two bytes in a row are not the digits of a byte.
    Digit,
    /// Two bytes in a row end inside a character.
    SplitChar,
}

impl View for IvError<String> {
    type V = IvError<Seq<char>>;

    open spec fn view(&self) -> IvError<Seq<char>> {
        match self {
            IvError::Length => IvError::Length,
            IvError::Prefix(found) => IvError::Prefix(found@),
            IvError::Digit => IvError::Digit,
            IvError::SplitChar => IvError::SplitChar,
        }
    }
}

/// The value of a hexadecimal digit, in either case.
pub open spec fn hex_value(digit: u8) -> Option<int> {
    if 0x30 <= digit <= 0x39 {
        Some(digit - 0x30)
    } else if 0x41 <= digit <= 0x46 {
        Some(digit - 0x41 + 10)
    } else if 0x61 <= digit <= 0x66 {
        Some(digit - 0x61 + 10)
    } else {
        None
    }
}

/// The byte that two characters write. A plus sign may stand in place of the first digit.
pub open spec fn hex_pair(high: u8, low: u8) -> Option<u8> {
    match (hex_value(high), hex_value(low)) {
        (Some(h), Some(l)) => Some((h * 16 + l) as u8),
        (None, Some(l)) => if high == 0x2b {
            Some(l as u8)
        } else {
            None
        },
        _ => None,
    }
}

/// The bytes that the first `n` pairs after the prefix write, or what is wrong with the
/// first bad one.
pub open spec fn iv_pairs(text: Seq<u8>, n: nat) -> Result<Seq<u8>, IvError<Seq<char>>>
    decreases n,
{
    if n == 0 {
        Ok(seq![])
    } else {
        match iv_pairs(text, (n - 1) as nat) {
            Err(e) => Err(e),
            Ok(bytes) => if !is_char_boundary(text, 2 * (n as int) + 2) {
                Err(IvError::SplitChar)
            } else {
                match hex_pair(text[2 * (n as int)], text[2 * (n as int) + 1]) {
                    Some(byte) => Ok(bytes.push(byte)),
                    None => Err(IvError::Digit),
                }
            },
        }
    }
}

/// What the text of an initialisation vector stands for.
pub open spec fn iv_of(text: Seq<u8>) -> Result<Seq<u8>, IvError<Seq<char>>> {
    if text.len() != 34 {
        Err(IvError::Length)
    } else if !is_char_boundary(text, 2) {
        Err(IvError::SplitChar)
    } else if text[0] == 0x30 && (text[1] == 0x58 || text[1] == 0x78) {
        iv_pairs(text, 16)
    } else {
        Err(IvError::Prefix(decode_utf8(text.take(2))))
    }
}

/// What an initialisation vector or the attempt to read one looks like in specifications.
pub open spec fn iv_view(iv: Result<Vec<u8>, IvError<String>>) -> Result<
    Seq<u8>,
    IvError<Seq<char>>,
> {
    match iv {
        Ok(bytes) => Ok(bytes@),
        Err(e) => Err(e@),
    }
}

fn hex_digit(digit: u8) -> (value: Option<u8>)
    ensures
        match value {
            Some(v) => hex_value(digit) == Some(v as int),
            None => hex_value(digit) is None,
        },
        value is Some ==> value->0 < 16,
{
    if 0x30 <= digit && digit <= 0x39 {
        Some(digit - 0x30)
    } else if 0x41 <= digit && digit <= 0x46 {
        Some(digit - 0x41 + 10)
    } else if 0x61 <= digit && digit <= 0x66 {
        Some(digit - 0x61 + 10)
    } else {
        None
    }
}

fn hex_byte(high: u8, low: u8) -> (byte: Option<u8>)
    ensures
        byte == hex_pair(high, low),
{
    match (hex_digit(high), hex_digit(low)) {
        (Some(h), Some(l)) => Some(h * 16 + l),
        (None, Some(l)) => if high == 0x2b {
            Some(l)
        } else {
            None
        },
        _ => None,
    }
}

/// Cutting `rest`, which is `text` without its first `at` bytes, after two bytes cuts
/// `text` at `at + 2`.
proof fn lemma_boundary_in_rest(text: Seq<u8>, at: int)
    requires
        valid_utf8(text),
        is_char_boundary(text, at),
        0 <= at <= text.len() - 2,
    ensures
        valid_utf8(text.skip(at)),
        is_char_boundary(text.skip(at), 2) == is_char_boundary(text, at + 2),
{
    let rest = text.skip(at);
    assert(rest == text.subrange(at, text.len() as int));
    valid_utf8_split(text, at);
    if at + 2 < text.len() {
        is_char_boundary_iff_not_is_continuation_byte(text, at + 2);
        is_char_boundary_iff_not_is_continuation_byte(rest, 2);
    } else {
        is_char_boundary_start_end_of_seq(text);
        is_char_boundary_start_end_of_seq(rest);
    }
}

/// Reads an initialisation vector.
pub fn parse_iv(src: &str) -> (iv: Result<Vec<u8>, IvError<String>>)
    ensures
        iv_view(iv) == iv_of(encode_utf8(src@)),
{
    let ghost text = encode_utf8(src@);
    if src.as_bytes().len() != 34 {
        return Err(IvError::Length);
    }
    proof {
        encode_utf8_valid_utf8(src@);
        is_char_boundary_start_end_of_seq(text);
    }
    let mut it = SplitBy::new(src, 2);
    if !it.can_cut() {
        return Err(IvError::SplitChar);
    }
    match it.next() {
        Some(prefix) => {
            let bytes = prefix.as_bytes();
            if !(bytes[0] == 0x30 && (bytes[1] == 0x58 || bytes[1] == 0x78)) {
                proof {
                    encode_utf8_decode_utf8(prefix@);
                }
                return Err(IvError::Prefix(prefix.to_owned()));
            }
        },
        None => {
            assert(false);
        },
    }
    let mut iv: Vec<u8> = Vec::new();
    let mut n: usize = 0;
    while n < 16
        invariant
            n <= 16,
            text == encode_utf8(src@),
            text.len() == 34,
            valid_utf8(text),
            text[0] == 0x30 && (text[1] == 0x58 || text[1] == 0x78),
            is_char_boundary(text, 2),
            is_char_boundary(text, 2 * n + 2),
            it.width() == 2,
            it.rest() == text.skip(2 * n + 2),
            iv_pairs(text, n as nat) == Ok::<Seq<u8>, IvError<Seq<char>>>(iv@),
            iv_of(text) == iv_pairs(text, 16),
        decreases 16 - n,
    {
        proof {
            lemma_boundary_in_rest(text, 2 * n + 2);
            lemma_first_error_stays(text, (n + 1) as nat, 16);
        }
        if !it.can_cut() {
            return Err(IvError::SplitChar);
        }
        match it.next() {
            Some(piece) => {
                let bytes = piece.as_bytes();
                assert(bytes@[0] == text[2 * n + 2]);
                assert(bytes@[1] == text[2 * n + 3]);
                match hex_byte(bytes[0], bytes[1]) {
                    Some(byte) => {
                        iv.push(byte);
                    },
                    None => {
                        return Err(IvError::Digit);
                    },
                }
            },
            None => {
                assert(false);
            },
        }
        assert(text.skip(2 * n + 2).skip(2) == text.skip(2 * n + 4));
        n = n + 1;
    }
    Ok(iv)
}

/// A bad pair is what is reported, however many pairs follow it.
proof fn lemma_first_error_stays(text: Seq<u8>, n: nat, m: nat)
    requires
        n <= m,
    ensures
        iv_pairs(text, n) is Err ==> iv_pairs(text, m) == iv_pairs(text, n),
    decreases m,
{
    if n < m {
        lemma_first_error_stays(text, n, (m - 1) as nat);
    }
}

/// A vector that could be read has 16 bytes.
pub proof fn law_iv_has_16_bytes(text: Seq<u8>)
    ensures
        iv_of(text) matches Ok(iv) ==> iv.len() == 16,
{
    lemma_pairs_len(text, 16);
}

proof fn lemma_pairs_len(text: Seq<u8>, n: nat)
    ensures
        iv_pairs(text, n) matches Ok(bytes) ==> bytes.len() == n,
    decreases n,
{
    if n > 0 {
        lemma_pairs_len(text, (n - 1) as nat);
    }
}

/// The digit that writes `value`, which is below 16.
pub open spec fn hex_char(value: int, upper: bool) -> char {
    if value < 10 {
        (0x30 + value) as char
    } else if upper {
        (0x41 + value - 10) as char
    } else {
        (0x61 + value - 10) as char
    }
}

/// An initialisation vector as text. `upper` says of each digit, and `upper_prefix` of the
/// prefix, which case it is written in.
pub open spec fn iv_text(iv: Seq<u8>, upper: spec_fn(int) -> bool, upper_prefix: bool) -> Seq<char> {
    let x = if upper_prefix {
        'X'
    } else {
        'x'
    };
    seq!['0', x] + Seq::new(
        2 * iv.len(),
        |i: int|
            if i % 2 == 0 {
                hex_char(iv[i / 2] as int / 16, upper(i))
            } else {
                hex_char(iv[i / 2] as int % 16, upper(i))
            },
    )
}

/// Reading what was written gives the 16 bytes back, whichever case each of the digits and
/// the prefix is written in.
pub proof fn law_iv_round_trip(iv: Seq<u8>, upper: spec_fn(int) -> bool, upper_prefix: bool)
    requires
        iv.len() == 16,
    ensures
        iv_of(encode_utf8(iv_text(iv, upper, upper_prefix))) == Ok::<_, IvError<Seq<char>>>(iv),
{
    let chars = iv_text(iv, upper, upper_prefix);
    let text = encode_utf8(chars);
    assert(chars.len() == 34);
    assert forall|i: int| 0 <= i < chars.len() implies '\0' <= #[trigger] chars[i] <= '\u{7f}' by {
        if i >= 2 {
            let byte = iv[(i - 2) / 2] as int;
            assert(0 <= byte / 16 < 16 && 0 <= byte % 16 < 16);
        }
    }
    is_ascii_chars_encode_utf8(chars);
    encode_utf8_valid_utf8(chars);
    assert forall|i: int| 0 <= i <= 34 implies #[trigger] is_char_boundary(text, i) by {
        is_char_boundary_start_end_of_seq(text);
        if i < 34 {
            assert(text[i] == chars[i] as u8);
            assert(text[i] <= 0x7f);
            is_char_boundary_iff_not_is_continuation_byte(text, i);
        }
    }
    assert(text[0] == chars[0] as u8 && text[1] == chars[1] as u8);
    lemma_pairs_of_text(iv, upper, upper_prefix, 16);
    assert(iv.take(16) == iv);
}

proof fn lemma_pairs_of_text(iv: Seq<u8>, upper: spec_fn(int) -> bool, upper_prefix: bool, n: nat)
    requires
        n <= iv.len() == 16,
        encode_utf8(iv_text(iv, upper, upper_prefix)).len() == 34,
        forall|i: int|
            0 <= i < 34 ==> #[trigger] encode_utf8(iv_text(iv, upper, upper_prefix))[i]
                == iv_text(iv, upper, upper_prefix)[i] as u8,
        forall|i: int|
            0 <= i <= 34 ==> #[trigger] is_char_boundary(
                encode_utf8(iv_text(iv, upper, upper_prefix)),
                i,
            ),
    ensures
        iv_pairs(encode_utf8(iv_text(iv, upper, upper_prefix)), n) == Ok::<
            _,
            IvError<Seq<char>>,
        >(iv.take(n as int)),
    decreases n,
{
    let chars = iv_text(iv, upper, upper_prefix);
    let text = encode_utf8(chars);
    if n == 0 {
        assert(iv.take(0) == Seq::<u8>::empty());
    } else {
        lemma_pairs_of_text(iv, upper, upper_prefix, (n - 1) as nat);
        let at = 2 * (n as int);
        let byte = iv[n - 1];
        assert(text[at] == chars[at] as u8);
        assert(text[at + 1] == chars[at + 1] as u8);
        assert((at - 2) / 2 == n - 1 && (at - 1) / 2 == n - 1);
        assert(chars[at] == hex_char(byte as int / 16, upper(at - 2)));
        assert(chars[at + 1] == hex_char(byte as int % 16, upper(at - 1)));
        assert(0 <= byte as int / 16 < 16 && 0 <= byte as int % 16 < 16);
        assert(hex_value(text[at]) == Some(byte as int / 16));
        assert(hex_value(text[at + 1]) == Some(byte as int % 16));
        assert(hex_pair(text[at], text[at + 1]) == Some(byte));
        assert(is_char_boundary(text, at + 2));
        assert(iv.take(n - 1).push(byte) == iv.take(n as int));
    }
}

/// Whether `digit` writes `value`, in either case.
pub open spec fn writes_digit(digit: u8, value: int) -> bool {
    digit as int == hex_char(value, false) as int || digit as int == hex_char(value, true) as int
}

/// Whether two characters write `byte`. A plus sign may stand in front of a single digit.
pub open spec fn writes_byte(high: u8, low: u8, byte: u8) -> bool {
    &&& writes_digit(low, byte as int % 16)
    &&& writes_digit(high, byte as int / 16) || (high == 0x2b && byte < 16)
}

/// Whether the pair at `k` writes some byte.
pub open spec fn pair_is_written(text: Seq<u8>, k: int) -> bool {
    exists|byte: u8| #[trigger] writes_byte(text[2 * k + 2], text[2 * k + 3], byte)
}

/// A vector is read exactly where the text has 34 bytes, starts with `0x` or `0X`, is cut
/// between characters, and each pair behind that writes a byte: these are the bytes.
pub proof fn law_vector_is_what_the_digits_write(text: Seq<u8>, iv: Seq<u8>)
    ensures
        iv_of(text) == Ok::<_, IvError<Seq<char>>>(iv) <==> {
            &&& text.len() == 34
            &&& text[0] == 0x30 && (text[1] == 0x78 || text[1] == 0x58)
            &&& iv.len() == 16
            &&& forall|k: int| 0 <= k <= 16 ==> #[trigger] is_char_boundary(text, 2 * k + 2)
            &&& forall|k: int|
                0 <= k < 16 ==> writes_byte(text[2 * k + 2], text[2 * k + 3], #[trigger] iv[k])
        },
{
    let right = {
        &&& text.len() == 34
        &&& text[0] == 0x30 && (text[1] == 0x78 || text[1] == 0x58)
        &&& iv.len() == 16
        &&& forall|k: int| 0 <= k <= 16 ==> #[trigger] is_char_boundary(text, 2 * k + 2)
        &&& forall|k: int|
            0 <= k < 16 ==> writes_byte(text[2 * k + 2], text[2 * k + 3], #[trigger] iv[k])
    };
    if right {
        let zero: int = 0;
        assert(is_char_boundary(text, 2 * zero + 2));
        lemma_written_pairs(text, iv, 16);
        assert(iv.take(16) =~= iv);
    }
    if iv_of(text) == Ok::<_, IvError<Seq<char>>>(iv) {
        lemma_read_pairs(text, 16);
        assert forall|k: int| 0 <= k <= 16 implies #[trigger] is_char_boundary(
            text,
            2 * k + 2,
        ) by {}
    }
}

/// Which error comes: the length first, then a first pair inside a character, then another
/// prefix, and then the first pair that ends inside a character or writes no byte.
pub proof fn law_first_flaw_of_a_vector(text: Seq<u8>, k: int)
    ensures
        text.len() != 34 ==> iv_of(text) == Err::<Seq<u8>, IvError<Seq<char>>>(IvError::Length),
        text.len() == 34 && !is_char_boundary(text, 2) ==> iv_of(text) == Err::<
            Seq<u8>,
            IvError<Seq<char>>,
        >(IvError::SplitChar),
        text.len() == 34 && is_char_boundary(text, 2) && !(text[0] == 0x30 && (text[1] == 0x78
            || text[1] == 0x58)) ==> iv_of(text) == Err::<Seq<u8>, _>(
            IvError::Prefix(decode_utf8(text.take(2))),
        ),
        ({
            &&& text.len() == 34 && is_char_boundary(text, 2)
            &&& text[0] == 0x30 && (text[1] == 0x78 || text[1] == 0x58)
            &&& 0 <= k < 16
            &&& forall|j: int|
                0 <= j < k ==> #[trigger] pair_is_written(text, j) && is_char_boundary(
                    text,
                    2 * j + 4,
                )
        }) ==> {
            &&& !is_char_boundary(text, 2 * k + 4) ==> iv_of(text) == Err::<
                Seq<u8>,
                IvError<Seq<char>>,
            >(IvError::SplitChar)
            &&& is_char_boundary(text, 2 * k + 4) && !pair_is_written(text, k) ==> iv_of(text)
                == Err::<Seq<u8>, IvError<Seq<char>>>(IvError::Digit)
        },
{
    if 0 <= k < 16 && forall|j: int|
        0 <= j < k ==> #[trigger] pair_is_written(text, j) && is_char_boundary(text, 2 * j + 4) {
        lemma_pairs_are_read(text, k as nat);
        lemma_first_error_stays(text, (k + 1) as nat, 16);
        if is_char_boundary(text, 2 * k + 4) && !pair_is_written(text, k) {
            if let Some(byte) = hex_pair(text[2 * k + 2], text[2 * k + 3]) {
                lemma_pair_writes(text[2 * k + 2], text[2 * k + 3], byte);
            }
        }
    }
}

/// Reading a pair and writing it agree.
proof fn lemma_pair_writes(high: u8, low: u8, byte: u8)
    ensures
        hex_pair(high, low) == Some(byte) <==> writes_byte(high, low, byte),
{
    lemma_digit_writes(high);
    lemma_digit_writes(low);
    let b = byte as int;
    assert(b == (b / 16) * 16 + b % 16 && 0 <= b / 16 < 16 && 0 <= b % 16 < 16);
    if let (Some(h), Some(l)) = (hex_value(high), hex_value(low)) {
        assert((h * 16 + l) / 16 == h && (h * 16 + l) % 16 == l);
    }
}

proof fn lemma_digit_writes(digit: u8)
    ensures
        forall|value: int|
            0 <= value < 16 ==> (#[trigger] writes_digit(digit, value) <==> hex_value(digit)
                == Some(value)),
        hex_value(digit) matches Some(value) ==> 0 <= value < 16,
{
    assert forall|value: int| 0 <= value < 16 implies (#[trigger] writes_digit(digit, value)
        <==> hex_value(digit) == Some(value)) by {}
}

proof fn lemma_written_pairs(text: Seq<u8>, iv: Seq<u8>, n: nat)
    requires
        n <= 16,
        iv.len() == 16,
        forall|k: int| 0 <= k <= 16 ==> #[trigger] is_char_boundary(text, 2 * k + 2),
        forall|k: int|
            0 <= k < 16 ==> writes_byte(text[2 * k + 2], text[2 * k + 3], #[trigger] iv[k]),
    ensures
        iv_pairs(text, n) == Ok::<_, IvError<Seq<char>>>(iv.take(n as int)),
    decreases n,
{
    if n == 0 {
        assert(iv.take(0) =~= Seq::<u8>::empty());
    } else {
        let k = n - 1;
        lemma_written_pairs(text, iv, k as nat);
        assert(is_char_boundary(text, 2 * (k + 1) + 2));
        assert(writes_byte(text[2 * k + 2], text[2 * k + 3], iv[k]));
        lemma_pair_writes(text[2 * k + 2], text[2 * k + 3], iv[k]);
        assert(iv.take(k).push(iv[k]) =~= iv.take(n as int));
    }
}

proof fn lemma_read_pairs(text: Seq<u8>, n: nat)
    requires
        iv_pairs(text, n) is Ok,
    ensures
        iv_pairs(text, n)->Ok_0.len() == n,
        forall|k: int| 1 <= k <= n ==> #[trigger] is_char_boundary(text, 2 * k + 2),
        forall|k: int|
            0 <= k < n ==> writes_byte(
                text[2 * k + 2],
                text[2 * k + 3],
                #[trigger] iv_pairs(text, n)->Ok_0[k],
            ),
    decreases n,
{
    if n > 0 {
        let k = n - 1;
        lemma_read_pairs(text, k as nat);
        let before = iv_pairs(text, k as nat)->Ok_0;
        let now = iv_pairs(text, n)->Ok_0;
        assert(forall|j: int| 0 <= j < k ==> now[j] == before[j]);
        lemma_pair_writes(text[2 * k + 2], text[2 * k + 3], now[k]);
    }
}

proof fn lemma_pairs_are_read(text: Seq<u8>, n: nat)
    requires
        forall|j: int|
            0 <= j < n ==> #[trigger] pair_is_written(text, j) && is_char_boundary(
                text,
                2 * j + 4,
            ),
    ensures
        iv_pairs(text, n) is Ok,
    decreases n,
{
    if n > 0 {
        let k = n - 1;
        lemma_pairs_are_read(text, k as nat);
        assert(pair_is_written(text, k));
        let byte = choose|byte: u8| #[trigger] writes_byte(text[2 * k + 2], text[2 * k + 3], byte);
        lemma_pair_writes(text[2 * k + 2], text[2 * k + 3], byte);
    }
}

/// In specifications a vector and an error are what they are.
pub proof fn law_vectors_are_seen_whole(iv: Result<Vec<u8>, IvError<String>>)
    ensures
        iv matches Ok(bytes) ==> iv_view(iv) == Ok::<_, IvError<Seq<char>>>(bytes@),
        iv matches Err(IvError::Length) ==> iv_view(iv) == Err::<Seq<u8>, IvError<Seq<char>>>(
            IvError::Length,
        ),
        iv matches Err(IvError::Prefix(found)) ==> iv_view(iv) == Err::<Seq<u8>, _>(
            IvError::Prefix(found@),
        ),
        iv matches Err(IvError::Digit) ==> iv_view(iv) == Err::<Seq<u8>, IvError<Seq<char>>>(
            IvError::Digit,
        ),
        iv matches Err(IvError::SplitChar) ==> iv_view(iv) == Err::<Seq<u8>, IvError<Seq<char>>>(
            IvError::SplitChar,
        ),
{
}

} // verus!
